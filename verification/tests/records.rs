use blabla::project::digest::{FileFacts, Visit, digest_of, file_digest, fingerprint, reads_content, skipped_directory, snapshot};
use blabla::project::task::{
    Answer, Decision, Deliverable, Opening, Task, calibration, directory, path_of, record, status, unreadable,
};
use blabla::project::{Fnv, Place, discover, locate};
use blabla::recovery::{Identity, foreign, refuse_write};
use blabla::voice::Voice;

fn small(content: &[u8]) -> FileFacts {
    FileFacts { len: Some(content.len() as u64), content: Ok(content.to_vec()), modified_nanos: None }
}

#[test]
fn a_file_digest_follows_its_name_and_content() {
    let a = file_digest("src/a.rs", &small(b"one"));
    assert_eq!(a.len(), 16);
    assert_eq!(a, file_digest("src/a.rs", &small(b"one")));
    assert_ne!(a, file_digest("src/a.rs", &small(b"two")));
    assert_ne!(a, file_digest("src/b.rs", &small(b"one")));
    let no_metadata = FileFacts { len: None, content: Ok(Vec::new()), modified_nanos: None };
    assert_ne!(file_digest("x", &no_metadata), file_digest("x", &small(b"")));
    let large = FileFacts { len: Some(5_000_000), content: Ok(b"ignored".to_vec()), modified_nanos: Some(7) };
    let same_large = FileFacts { len: Some(5_000_000), content: Ok(b"other".to_vec()), modified_nanos: Some(7) };
    assert_eq!(file_digest("big", &large), file_digest("big", &same_large));
    assert!(reads_content(4 * 1024 * 1024));
    assert!(!reads_content(4 * 1024 * 1024 + 1));
    assert_eq!(digest_of("x", None), None);
    assert_eq!(digest_of("x", Some(&small(b"1"))), Some(file_digest("x", &small(b"1"))));
}

#[test]
fn a_snapshot_keys_each_file_by_its_path() {
    let files = vec![("b.txt".to_owned(), small(b"b")), ("a.txt".to_owned(), small(b"a"))];
    let tree = snapshot(&files);
    assert_eq!(tree.len(), 2);
    assert_eq!(tree.entry(0).0, "a.txt");
    assert_eq!(tree.get("b.txt").map(str::to_owned), Some(file_digest("b.txt", &small(b"b"))));
}

#[test]
fn the_fingerprint_sees_unreadable_directories_and_extra_files() {
    let plain = fingerprint(&vec![Visit::File("a".to_owned(), small(b"1"))], &Vec::new());
    let with_dir = fingerprint(
        &vec![Visit::File("a".to_owned(), small(b"1")), Visit::UnreadableDirectory("locked".to_owned())],
        &Vec::new(),
    );
    let with_extra = fingerprint(&vec![Visit::File("a".to_owned(), small(b"1"))], &vec![("bin".to_owned(), small(b"x"))]);
    assert_ne!(plain, with_dir);
    assert_ne!(plain, with_extra);
    assert!(skipped_directory(".git") && skipped_directory("node_modules") && !skipped_directory("src"));
}

#[test]
fn hashing_in_pieces_equals_hashing_at_once() {
    let mut pieces = Fnv::new();
    pieces.write(b"abc");
    pieces.write(b"def");
    let mut whole = Fnv::new();
    whole.write(b"abcdef");
    assert_eq!(pieces.finish(), whole.finish());
}

#[test]
fn task_records_live_under_the_record_directory() {
    assert_eq!(directory("/work"), "/work/.blabla/tasks");
    assert_eq!(path_of("/work", "fix"), "/work/.blabla/tasks/fix.json");
    assert_eq!(
        unreadable(&vec![("bad".to_owned(), "cannot parse".to_owned())]),
        vec!["task::bad   cannot parse".to_owned()]
    );
}

#[test]
fn a_recorded_task_keeps_the_digests_its_deliverables_had() {
    let tree = snapshot(&vec![("src/a.rs".to_owned(), small(b"fn a() {}"))]);
    let expected = tree.get("src/a.rs").map(str::to_owned);
    let opening = Opening {
        name: "work".to_owned(),
        role: "worker".to_owned(),
        statement: "do it".to_owned(),
        scope: vec!["src".to_owned()],
        deliverables: vec!["src/a.rs".to_owned(), "src/new.rs".to_owned()],
        ..Opening::default()
    };
    let task = record(opening, 42, tree);
    assert_eq!(task.opened_unix, 42);
    assert_eq!(task.state, "open");
    assert_eq!(task.deliverables.len(), 2);
    assert_eq!(task.deliverables[0].opened_digest, expected);
    assert_eq!(task.deliverables[1].opened_digest, None);
}

fn decision(model: &str, pick: &str, answer: Option<&str>, confidence: u8, asked: bool) -> Decision {
    Decision {
        id: 1,
        question: "which".to_owned(),
        kind: "choice".to_owned(),
        options: vec!["a".to_owned(), "b".to_owned()],
        pick: pick.to_owned(),
        confidence,
        model: model.to_owned(),
        floor: 60,
        below_floor: false,
        answer: answer.map(|pick| Answer { pick: pick.to_owned(), model: "lead".to_owned(), reason: "because".to_owned() }),
        on: if asked { Some("q-1".to_owned()) } else { None },
    }
}

#[test]
fn calibration_counts_answered_picks_per_model_in_name_order() {
    let mut first = Task::default();
    first.decisions = vec![
        decision("small-1", "a", Some("a"), 80, false),
        decision("big-1", "a", Some("b"), 90, true),
        decision("small-2", "b", Some("b"), 71, false),
        decision("small-1", "a", None, 10, false),
    ];
    let rows = calibration(&[first], |model: &str| model.split('-').next().unwrap_or(model).to_owned());
    assert_eq!(rows.len(), 2);
    assert_eq!(rows[0].model, "big");
    assert_eq!((rows[0].answered, rows[0].held, rows[0].overruled, rows[0].asked), (1, 0, 1, 1));
    assert_eq!(rows[0].mean_confidence, 90);
    assert_eq!(rows[1].model, "small");
    assert_eq!((rows[1].answered, rows[1].held, rows[1].overruled), (2, 2, 0));
    assert_eq!(rows[1].mean_confidence, 76);
}

#[test]
fn task_status_summarises_each_task_and_counts_open_ones() {
    let mut open = Task::default();
    open.name = "fix".to_owned();
    open.role = "worker".to_owned();
    open.state = "accepted".to_owned();
    open.deliverables = vec![Deliverable { path: "src/a.rs".to_owned(), opened_digest: None }];
    let mut closed = Task::default();
    closed.name = "old".to_owned();
    closed.role = "worker".to_owned();
    closed.state = "closed".to_owned();
    let report = status(&vec![open, closed], vec!["task::bad   cannot parse".to_owned()]).unwrap();
    assert_eq!(report.directory, ".blabla/tasks");
    assert_eq!(report.open, 1);
    assert_eq!(report.tasks[0].id, "task::fix");
    assert_eq!(report.tasks[0].role, "role::worker");
    assert_eq!(report.tasks[0].state, "ACCEPTED");
    assert_eq!(report.tasks[0].deliverables, 1);
    assert_eq!(report.unreadable.len(), 1);
    assert!(status(&Vec::new(), Vec::new()).is_none());
}

#[test]
fn discovery_takes_the_nearest_manifest_and_locate_reports_missing_projects() {
    let nearest = discover(&vec![
        ("/w/apps/server/src/project.bla".to_owned(), false),
        ("/w/apps/server/project.bla".to_owned(), true),
        ("/w/project.bla".to_owned(), true),
    ]);
    assert_eq!(nearest, Some("/w/apps/server/project.bla".to_owned()));
    assert_eq!(discover(&vec![("/x/project.bla".to_owned(), false)]), None);
    let none = locate(None, "/w/apps/web", None).unwrap_err();
    assert_eq!(none.code, "E_NO_PROJECT");
    assert!(none.message.contains("blabla init"));
    assert_eq!(locate(None, "/w", Some("/w/project.bla".to_owned())).unwrap(), "/w/project.bla");
    assert_eq!(
        locate(Some(("/w/apps".to_owned(), Place::Directory { manifest: true })), "/w", None).unwrap(),
        "/w/apps/project.bla"
    );
    let empty = locate(Some(("/w/apps".to_owned(), Place::Directory { manifest: false })), "/w", None).unwrap_err();
    assert_eq!(empty.message, "no project.bla in /w/apps");
    let gone = locate(Some(("/w/nowhere.bla".to_owned(), Place::Nothing)), "/w", None).unwrap_err();
    assert_eq!(gone.message, "project manifest /w/nowhere.bla does not exist");
}

#[test]
fn a_voice_word_parses_back_to_the_voice() {
    for voice in [Voice::Neutral, Voice::Blunt] {
        assert_eq!(Voice::parse(voice.word()), Some(voice));
    }
}

#[test]
fn a_build_never_refuses_its_own_record() {
    let identity = Identity { version: "1.2.3".to_owned(), digest: "abcd".to_owned(), recovery: true };
    let own = identity.stamp();
    assert!(!foreign(Some(&identity), Some(own.as_str())));
    assert!(refuse_write(&identity, Some(own.as_str())).is_none());
    assert!(refuse_write(&identity, Some("0.0.0 elsewhere")).is_some());
}

#[test]
fn calibration_names_only_the_models_of_answered_decisions() {
    let mut task = Task::default();
    task.decisions = vec![
        decision("small-1", "a", Some("a"), 80, false),
        decision("unnameable", "a", None, 10, false),
    ];
    let rows = calibration(&[task], |model: &str| {
        assert_ne!(model, "unnameable", "an unanswered decision was named");
        model.split('-').next().unwrap_or(model).to_owned()
    });
    assert_eq!(rows.len(), 1);
    assert_eq!(rows[0].model, "small");
}
