use blabla::memory::process;
use blabla::memory::syntax::parse;
use blabla::project::runstate::{clock_bytes, new_run_id, run_id_of};
use blabla::project::task::{
    Acceptance, Addressed, Answer, Attribution, Decision, Finding, FindingResolution, Question, Task, apply,
    attest, challenge_current, clear_for_receipt, confirm, decide, evidence_inputs, mark_ready, note,
    record_challenge, Deliverable, Evidence,
};
use blabla::tree::Tree;

fn copy(task: &Task) -> Task {
    let mut t = Task::default();
    t.name = task.name.clone();
    t.role = task.role.clone();
    t.statement = task.statement.clone();
    t.scope = task.scope.clone();
    t.state = task.state.clone();
    t.findings = task.findings.clone();
    t.decisions = task.decisions.clone();
    t.attributions = task.attributions.clone();
    t.accepted = task.accepted.clone();
    t.build = task.build.clone();
    t
}

#[test]
fn a_role_carries_the_confidence_floor_it_declares() {
    let blocks = parse(
        "process.bla",
        "role \"worker\" { purpose \"carry out one bounded task\" model [\"haiku-4.5\"] block_below \"60\" }",
    )
    .unwrap();
    let memory = process::build(&blocks).expect("the process text builds");
    assert!(process::validate(&memory).is_empty());
    let worker = memory.roles.iter().find(|role| role.name == "worker").unwrap();
    assert_eq!(worker.block_below, Some(60));
    assert_eq!(worker.floor(), 60);
    let plain = process::build(&parse("p.bla", "role \"r\" { purpose \"x\" }").unwrap()).unwrap();
    assert_eq!(plain.roles[0].floor(), 0);
    let high = process::build(&parse("p.bla", "role \"r\" { purpose \"x\" block_below \"101\" }").unwrap()).unwrap_err();
    assert_eq!(high.code, "E_MEMORY_FIELD");
    assert_eq!(high.message, "`block_below` takes a whole-number percentage from 0 through 100, not \"101\"");
    let word = process::build(&parse("p.bla", "role \"r\" { purpose \"x\" block_below \"most\" }").unwrap()).unwrap_err();
    assert_eq!(word.code, "E_MEMORY_FIELD");
}

#[test]
fn a_decision_below_the_declared_floor_blocks_the_task() {
    let blocks = parse("process.bla", "role \"worker\" { purpose \"carry out one bounded task\" block_below \"60\" }").unwrap();
    let floor = process::build(&blocks).unwrap().roles[0].floor();
    let mut task = Task::default();
    task.name = "decide".to_owned();
    task.role = "worker".to_owned();
    assert!(apply(&mut task, "accepted"));
    task.accepted = Some(Acceptance { model: "haiku-4.5".to_owned(), unix: 1, changed_at_acceptance: None });
    let below = Question {
        question: "q".to_owned(),
        options: Vec::new(),
        pick: "yes".to_owned(),
        confidence: i64::from(floor) - 1,
        model: "haiku-4.5".to_owned(),
    };
    assert!(decide(&mut task, below, floor).unwrap().below_floor);
    assert_eq!(task.state, "blocked");
    let mut other = Task::default();
    assert!(apply(&mut other, "accepted"));
    other.accepted = Some(Acceptance { model: "haiku-4.5".to_owned(), unix: 1, changed_at_acceptance: None });
    let at = Question {
        question: "q".to_owned(),
        options: Vec::new(),
        pick: "yes".to_owned(),
        confidence: i64::from(floor),
        model: "haiku-4.5".to_owned(),
    };
    assert!(!decide(&mut other, at, floor).unwrap().below_floor);
    assert_eq!(other.state, "accepted");
}

#[test]
fn a_run_id_is_the_hex_of_sixteen_bytes() {
    let bytes: Vec<u8> = (0u8..16).collect();
    assert_eq!(run_id_of(&bytes), "000102030405060708090a0b0c0d0e0f");
    assert_eq!(clock_bytes(0x0102), vec![2, 1, 0, 0, 0, 0, 0, 0, 0, 0, 0, 0, 0, 0, 0, 0]);
    let id = new_run_id();
    assert_eq!(id.len(), 32);
    assert!(id.chars().all(|c| c.is_ascii_hexdigit() && !c.is_ascii_uppercase()));
    assert_ne!(new_run_id(), id);
}

#[test]
fn the_receipt_record_drops_what_a_challenge_does_not_depend_on() {
    let mut task = Task::default();
    task.name = "work".to_owned();
    task.state = "accepted".to_owned();
    task.scope = vec!["src".to_owned()];
    task.accepted = Some(Acceptance { model: "m".to_owned(), unix: 1, changed_at_acceptance: None });
    task.build = Some("build".to_owned());
    task.findings = vec![Finding {
        id: 1,
        statement: "f".to_owned(),
        addressed: Some(Addressed { model: "m".to_owned(), statement: "done".to_owned(), unix: 2 }),
        resolution: Some(FindingResolution { evidence: "ok".to_owned(), model: None }),
    }];
    task.attributions = vec![
        Attribution { path: "a".to_owned(), kind: "concurrent".to_owned(), digest: None, model: None },
        Attribution { path: "b".to_owned(), kind: "task".to_owned(), digest: None, model: None },
    ];
    task.decisions = vec![Decision {
        id: 1,
        question: "q".to_owned(),
        kind: "yes-no".to_owned(),
        options: vec!["yes".to_owned(), "no".to_owned()],
        pick: "yes".to_owned(),
        confidence: 10,
        model: "m".to_owned(),
        floor: 60,
        below_floor: true,
        answer: Some(Answer { pick: "no".to_owned(), model: "o".to_owned(), reason: "r".to_owned() }),
        on: None,
    }];
    note(&mut task, "kept".to_owned(), 3);
    attest(&mut task, "answer", Some("o"), 4);
    let mut record = copy(&task);
    record.notes = task.notes.clone();
    clear_for_receipt(&mut record);
    assert!(record.state.is_empty() && record.build.is_none() && record.notes.is_empty());
    assert!(record.orchestrator_records.is_empty());
    assert!(record.findings[0].resolution.is_none());
    assert!(record.findings[0].addressed.is_some());
    assert!(record.decisions[0].answer.is_none());
    assert_eq!(record.attributions.len(), 1);
    assert_eq!(record.attributions[0].path, "b");
    assert_eq!(record.name, "work");
    assert_eq!(record.scope, vec!["src".to_owned()]);
}

fn tree_of(pairs: &[(&str, &str)]) -> Tree {
    let mut t = Tree::new();
    for (k, v) in pairs {
        t.insert((*k).to_owned(), (*v).to_owned());
    }
    t
}

#[test]
fn a_recorded_challenge_stays_current_through_bookkeeping_but_not_a_changed_tree() {
    let mut task = Task::default();
    task.name = "work".to_owned();
    task.role = "worker".to_owned();
    task.scope = vec!["src".to_owned()];
    task.state = "accepted".to_owned();
    task.accepted = Some(Acceptance { model: "small".to_owned(), unix: 1, changed_at_acceptance: None });
    task.check = Some("check".to_owned());
    task.deliverables.push(Deliverable { path: "src/a.rs".to_owned(), opened_digest: None });
    let now = tree_of(&[("src/a.rs", "1")]);
    let inputs = evidence_inputs(&task, &now);
    task.evidence.push(Evidence {
        check: "check".to_owned(),
        exit: 0,
        tree: String::new(),
        tool: "cargo".to_owned(),
        unix: 3,
        inputs,
        command: None,
        log: None,
    });
    let record = "{\"name\":\"work\"}";
    assert!(record_challenge(record, &mut task, &now, 0, 5));
    assert!(challenge_current(record, &task, &now));
    attest(&mut task, "reviewed", Some("lead"), 6);
    note(&mut task, "looked fine".to_owned(), 7);
    assert!(mark_ready(record, &mut task, &now, 0).is_ok());
    assert_eq!(task.state, "ready");
    assert!(confirm(&mut task, "lead", 8).is_ok());
    assert!(challenge_current(record, &task, &now));
    let moved = tree_of(&[("src/a.rs", "2")]);
    assert!(!challenge_current(record, &task, &moved));
}
