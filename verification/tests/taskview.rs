use blabla::cli::task::{
    handback_guidance, ignored_declaration, join_or, normalize, owed_paths, render_route_lines, route_states_of, route_text_lines, routes, routes_text,
    state_label, write_resolution, write_routes, write_task, write_task_line, write_tasks,
};
use blabla::diagnostic::Span;
use blabla::project::ignore::{Ignore, IgnoreDeclaration};
use blabla::project::task::{
    Addressed, Deliverable, Finding, FindingResolution, Note, RemovedDeliverable, Resolution, Task,
};

fn task(name: &str, state: &str) -> Task {
    let mut task = Task::default();
    task.name = name.to_owned();
    task.role = "worker".to_owned();
    task.statement = "repair the parser".to_owned();
    task.state = state.to_owned();
    task
}

#[test]
fn a_state_label_is_the_state_in_capitals() {
    assert_eq!(state_label(&task("t", "accepted")), "ACCEPTED");
    assert_eq!(join_or(&Vec::new(), "none"), "none");
    assert_eq!(join_or(&vec!["a".to_owned(), "b".to_owned()], "none"), "a  b");
}

#[test]
fn every_route_lists_the_states_it_is_offered_in() {
    assert_eq!(routes().len(), 9);
    assert_eq!(route_states_of("accept"), vec!["open", "blocked", "ready"]);
    assert_eq!(route_states_of("lens"), vec!["accepted"]);
    assert_eq!(route_states_of("challenge"), vec!["open", "accepted", "blocked", "ready"]);
    assert!(route_states_of("nothing").is_empty());
    assert!(route_text_lines("lens", "t", &None, &None, &Some("open".to_owned())).is_empty());
    assert_eq!(
        route_text_lines("lens", "t", &None, &None, &Some("accepted".to_owned())),
        vec!["  blabla task lens t <pack> \"...\"   one assessment against one lens the role consults".to_owned()]
    );
}

#[test]
fn a_blocked_or_ready_task_is_told_to_accept_again() {
    let again = render_route_lines("accept", "t", &None, &None, &Some("blocked".to_owned()));
    assert_eq!(
        again,
        vec!["\n  blabla task accept t --model <id>   take the assignment again before changing anything; a BLOCKED or READY task resumes by being accepted".to_owned()]
    );
    let first = render_route_lines("accept", "t", &None, &None, &None);
    assert_eq!(
        first,
        vec!["\n  blabla task accept t --model <id>   take the assignment before changing anything; unaccepted work is challenged as work done outside BlaBla".to_owned()]
    );
    let ready = render_route_lines("challenge", "t", &None, &None, &Some("ready".to_owned()));
    assert_eq!(
        ready,
        vec!["  READY: hand-back recorded; await orchestrator review; closing task t is orchestrator-owned".to_owned()]
    );
}

#[test]
fn a_check_declared_as_a_program_is_run_and_one_declared_as_a_line_is_recorded() {
    let argv = Some(vec!["cargo".to_owned(), "test".to_owned()]);
    assert_eq!(
        render_route_lines("check", "t", &None, &argv, &None),
        vec![
            "\nDeclared check:\n  cargo test".to_owned(),
            "  blabla task evidence t --run   BlaBla runs exactly that program and records the exit code it observed"
                .to_owned(),
        ]
    );
    let line = Some("make check".to_owned());
    assert_eq!(
        render_route_lines("check", "t", &line, &None, &None),
        vec![
            "\nDeclared check:\n  make check".to_owned(),
            "  blabla task evidence t --exit <code> --tool <tool>   record what the whole run reported; when make check exits 0 that is --exit 0 --tool check".to_owned(),
        ]
    );
}

#[test]
fn the_routes_before_a_record_exists_cover_every_route() {
    let text = routes_text("t", &None);
    assert!(text.starts_with("\n  blabla task accept t --model <id>   take the assignment before changing anything"));
    assert!(text.contains("  blabla task block t \"...\"   record the blocker and stop\n"));
    assert!(text.contains("  blabla task lens t <pack>"));
    assert!(text.ends_with("  blabla task ready t   hand back for review; closing it is the orchestrator's, never yours\n"));
    assert_eq!(text.lines().filter(|line| line.contains("blabla")).count(), 8);
}

#[test]
fn a_refused_hand_back_names_the_step_owed() {
    let mut t = task("t", "accepted");
    assert_eq!(handback_guidance(&t, "accept"), "accept or resume it with blabla task accept t --model <id>");
    assert_eq!(
        handback_guidance(&t, "record-evidence"),
        "run its declared check, then record the actual result with blabla task evidence t --exit <code> --tool <label>"
    );
    t.check_argv = Some(vec!["cargo".to_owned()]);
    assert_eq!(
        handback_guidance(&t, "record-evidence"),
        "run its declared check with blabla task evidence t --run, which records the exit code BlaBla observes"
    );
    assert_eq!(
        handback_guidance(&t, "resolve-challenge"),
        "run blabla challenge t, reconcile assignment blockers, then retry the hand-back"
    );
    assert_eq!(handback_guidance(&t, "other"), "the task record has an invalid state");
}

#[test]
fn a_task_in_full_shows_its_scope_findings_notes_and_routes() {
    let mut t = task("parse", "accepted");
    t.scope = vec!["src".to_owned(), "tests".to_owned()];
    t.deliverables = vec![Deliverable { path: "src/parse.rs".to_owned(), opened_digest: None }];
    t.findings = vec![
        Finding {
            id: 1,
            statement: "empty input panics".to_owned(),
            addressed: Some(Addressed { model: "small".to_owned(), statement: "guarded".to_owned(), unix: 3 }),
            resolution: None,
        },
        Finding {
            id: 2,
            statement: "slow".to_owned(),
            addressed: None,
            resolution: Some(FindingResolution { evidence: "bench".to_owned(), model: Some("opus".to_owned()) }),
        },
        Finding { id: 3, statement: "odd name".to_owned(), addressed: None, resolution: None },
    ];
    t.notes = vec![Note { statement: "see issue".to_owned(), unix: 4 }];
    t.removed_deliverables =
        vec![RemovedDeliverable { path: "src/old.rs".to_owned(), reason: "merged".to_owned(), unix: 5 }];
    let mut out = String::new();
    write_task(&mut out, &t);
    let expected_head = "task::parse   ACCEPTED\n\nStatement:\n  repair the parser\n\nCarried by:\n  role::worker\n\nWrite scope:\n  src  tests\n\nDeliverables:\n  src/parse.rs\n\nCheck inputs (plus deliverables):\n  write scope: src  tests\n\nFindings:\n  1 empty input panics\n    addressed by small: guarded\n    awaiting the orchestrator's resolution\n  2 slow\n    resolved: bench\n    by opus\n  3 odd name\n    UNRESOLVED\n\nNotes:\n  see issue\n\nRemoved deliverables:\n  src/old.rs — merged\n\nScratch:\n  .blabla/scratch/parse   working space; not a deliverable and outside the tree snapshot\n";
    assert!(out.starts_with(expected_head), "{out}");
    assert!(!out.contains("blabla task accept parse"));
    assert!(out.contains("  blabla task lens parse <pack>"));
    let mut routes_only = String::new();
    write_routes(&mut routes_only, &t);
    assert!(out.ends_with(&routes_only));
    let bare = task("bare", "open");
    let mut out = String::new();
    write_task(&mut out, &bare);
    assert!(out.contains("\nWrite scope:\n  none declared\n\nDeliverables:\n  none declared\n"));
    assert!(out.contains("\nFindings:\n  none recorded\n"));
    assert!(!out.contains("Notes:"));
}

#[test]
fn the_list_of_tasks_counts_what_each_leaves_unresolved() {
    let mut out = String::new();
    write_tasks(&mut out, &Vec::new());
    assert_eq!(
        out,
        "No bounded task is recorded.\n  blabla task open <name> --role <role> --statement \"...\" --scope <path> --deliverable <path>\n"
    );
    let mut open = task("a", "open");
    open.findings = vec![Finding { id: 1, statement: "x".to_owned(), addressed: None, resolution: None }];
    let closed = task("b", "closed");
    let mut out = String::new();
    write_tasks(&mut out, &vec![open, closed]);
    assert_eq!(
        out,
        "Bounded tasks:\n  task::a   OPEN   role::worker   1 unresolved\n  task::b   CLOSED   role::worker   0 unresolved\n\n  blabla task show <name>   one task in full\n"
    );
    let mut line = String::new();
    write_task_line(&mut line, &task("a", "ready"));
    assert_eq!(line, "task::a   READY   recorded; blabla task show a prints the record\n");
}

#[test]
fn a_resolution_summary_says_none_where_nothing_resolved() {
    let mut out = String::new();
    write_resolution(
        &mut out,
        &Resolution {
            models: Vec::new(),
            lenses: vec!["knowledge::rust".to_owned()],
            requirements: Vec::new(),
            verification: "behavior".to_owned(),
        },
    );
    assert_eq!(
        out,
        "Resolved for this assignment:\n  models permitted   none declared by the role\n  lenses consulted   knowledge::rust\n  verification tier  behavior\n  contracts in scope none touch this scope\n  blabla explain role::<name>   the authority behind these; this view is a summary\n"
    );
}

fn ignoring(written: &[&str]) -> Ignore {
    let declarations: Vec<IgnoreDeclaration> = written
        .iter()
        .map(|pattern| IgnoreDeclaration::Pattern {
            written: (*pattern).to_owned(),
            span: Span { start: 0, end: 0, line: 1, column: 1 },
        })
        .collect();
    let sources: Vec<Result<String, String>> = declarations.iter().map(|_| Ok(String::new())).collect();
    Ignore::new(".", &declarations, &sources, Vec::new()).unwrap()
}

#[test]
fn declared_paths_use_forward_slashes_and_an_ignored_one_is_refused() {
    assert_eq!(normalize("src\\parse\\lib.rs".to_owned()), "src/parse/lib.rs");
    let ignore = ignoring(&["*.log", "build/"]);
    assert_eq!(
        ignored_declaration(&ignore, "deliverable", &vec!["src/a.rs".to_owned(), "out\\run.log".to_owned()], &vec![false, false]),
        Some("deliverable \"out/run.log\" is left out of change tracking by ignore \"*.log\", so BlaBla could never observe it; drop that ignore rule or declare a path it does not cover".to_owned())
    );
    assert_eq!(
        ignored_declaration(&ignore, "input", &vec!["build".to_owned()], &vec![true]),
        Some("input \"build\" is left out of change tracking by ignore \"build/\", so BlaBla could never observe it; drop that ignore rule or declare a path it does not cover".to_owned())
    );
    assert_eq!(ignored_declaration(&ignore, "input", &vec!["build".to_owned()], &vec![false]), None);
}

#[test]
fn a_declared_directory_owes_the_files_under_it() {
    let files = vec!["docs/a.md".to_owned(), "src/a.rs".to_owned(), "src/b.rs".to_owned(), "srcx/c.rs".to_owned()];
    assert_eq!(
        owed_paths(&vec!["src".to_owned(), "README.md".to_owned(), "empty".to_owned()], &vec![true, false, true], &files),
        vec!["src/a.rs".to_owned(), "src/b.rs".to_owned(), "README.md".to_owned(), "empty".to_owned()]
    );
}
