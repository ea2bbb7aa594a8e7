use blabla::project::task::{
    Acceptance, Answer, Ask, Deliverable, Evidence, Opening, OrchestratorRecord, Pick, Question, Task,
    answer, apply, ask, attest, carrier, changed, confirm, covers, decide, evidence_inputs, observed_digest,
    pick, readiness, record_from, stale, transition, unanswered_decision,
};
use blabla::tree::Tree;

fn tree(pairs: &[(&str, &str)]) -> Tree {
    let mut t = Tree::new();
    for (k, v) in pairs {
        t.insert((*k).to_owned(), (*v).to_owned());
    }
    t
}

fn accepted_task() -> Task {
    let mut task = Task::default();
    task.name = "work".to_owned();
    task.role = "worker".to_owned();
    task.scope = vec!["src".to_owned()];
    task.state = "accepted".to_owned();
    task.accepted = Some(Acceptance { model: "small".to_owned(), unix: 1, changed_at_acceptance: None });
    task
}

#[test]
fn a_default_task_is_open_and_holds_nothing() {
    let task = Task::default();
    assert_eq!(task.state, "open");
    assert!(task.name.is_empty() && task.scope.is_empty() && task.deliverables.is_empty());
    assert!(task.accepted.is_none() && task.closed_unix.is_none() && task.goal.is_none());
    assert_eq!(task.opened_tree.len(), 0);
    assert!(task.open());
}

#[test]
fn every_opening_field_reaches_the_recorded_task() {
    let task = record_from(
        Opening {
            name: "work".to_owned(),
            role: "worker".to_owned(),
            statement: "repair".to_owned(),
            scope: vec!["src".to_owned()],
            deliverables: vec!["src/a.rs".to_owned()],
            check: Some("check".to_owned()),
            check_argv: Some(vec!["cargo".to_owned(), "test".to_owned()]),
            inputs: vec!["shared".to_owned()],
            goal: Some("ship".to_owned()),
        },
        7,
        tree(&[("src/a.rs", "old")]),
        vec![Some("old".to_owned())],
    );
    assert_eq!(task.name, "work");
    assert_eq!(task.role, "worker");
    assert_eq!(task.statement, "repair");
    assert_eq!(task.scope, vec!["src".to_owned()]);
    assert_eq!(task.deliverables.len(), 1);
    assert_eq!(task.deliverables[0].path, "src/a.rs");
    assert_eq!(task.deliverables[0].opened_digest.as_deref(), Some("old"));
    assert_eq!(task.opened_unix, 7);
    assert_eq!(task.opened_tree.get("src/a.rs"), Some("old"));
    assert_eq!(task.state, "open");
    assert_eq!(task.check.as_deref(), Some("check"));
    assert_eq!(task.check_argv, Some(vec!["cargo".to_owned(), "test".to_owned()]));
    assert_eq!(task.check_inputs, vec!["shared".to_owned()]);
    assert_eq!(task.goal.as_deref(), Some("ship"));
    let opening = Opening::default();
    assert!(opening.name.is_empty() && opening.check.is_none() && opening.goal.is_none());
}

#[test]
fn the_moves_between_states_are_the_listed_ones() {
    assert!(transition("open", "accepted"));
    assert!(transition("accepted", "blocked"));
    assert!(transition("ready", "closed"));
    assert!(!transition("open", "blocked"));
    assert!(!transition("open", "closed"));
    assert!(!transition("closed", "accepted"));
    let mut task = Task::default();
    assert!(!apply(&mut task, "blocked"));
    assert_eq!(task.state, "open");
    assert!(apply(&mut task, "accepted"));
    assert_eq!(task.state, "accepted");
    assert!(!apply(&mut task, "ready"));
    assert_eq!(task.state, "accepted");
}

#[test]
fn a_decision_below_the_floor_blocks_until_answered() {
    let mut task = accepted_task();
    let question = Question {
        question: "which store".to_owned(),
        options: vec!["file".to_owned(), "memory".to_owned()],
        pick: "file".to_owned(),
        confidence: 40,
        model: "small".to_owned(),
    };
    let decision = decide(&mut task, question, 60).unwrap();
    assert_eq!(decision.id, 1);
    assert!(decision.below_floor);
    assert_eq!(decision.kind, "choice");
    assert_eq!(task.state, "blocked");
    assert!(unanswered_decision(&task).is_some());
    assert!(!apply(&mut task, "accepted"));
    let refused = decide(
        &mut task,
        Question { question: "again".to_owned(), options: vec![], pick: "yes".to_owned(), confidence: 90, model: "small".to_owned() },
        60,
    )
    .unwrap_err();
    assert_eq!(
        refused,
        "task \"work\" is BLOCKED on decision 1: which store; a blocked task takes no decision until the orchestrator answers it"
    );
    let answered = answer(
        &mut task,
        1,
        Answer { pick: "memory".to_owned(), model: "opus".to_owned(), reason: "faster".to_owned() },
    )
    .unwrap();
    assert!(answered.overruled());
    assert!(unanswered_decision(&task).is_none());
    assert!(apply(&mut task, "accepted"));
    assert_eq!(task.state, "accepted");
}

#[test]
fn a_decision_at_the_floor_stands_and_bad_ones_are_refused() {
    let mut task = accepted_task();
    let yes_no = Question { question: "ship it".to_owned(), options: vec![], pick: "yes".to_owned(), confidence: 60, model: "small".to_owned() };
    let decision = decide(&mut task, yes_no, 60).unwrap();
    assert!(!decision.below_floor);
    assert_eq!(decision.kind, "yes-no");
    assert_eq!(decision.options, vec!["yes".to_owned(), "no".to_owned()]);
    assert_eq!(task.state, "accepted");
    let same = Question { question: "q".to_owned(), options: vec!["a".to_owned(), "a".to_owned()], pick: "a".to_owned(), confidence: 90, model: "m".to_owned() };
    assert_eq!(
        decide(&mut task, same, 60).unwrap_err(),
        "the options \"a,a\" must be at least two different, non-empty choices"
    );
    let wide = Question { question: "q".to_owned(), options: vec![], pick: "yes".to_owned(), confidence: 101, model: "m".to_owned() };
    assert_eq!(
        decide(&mut task, wide, 60).unwrap_err(),
        "confidence 101 is outside 0..100; state it as a whole-number percentage"
    );
    let negative = Question { question: "q".to_owned(), options: vec![], pick: "yes".to_owned(), confidence: -3, model: "m".to_owned() };
    assert_eq!(
        decide(&mut task, negative, 60).unwrap_err(),
        "confidence -3 is outside 0..100; state it as a whole-number percentage"
    );
    let blank = Question { question: "  ".to_owned(), options: vec![], pick: "yes".to_owned(), confidence: 70, model: "m".to_owned() };
    assert_eq!(decide(&mut task, blank, 60).unwrap_err(), "the question is empty; state the call you are unsure of");
    assert_eq!(task.decisions.len(), 1);
    let mut open = Task::default();
    let early = Question { question: "q".to_owned(), options: vec![], pick: "yes".to_owned(), confidence: 70, model: "m".to_owned() };
    assert_eq!(decide(&mut open, early, 60).unwrap_err(), "task \"\" is OPEN; a decision is recorded once the task is accepted");
}

#[test]
fn an_asked_question_is_picked_once_against_the_higher_floor() {
    let mut task = accepted_task();
    let orchestrator = vec!["opus".to_owned()];
    let worker = ask(
        &mut task,
        Ask { question: "retry?".to_owned(), options: vec![], floor: None, model: "small".to_owned() },
        70,
        &orchestrator,
    );
    assert!(worker.unwrap_err().starts_with("model \"small\" is not in role::orchestrator's permitted list: opus"));
    let low = ask(
        &mut task,
        Ask { question: "retry?".to_owned(), options: vec![], floor: Some(50), model: "opus".to_owned() },
        70,
        &orchestrator,
    );
    assert_eq!(
        low.unwrap_err(),
        "floor 50% is below role::worker's floor of 70%; a question can raise the floor its pick is measured against, never lower it"
    );
    let asked = ask(
        &mut task,
        Ask { question: "retry?".to_owned(), options: vec![], floor: Some(90), model: "opus".to_owned() },
        70,
        &orchestrator,
    )
    .unwrap();
    assert_eq!(asked.id, "q1");
    assert_eq!(asked.floor, 90);
    assert_eq!(task.unpicked().len(), 1);
    let picked = pick(&mut task, Pick { on: "q1".to_owned(), pick: "yes".to_owned(), confidence: 80, model: "small".to_owned() }, 70).unwrap();
    assert_eq!(picked.floor, 90);
    assert!(picked.below_floor);
    assert_eq!(picked.on.as_deref(), Some("q1"));
    assert_eq!(task.state, "blocked");
    assert_eq!(task.unpicked().len(), 0);
    let again = pick(&mut task, Pick { on: "q1".to_owned(), pick: "no".to_owned(), confidence: 95, model: "small".to_owned() }, 70);
    assert!(again.is_err());
    let unknown = pick(&mut task, Pick { on: "q9".to_owned(), pick: "no".to_owned(), confidence: 95, model: "small".to_owned() }, 70);
    assert_eq!(
        unknown.unwrap_err(),
        "task \"work\" records no question \"q9\"; blabla task show work lists the questions the orchestrator asked"
    );
}

#[test]
fn the_carrier_cannot_confirm_records_from_its_own_carry() {
    let mut task = accepted_task();
    assert_eq!(carrier(&task), Some("small"));
    attest(&mut task, "scope", Some("opus"), 5);
    assert!(task.orchestrator_records[0].during_carry());
    assert!(task.orchestrator_records[0].unconfirmed());
    assert!(confirm(&mut task, "opus", 6).unwrap_err().starts_with("task \"work\" is carried by small"));
    task.state = "ready".to_owned();
    assert_eq!(carrier(&task), None);
    assert_eq!(confirm(&mut task, "opus", 7), Ok(1));
    assert!(!task.orchestrator_records[0].unconfirmed());
    assert_eq!(confirm(&mut task, "opus", 8), Ok(0));
    let bare = OrchestratorRecord { verb: "scope".to_owned(), model: None, unix: 4, carried_by: None, confirmed: None };
    assert!(!bare.during_carry());
    assert!(!bare.unconfirmed());
}

#[test]
fn scope_entries_cover_themselves_and_what_lies_under_them() {
    assert!(covers("src", "src"));
    assert!(covers("src/", "src/a.rs"));
    assert!(covers("src//", "src"));
    assert!(!covers("src", "srcs/a.rs"));
    assert!(!covers("src/a", "src"));
}

#[test]
fn the_digest_of_a_directory_covers_the_files_under_it() {
    let now = tree(&[("src/a.rs", "1"), ("src/b.rs", "2"), ("top.md", "3")]);
    assert_eq!(observed_digest(&now, "top.md").as_deref(), Some("3"));
    assert_eq!(observed_digest(&now, "docs"), None);
    let whole = observed_digest(&now, "src").unwrap();
    assert_eq!(whole.len(), 16);
    let moved = tree(&[("src/a.rs", "1"), ("src/b.rs", "9"), ("top.md", "3")]);
    assert_ne!(observed_digest(&moved, "src").unwrap(), whole);
}

#[test]
fn changes_since_opening_are_listed_in_order() {
    let mut task = Task::default();
    task.opened_tree = tree(&[("a", "1"), ("b", "2"), ("c", "3")]);
    let now = tree(&[("b", "2"), ("c", "4"), ("d", "5")]);
    assert_eq!(changed(&task, &now), vec!["a", "c", "d"]);
}

#[test]
fn evidence_is_stale_once_an_input_moves() {
    let mut task = accepted_task();
    task.check = Some("check".to_owned());
    task.deliverables.push(Deliverable { path: "src/a.rs".to_owned(), opened_digest: None });
    let now = tree(&[("src/a.rs", "1")]);
    let inputs = evidence_inputs(&task, &now);
    assert_eq!(inputs.len(), 2);
    let evidence = Evidence {
        check: "check".to_owned(),
        exit: 0,
        tree: String::new(),
        tool: "cargo".to_owned(),
        unix: 3,
        inputs,
        command: None,
        log: None,
    };
    assert!(!stale(&evidence, &now));
    task.evidence.push(evidence);
    assert!(readiness(&task, &now).supported);
    let later = tree(&[("src/a.rs", "2")]);
    assert!(stale(&task.evidence[0], &later));
    assert!(!readiness(&task, &later).supported);
}
