use blabla::cli::finish::{FinishAction, FinishEvent, FinishState, finish_step};
use blabla::diagnostic::{Diagnostic, Span};
use blabla::project::runstate::Classification;
use blabla::project::status::{OverallStatus, OverallView, RunStateView};

fn run_state(classification: Classification) -> RunStateView {
    RunStateView {
        classification,
        run_id: "0123".to_owned(),
        pid: 4242,
        started_at: "2000-02-29T00:00:00Z".to_owned(),
    }
}

fn overall(status: OverallStatus, exit: i32) -> OverallView {
    OverallView { status, reason: "canonical verification is GREEN".to_owned(), exit }
}

/// The last action of a full run of the finish steps, given the outcome of the checks.
fn through(status: Result<OverallView, i32>) -> FinishAction {
    let (s, a) = finish_step(
        FinishState::Start,
        FinishEvent::Inspected { has_behavior: true, has_structure: false, seed: Some(7) },
    );
    assert!(matches!(a, FinishAction::ResolveLaunch));
    let (s, a) = finish_step(s, FinishEvent::Launch(Ok(())));
    assert!(matches!(a, FinishAction::ReadRunState));
    let (s, a) = finish_step(s, FinishEvent::RunState(Some(run_state(Classification::Interrupted))));
    assert!(matches!(a, FinishAction::WriteMarker));
    let (s, a) = finish_step(s, FinishEvent::MarkerWritten);
    assert!(matches!(a, FinishAction::Verify));
    let (s, a) = finish_step(s, FinishEvent::Verified(status));
    assert!(matches!(a, FinishAction::RemoveMarker));
    let (s, a) = finish_step(s, FinishEvent::MarkerRemoved);
    assert!(matches!(s, FinishState::Done));
    a
}

#[test]
fn finish_refuses_a_project_without_contracts() {
    let (s, a) = finish_step(
        FinishState::Start,
        FinishEvent::Inspected { has_behavior: false, has_structure: false, seed: None },
    );
    assert!(matches!(s, FinishState::Done));
    match a {
        FinishAction::Block { code, message, seed } => {
            assert_eq!(code, "E_NO_CONTRACTS");
            assert!(message.starts_with("project has no active contracts"));
            assert_eq!(seed, None);
        },
        _ => panic!("expected a refusal"),
    }
}

#[test]
fn finish_shows_the_structure_only_status_without_behavior_contracts() {
    let (s, a) = finish_step(
        FinishState::Start,
        FinishEvent::Inspected { has_behavior: false, has_structure: true, seed: Some(7) },
    );
    assert!(matches!(s, FinishState::Done));
    assert!(matches!(a, FinishAction::ShowStructure));
}

#[test]
fn finish_refuses_a_behavior_contract_without_a_profile() {
    let (_, a) = finish_step(
        FinishState::Start,
        FinishEvent::Inspected { has_behavior: true, has_structure: true, seed: None },
    );
    match a {
        FinishAction::Block { code, message, .. } => {
            assert_eq!(code, "E_NO_VERIFY_PROFILE");
            assert!(message.contains("verify behavior"));
        },
        _ => panic!("expected a refusal"),
    }
}

#[test]
fn finish_refuses_while_another_run_is_under_way() {
    let (s, _) = finish_step(FinishState::Launching { seed: 7 }, FinishEvent::Launch(Ok(())));
    let (s, a) = finish_step(s, FinishEvent::RunState(Some(run_state(Classification::Verifying))));
    assert!(matches!(s, FinishState::Done));
    match a {
        FinishAction::Block { code, message, seed } => {
            assert_eq!(code, "E_FINISH_RUNNING");
            assert_eq!(
                message,
                "another blabla finish is running (started at 2000-02-29T00:00:00Z, pid 4242); wait for it or stop that process before starting a new verification"
            );
            assert_eq!(seed, Some(7));
        },
        _ => panic!("expected a refusal"),
    }
}

#[test]
fn finish_passes_on_a_launch_failure_with_its_seed() {
    let d = Diagnostic::new(
        "project.bla",
        Span { start: 0, end: 1, line: 4, column: 5 },
        "E_COMMAND_NOT_FOUND",
        "no such program".to_owned(),
    );
    let (s, a) = finish_step(FinishState::Launching { seed: 9 }, FinishEvent::Launch(Err(d)));
    assert!(matches!(s, FinishState::Done));
    match a {
        FinishAction::BlockWith { diagnostic, seed } => {
            assert_eq!(diagnostic.code, "E_COMMAND_NOT_FOUND");
            assert_eq!(seed, Some(9));
        },
        _ => panic!("expected a refusal"),
    }
}

#[test]
fn finish_exits_zero_only_for_an_overall_green_status() {
    assert!(matches!(through(Ok(overall(OverallStatus::Green, 0))), FinishAction::Report { exit: 0 }));
    assert!(matches!(through(Ok(overall(OverallStatus::Blocked, 5))), FinishAction::Report { exit: 5 }));
    assert!(matches!(through(Ok(overall(OverallStatus::Blocked, 1))), FinishAction::Report { exit: 1 }));
    assert!(matches!(through(Err(3)), FinishAction::Fail { exit: 3 }));
}

#[test]
fn finish_ignores_an_event_out_of_turn() {
    let (s, a) = finish_step(FinishState::Marking, FinishEvent::MarkerRemoved);
    assert!(matches!(s, FinishState::Marking));
    assert!(matches!(a, FinishAction::Ignore));
}
