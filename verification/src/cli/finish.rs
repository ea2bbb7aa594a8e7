use vstd::prelude::*;
use crate::diagnostic::Diagnostic;
use crate::project::runstate::Classification;
use crate::project::status::{FINISH_COMMAND, OverallStatus, OverallView, RunStateView};
use crate::text::{append, decimal, decimal_text, joined};

verus! {

/// Where the finish gate stands: before anything is known, resolving the launch command,
/// reading the run state, recording that a run has started, running the canonical
/// verification, clearing the run state with the verification's outcome in hand, or done.
pub enum FinishState {
    Start,
    Launching { seed: u64 },
    Checking { seed: u64 },
    Marking,
    Verifying,
    Clearing { outcome: Result<OverallView, i32> },
    Done,
}

/// What the finish gate learns from the outside: what the project declares (an active behavior
/// or structure contract, and the seed of its canonical profile, if it has one), whether its
/// launch command resolved, the run state, that the run-state marker was written or removed
/// (whether or not that succeeded), and the overall status of the verification, or the exit
/// code of its failure.
pub enum FinishEvent {
    Inspected { has_behavior: bool, has_structure: bool, seed: Option<u64> },
    Launch(Result<(), Diagnostic>),
    RunState(Option<RunStateView>),
    MarkerWritten,
    Verified(Result<OverallView, i32>),
    MarkerRemoved,
}

/// What the finish gate asks of the outside: refuse with a contract error (exit 2), show the
/// structure-only status, resolve the launch command, read the run state, write the run-state
/// marker, run the verification, remove the marker, report with an exit code, or nothing.
pub enum FinishAction {
    Block { code: &'static str, message: String, seed: Option<u64> },
    BlockWith { diagnostic: Diagnostic, seed: Option<u64> },
    ShowStructure,
    ResolveLaunch,
    ReadRunState,
    WriteMarker,
    Verify,
    RemoveMarker,
    Report { exit: i32 },
    Fail { exit: i32 },
    Ignore,
}

/// The exit code of a refusal by the finish gate.
pub const BLOCKED_EXIT: i32 = 2;

pub const NO_CONTRACTS_MESSAGE: &'static str = "project has no active contracts; change `draft behavior` to `use behavior` (or `draft structure` to `use structure`) in project.bla to make a contract authoritative";

pub const NO_PROFILE_MESSAGE: &'static str = "project.bla has no canonical verification profile; add `verify behavior { command [\"program\", \"argument\", ...] steps <n> ... }` so blabla finish can run it";

/// Why a new run may not start while another is under way.
pub open spec fn running_message(started_at: Seq<char>, pid: u32) -> Seq<char> {
    "another "@ + FINISH_COMMAND@ + " is running (started at "@ + started_at + ", pid "@ + decimal(pid as nat)
        + "); wait for it or stop that process before starting a new verification"@
}

/// Whether `action` refuses with `code`, `message` and `seed`.
pub open spec fn blocks(action: FinishAction, code: Seq<char>, message: Seq<char>, seed: Option<u64>) -> bool {
    action matches FinishAction::Block { code: c, message: m, seed: s } && c@ == code && m@ == message && s == seed
}

/// One step of the finish gate, as a relation between the state and event it starts from and
/// the state and action it leads to.
pub open spec fn finish_spec(state: FinishState, event: FinishEvent, next: FinishState, action: FinishAction) -> bool {
    match (state, event) {
        (FinishState::Start, FinishEvent::Inspected { has_behavior, has_structure, seed }) => {
            if !has_behavior && !has_structure {
                next is Done && blocks(action, "E_NO_CONTRACTS"@, NO_CONTRACTS_MESSAGE@, None)
            } else if !has_behavior {
                next is Done && action is ShowStructure
            } else {
                match seed {
                    None => next is Done && blocks(action, "E_NO_VERIFY_PROFILE"@, NO_PROFILE_MESSAGE@, None),
                    Some(n) => next == (FinishState::Launching { seed: n }) && action is ResolveLaunch,
                }
            }
        },
        (FinishState::Launching { seed }, FinishEvent::Launch(r)) => match r {
            Ok(_) => next == (FinishState::Checking { seed }) && action is ReadRunState,
            Err(d) => next is Done && action == (FinishAction::BlockWith { diagnostic: d, seed: Some(seed) }),
        },
        (FinishState::Checking { seed }, FinishEvent::RunState(run)) => match run {
            Some(r) => if r.classification == Classification::Verifying {
                next is Done && blocks(action, "E_FINISH_RUNNING"@, running_message(r.started_at@, r.pid), Some(seed))
            } else {
                next is Marking && action is WriteMarker
            },
            None => next is Marking && action is WriteMarker,
        },
        (FinishState::Marking, FinishEvent::MarkerWritten) => next is Verifying && action is Verify,
        (FinishState::Verifying, FinishEvent::Verified(outcome)) => next == (FinishState::Clearing { outcome })
            && action is RemoveMarker,
        (FinishState::Clearing { outcome }, FinishEvent::MarkerRemoved) => next is Done && match outcome {
            Ok(o) => action == (FinishAction::Report { exit: o.exit }),
            Err(exit) => action == (FinishAction::Fail { exit }),
        },
        (s, _) => next == s && action is Ignore,
    }
}

/// One step of the finish gate: from where it stands and what it learned, where it goes and
/// what it asks for. No verification starts without a canonical profile or while another run
/// is under way; the report carries the exit code of the overall status.
pub fn finish_step(state: FinishState, event: FinishEvent) -> (r: (FinishState, FinishAction))
    ensures
        finish_spec(state, event, r.0, r.1),
{
    match (state, event) {
        (FinishState::Start, FinishEvent::Inspected { has_behavior, has_structure, seed }) => {
            if !has_behavior && !has_structure {
                (
                    FinishState::Done,
                    FinishAction::Block { code: "E_NO_CONTRACTS", message: NO_CONTRACTS_MESSAGE.to_owned(), seed: None },
                )
            } else if !has_behavior {
                (FinishState::Done, FinishAction::ShowStructure)
            } else {
                match seed {
                    None => (
                        FinishState::Done,
                        FinishAction::Block {
                            code: "E_NO_VERIFY_PROFILE",
                            message: NO_PROFILE_MESSAGE.to_owned(),
                            seed: None,
                        },
                    ),
                    Some(n) => (FinishState::Launching { seed: n }, FinishAction::ResolveLaunch),
                }
            }
        },
        (FinishState::Launching { seed }, FinishEvent::Launch(r)) => match r {
            Ok(()) => (FinishState::Checking { seed }, FinishAction::ReadRunState),
            Err(d) => (FinishState::Done, FinishAction::BlockWith { diagnostic: d, seed: Some(seed) }),
        },
        (FinishState::Checking { seed }, FinishEvent::RunState(run)) => match run {
            Some(r) => {
                if r.classification == Classification::Verifying {
                    let mut m = joined("another ", FINISH_COMMAND);
                    append(&mut m, " is running (started at ");
                    append(&mut m, r.started_at.as_str());
                    append(&mut m, ", pid ");
                    append(&mut m, decimal_text(r.pid as u64).as_str());
                    append(&mut m, "); wait for it or stop that process before starting a new verification");
                    (FinishState::Done, FinishAction::Block { code: "E_FINISH_RUNNING", message: m, seed: Some(seed) })
                } else {
                    (FinishState::Marking, FinishAction::WriteMarker)
                }
            },
            None => (FinishState::Marking, FinishAction::WriteMarker),
        },
        (FinishState::Marking, FinishEvent::MarkerWritten) => (FinishState::Verifying, FinishAction::Verify),
        (FinishState::Verifying, FinishEvent::Verified(outcome)) => (
            FinishState::Clearing { outcome },
            FinishAction::RemoveMarker,
        ),
        (FinishState::Clearing { outcome }, FinishEvent::MarkerRemoved) => match outcome {
            Ok(o) => (FinishState::Done, FinishAction::Report { exit: o.exit }),
            Err(exit) => (FinishState::Done, FinishAction::Fail { exit }),
        },
        (s, _) => (s, FinishAction::Ignore),
    }
}

/// The finish gate reports exit 0 only for an overall GREEN status: where the status it
/// was handed exits 0 exactly when it is GREEN, so does the report; and no verification is
/// asked for from a project without a canonical profile.
pub proof fn law_finish_exits_zero_only_on_overall_green(
    outcome: Result<OverallView, i32>,
    next: FinishState,
    action: FinishAction,
)
    requires
        finish_spec(FinishState::Clearing { outcome }, FinishEvent::MarkerRemoved, next, action),
        outcome matches Ok(o) ==> ((o.exit == 0) <==> (o.status == OverallStatus::Green)),
    ensures
        action matches FinishAction::Report { exit } ==> (exit == 0 <==> (outcome matches Ok(o) && o.status
            == OverallStatus::Green)),
        outcome is Err ==> action is Fail,
{
}

/// A project whose behavior contract has no canonical profile is refused before anything runs.
pub proof fn law_no_profile_no_run(has_structure: bool, next: FinishState, action: FinishAction)
    requires
        finish_spec(
            FinishState::Start,
            FinishEvent::Inspected { has_behavior: true, has_structure, seed: None },
            next,
            action,
        ),
    ensures
        next is Done,
        blocks(action, "E_NO_VERIFY_PROFILE"@, NO_PROFILE_MESSAGE@, None),
{
}

} // verus!
