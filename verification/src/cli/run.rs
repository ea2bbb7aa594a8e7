use vstd::prelude::*;
use crate::cli::project::lemma_grow;
use crate::project::strings_view;
use crate::report::{Call, CoverageObligation, CoverageStatus, Failure, RunReport, RunStatus, ShrinkStatus};
use crate::text::{append, decimal, decimal_text, join, join_strings};

verus! {

/// How a call reads in a sequence: its number, the action and its arguments.
pub open spec fn call_line(index: nat, call: Call) -> Seq<char> {
    "  "@ + decimal(index + 1) + ". "@ + call.action@ + "("@ + join(strings_view(call.args@), ", "@) + ")\n"@
}

/// The calls `calls[from..]` of a sequence, one to a line, numbered from one.
pub open spec fn calls_from(calls: Seq<Call>, n: int) -> Seq<char>
    decreases n,
{
    if n <= 0 || n > calls.len() {
        Seq::empty()
    } else {
        calls_from(calls, n - 1) + call_line((n - 1) as nat, calls[n - 1])
    }
}

/// A sequence of calls as a run prints it; an empty one is the initial state.
pub open spec fn calls_text(calls: Seq<Call>) -> Seq<char> {
    if calls.len() == 0 {
        "  (initial state; no actions)\n"@
    } else {
        calls_from(calls, calls.len() as int)
    }
}

/// Appends a sequence of calls as a run prints it.
pub fn write_calls(out: &mut String, calls: &Vec<Call>)
    ensures
        final(out)@ == old(out)@ + calls_text(calls@),
{
    let ghost start = out@;
    if calls.len() == 0 {
        append(out, "  (initial state; no actions)\n");
        return;
    }
    let mut i: usize = 0;
    assert(out@ =~= start + calls_from(calls@, 0));
    while i < calls.len()
        invariant
            i <= calls.len(),
            calls@.len() > 0,
            out@ == start + calls_from(calls@, i as int),
        decreases calls.len() - i,
    {
        let call = &calls[i];
        append(out, "  ");
        append(out, decimal_text((i as u64) + 1).as_str());
        append(out, ". ");
        append(out, call.action.as_str());
        append(out, "(");
        append(out, join_strings(&call.args, ", ").as_str());
        append(out, ")\n");
        assert(out@ =~= start + calls_from(calls@, i + 1));
        i += 1;
    }
}

/// A run's status word.
pub open spec fn status_word(s: RunStatus) -> Seq<char> {
    match s {
        RunStatus::Green => "GREEN"@,
        RunStatus::Yellow => "YELLOW"@,
        RunStatus::Red => "RED"@,
    }
}

fn status_text(s: RunStatus) -> (w: &'static str)
    ensures
        w@ == status_word(s),
{
    match s {
        RunStatus::Green => "GREEN",
        RunStatus::Yellow => "YELLOW",
        RunStatus::Red => "RED",
    }
}

/// How a shrink status is written as JSON: its snake-case name, quoted.
pub open spec fn shrink_json(s: ShrinkStatus) -> Seq<char> {
    match s {
        ShrinkStatus::FixedPoint => "\"fixed_point\""@,
        ShrinkStatus::BudgetExhausted => "\"budget_exhausted\""@,
        ShrinkStatus::Interrupted => "\"interrupted\""@,
    }
}

fn shrink_json_text(s: ShrinkStatus) -> (w: &'static str)
    ensures
        w@ == shrink_json(s),
{
    match s {
        ShrinkStatus::FixedPoint => "\"fixed_point\"",
        ShrinkStatus::BudgetExhausted => "\"budget_exhausted\"",
        ShrinkStatus::Interrupted => "\"interrupted\"",
    }
}

/// Whether a report's obligation counts can be added up.
pub open spec fn countable(r: RunReport) -> bool {
    r.coverage_summary.verified + r.coverage_summary.unexercised + r.coverage_summary.violated <= usize::MAX
}

/// The status and coverage lines of a run.
pub open spec fn behavior_part(r: RunReport) -> Seq<char> {
    let c = r.coverage_summary;
    "BlaBla\n\nBEHAVIOR  "@ + decimal(c.verified as nat) + "/"@ + decimal((c.verified + c.unexercised + c.violated) as nat)
        + "  "@ + status_word(r.status) + "\n"@ + "\nCoverage:\n  GREEN   "@ + decimal(c.verified as nat)
        + "\n  YELLOW  "@ + decimal(c.unexercised as nat) + "\n  RED     "@ + decimal(c.violated as nat) + "\n"@
}

/// The budget, seed and amount checked of a run.
pub open spec fn budget_part(r: RunReport) -> Seq<char> {
    "\nActions: "@ + decimal(r.steps_executed as nat) + " / "@ + decimal(r.metrics.action_budget as nat)
        + " budget\n"@ + "seed: "@ + decimal(r.seed as nat) + "\n"@ + "cases checked: "@ + decimal(
        r.cases_executed as nat,
    ) + " / "@ + decimal(r.cases as nat) + "\n"@ + "actions checked: "@ + decimal(r.steps_executed as nat) + "\n"@
}

/// The head of a run: its status, coverage, budget, seed and how much it checked.
pub open spec fn run_head(r: RunReport) -> Seq<char> {
    behavior_part(r) + budget_part(r)
}

fn write_behavior(out: &mut String, r: &RunReport)
    requires
        countable(*r),
    ensures
        final(out)@ == old(out)@ + behavior_part(*r),
{
    let ghost start = out@;
    let c = &r.coverage_summary;
    let total = c.verified + c.unexercised + c.violated;
    append(out, "BlaBla\n\nBEHAVIOR  ");
    append(out, decimal_text(c.verified as u64).as_str());
    append(out, "/");
    append(out, decimal_text(total as u64).as_str());
    append(out, "  ");
    append(out, status_text(r.status));
    append(out, "\n");
    append(out, "\nCoverage:\n  GREEN   ");
    append(out, decimal_text(c.verified as u64).as_str());
    append(out, "\n  YELLOW  ");
    append(out, decimal_text(c.unexercised as u64).as_str());
    append(out, "\n  RED     ");
    append(out, decimal_text(c.violated as u64).as_str());
    append(out, "\n");
    assert(out@ =~= start + behavior_part(*r));
}

fn write_budget(out: &mut String, r: &RunReport)
    ensures
        final(out)@ == old(out)@ + budget_part(*r),
{
    let ghost start = out@;
    append(out, "\nActions: ");
    append(out, decimal_text(r.steps_executed as u64).as_str());
    append(out, " / ");
    append(out, decimal_text(r.metrics.action_budget as u64).as_str());
    append(out, " budget\n");
    append(out, "seed: ");
    append(out, decimal_text(r.seed).as_str());
    append(out, "\n");
    append(out, "cases checked: ");
    append(out, decimal_text(r.cases_executed as u64).as_str());
    append(out, " / ");
    append(out, decimal_text(r.cases as u64).as_str());
    append(out, "\n");
    append(out, "actions checked: ");
    append(out, decimal_text(r.steps_executed as u64).as_str());
    append(out, "\n");
    assert(out@ =~= start + budget_part(*r));
}

fn write_run_head(out: &mut String, r: &RunReport)
    requires
        countable(*r),
    ensures
        final(out)@ == old(out)@ + run_head(*r),
{
    let ghost start = out@;
    write_behavior(out, r);
    write_budget(out, r);
    proof {
        lemma_grow(start, behavior_part(*r), budget_part(*r));
    }
}

/// What a run prints of the values it compared: expected and actual, or the predicate's
/// truth when there are none.
pub open spec fn compared_part(f: Failure) -> Seq<char> {
    match (f.expected, f.actual) {
        (Some(e), Some(a)) => "expected: "@ + e@ + "\n"@ + "actual: "@ + a@ + "\n"@,
        _ => "expected predicate: true\nactual predicate: false\n"@,
    }
}

/// What a run prints of a violation, before the details that only `verbose` shows.
pub open spec fn failure_head(f: Failure) -> Seq<char> {
    "\n"@ + f.property@ + " violated\n"@ + "\n"@ + (if f.shrink.status == ShrinkStatus::FixedPoint {
        "minimal"@
    } else {
        "reduced"@
    }) + " sequence:\n"@ + calls_text(f.sequence@) + "\npredicate: "@ + f.predicate@ + "\n"@
}

/// What a run prints of the lengths and the reduction of a violation's sequence.
pub open spec fn reduction_part(f: Failure) -> Seq<char> {
    "\noriginal sequence length: "@ + decimal(f.original_sequence_length as nat) + "\n"@
        + "minimal sequence length: "@ + decimal(f.minimal_sequence_length as nat) + "\n"@
        + "counterexample reduction: "@ + shrink_json(f.shrink.status) + "\n"@ + match f.shrink.reason {
        Some(reason) => "reduction stopped: "@ + reason@ + "\n"@,
        None => Seq::empty(),
    }
}

/// The details of a violation that only `verbose` shows: where the property is written, the
/// states around the failing action, the replays and the original sequence.
pub open spec fn verbose_part(f: Failure) -> Seq<char> {
    "source: "@ + f.location.file@ + ":"@ + decimal(f.location.line as nat) + ":"@ + decimal(
        f.location.column as nat,
    ) + "\n"@ + "before: "@ + f.before@ + "\n"@ + "input: "@ + f.input@ + "\n"@ + "after: "@ + f.after@ + "\n"@
        + "candidate replays: "@ + decimal(f.shrink.attempts as nat) + "; confirmations: "@ + decimal(
        f.shrink.confirmations as nat,
    ) + "\n"@ + "original sequence:\n"@ + calls_text(f.original_sequence@)
}

/// What a run prints of a violation.
pub open spec fn failure_text(f: Failure, verbose: bool) -> Seq<char> {
    failure_head(f) + compared_part(f) + reduction_part(f) + if verbose {
        verbose_part(f)
    } else {
        Seq::empty()
    }
}

fn write_failure_head(out: &mut String, f: &Failure)
    ensures
        final(out)@ == old(out)@ + failure_head(*f),
{
    let ghost start = out@;
    append(out, "\n");
    append(out, f.property.as_str());
    append(out, " violated\n");
    append(out, "\n");
    let fixed = match f.shrink.status {
        ShrinkStatus::FixedPoint => true,
        _ => false,
    };
    if fixed {
        append(out, "minimal");
    } else {
        append(out, "reduced");
    }
    append(out, " sequence:\n");
    write_calls(out, &f.sequence);
    append(out, "\npredicate: ");
    append(out, f.predicate.as_str());
    append(out, "\n");
    assert(out@ =~= start + failure_head(*f));
}

fn write_reduction(out: &mut String, f: &Failure)
    ensures
        final(out)@ == old(out)@ + reduction_part(*f),
{
    let ghost start = out@;
    append(out, "\noriginal sequence length: ");
    append(out, decimal_text(f.original_sequence_length as u64).as_str());
    append(out, "\n");
    append(out, "minimal sequence length: ");
    append(out, decimal_text(f.minimal_sequence_length as u64).as_str());
    append(out, "\n");
    append(out, "counterexample reduction: ");
    append(out, shrink_json_text(f.shrink.status));
    append(out, "\n");
    match &f.shrink.reason {
        Some(reason) => {
            append(out, "reduction stopped: ");
            append(out, reason.as_str());
            append(out, "\n");
        },
        None => {},
    }
    assert(out@ =~= start + reduction_part(*f));
}

fn write_verbose(out: &mut String, f: &Failure)
    ensures
        final(out)@ == old(out)@ + verbose_part(*f),
{
    let ghost start = out@;
    append(out, "source: ");
    append(out, f.location.file.as_str());
    append(out, ":");
    append(out, decimal_text(f.location.line as u64).as_str());
    append(out, ":");
    append(out, decimal_text(f.location.column as u64).as_str());
    append(out, "\n");
    append(out, "before: ");
    append(out, f.before.as_str());
    append(out, "\n");
    append(out, "input: ");
    append(out, f.input.as_str());
    append(out, "\n");
    append(out, "after: ");
    append(out, f.after.as_str());
    append(out, "\n");
    append(out, "candidate replays: ");
    append(out, decimal_text(f.shrink.attempts as u64).as_str());
    append(out, "; confirmations: ");
    append(out, decimal_text(f.shrink.confirmations as u64).as_str());
    append(out, "\n");
    append(out, "original sequence:\n");
    let ghost before = out@;
    write_calls(out, &f.original_sequence);
    assert(out@ =~= start + verbose_part(*f));
}

fn write_failure(out: &mut String, f: &Failure, verbose: bool)
    ensures
        final(out)@ == old(out)@ + failure_text(*f, verbose),
{
    let ghost start = out@;
    write_failure_head(out, f);
    let ghost mut acc = failure_head(*f);
    let ghost before = out@;
    match (&f.expected, &f.actual) {
        (Some(e), Some(a)) => {
            append(out, "expected: ");
            append(out, e.as_str());
            append(out, "\n");
            append(out, "actual: ");
            append(out, a.as_str());
            append(out, "\n");
        },
        _ => {
            append(out, "expected predicate: true\nactual predicate: false\n");
        },
    }
    assert(out@ =~= before + compared_part(*f));
    proof {
        lemma_grow(start, acc, compared_part(*f));
        acc = acc + compared_part(*f);
    }
    write_reduction(out, f);
    proof {
        lemma_grow(start, acc, reduction_part(*f));
        acc = acc + reduction_part(*f);
    }
    let ghost before = out@;
    if verbose {
        write_verbose(out, f);
    }
    assert(out@ =~= before + if verbose {
        verbose_part(*f)
    } else {
        Seq::empty()
    });
    proof {
        lemma_grow(
            start,
            acc,
            if verbose {
                verbose_part(*f)
            } else {
                Seq::empty()
            },
        );
    }
}

/// How a run prints an obligation it left unexercised.
pub open spec fn unexercised_line(o: CoverageObligation) -> Seq<char> {
    "  "@ + o.id@ + "\n    evaluations: "@ + decimal(o.evaluations as nat) + "; meaningful witnesses: "@ + decimal(
        o.witnesses as nat,
    ) + "\n    Required witness: "@ + o.required_witness@ + "\n"@
}

/// The unexercised obligations among `os`, each as a run prints it.
pub open spec fn unexercised_text(os: Seq<CoverageObligation>) -> Seq<char>
    decreases os.len(),
{
    if os.len() == 0 {
        Seq::empty()
    } else {
        unexercised_text(os.drop_last()) + if os.last().status == CoverageStatus::Unexercised {
            unexercised_line(os.last())
        } else {
            Seq::empty()
        }
    }
}

/// How a run ends: what is left unexercised under which budget, or that nothing drifted.
pub open spec fn run_tail(r: RunReport) -> Seq<char> {
    match r.status {
        RunStatus::Yellow => "\nUnexercised:\n"@ + unexercised_text(r.coverage_summary.coverage@)
            + "\nBehavior is not fully verified under seed "@ + decimal(r.seed as nat) + ", "@ + decimal(
            r.cases as nat,
        ) + " cases x "@ + decimal(r.steps as nat) + " actions. NOT COMPLETE.\n"@,
        RunStatus::Green => "\nNo behavioral drift detected in the recorded campaign. GREEN.\n"@,
        RunStatus::Red => Seq::empty(),
    }
}

fn write_run_tail(out: &mut String, r: &RunReport)
    ensures
        final(out)@ == old(out)@ + run_tail(*r),
{
    let ghost start = out@;
    match r.status {
        RunStatus::Yellow => {
            append(out, "\nUnexercised:\n");
            let ghost head = out@;
            let os = &r.coverage_summary.coverage;
            let mut i: usize = 0;
            assert(head + unexercised_text(os@.take(0)) =~= head);
            while i < os.len()
                invariant
                    i <= os.len(),
                    out@ == head + unexercised_text(os@.take(i as int)),
                decreases os.len() - i,
            {
                let o = &os[i];
                let ghost before = out@;
                match o.status {
                    CoverageStatus::Unexercised => {
                        append(out, "  ");
                        append(out, o.id.as_str());
                        append(out, "\n    evaluations: ");
                        append(out, decimal_text(o.evaluations as u64).as_str());
                        append(out, "; meaningful witnesses: ");
                        append(out, decimal_text(o.witnesses as u64).as_str());
                        append(out, "\n    Required witness: ");
                        append(out, o.required_witness.as_str());
                        append(out, "\n");
                    },
                    _ => {},
                }
                assert(os@.take(i + 1).drop_last() =~= os@.take(i as int));
                assert(out@ =~= head + unexercised_text(os@.take(i + 1)));
                i += 1;
            }
            assert(os@.take(i as int) =~= os@);
            append(out, "\nBehavior is not fully verified under seed ");
            append(out, decimal_text(r.seed).as_str());
            append(out, ", ");
            append(out, decimal_text(r.cases as u64).as_str());
            append(out, " cases x ");
            append(out, decimal_text(r.steps as u64).as_str());
            append(out, " actions. NOT COMPLETE.\n");
        },
        RunStatus::Green => {
            append(out, "\nNo behavioral drift detected in the recorded campaign. GREEN.\n");
        },
        RunStatus::Red => {},
    }
    assert(out@ =~= start + run_tail(*r));
}

/// What a behavior run prints for a reader: the head, the violation if there is one (with
/// its details when `verbose`), and how the run ends.
pub open spec fn run_text(r: RunReport, verbose: bool) -> Seq<char> {
    run_head(r) + failure_part(r, verbose) + run_tail(r)
}

/// What a run prints of its violation, when it found one.
pub open spec fn failure_part(r: RunReport, verbose: bool) -> Seq<char> {
    match r.failure {
        Some(f) => failure_text(f, verbose),
        None => Seq::empty(),
    }
}

/// Appends what a behavior run prints for a reader.
pub fn write_human_run(out: &mut String, report: &RunReport, verbose: bool)
    requires
        countable(*report),
    ensures
        final(out)@ == old(out)@ + run_text(*report, verbose),
{
    let ghost start = out@;
    write_run_head(out, report);
    let ghost mut acc = run_head(*report);
    let ghost before = out@;
    match &report.failure {
        Some(f) => write_failure(out, f, verbose),
        None => {},
    }
    let ghost piece = failure_part(*report, verbose);
    assert(out@ =~= before + piece);
    proof {
        lemma_grow(start, acc, piece);
        acc = acc + piece;
    }
    write_run_tail(out, report);
    proof {
        lemma_grow(start, acc, run_tail(*report));
    }
}

} // verus!
