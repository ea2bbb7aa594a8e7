use vstd::prelude::*;
use crate::cli::project::{indented, lemma_grow, write_indented};
use crate::project::strings_view;
use crate::project::ignore::{Ignore, ignored_by};
use crate::project::task::{Finding, Resolution, SCRATCH_DIRECTORY, Task, unresolved_count};
use crate::text::{debug_quoted, quoted, starts_with};
use crate::text::{append, ascii_upper, decimal, decimal_text, join, join_strings, str_eq, to_ascii_upper};

verus! {

/// A task's state as a label: its name in capitals.
pub fn state_label(task: &Task) -> (s: String)
    ensures
        s@ == ascii_upper(task.state@),
{
    to_ascii_upper(task.state.as_str())
}

/// `values` two spaces apart, or `empty` when there are none.
pub open spec fn join_or_spec(values: Seq<Seq<char>>, empty: Seq<char>) -> Seq<char> {
    if values.len() == 0 {
        empty
    } else {
        join(values, "  "@)
    }
}

/// `values` two spaces apart, or `empty` when there are none.
pub fn join_or(values: &Vec<String>, empty: &str) -> (s: String)
    ensures
        s@ == join_or_spec(strings_view(values@), empty@),
{
    if values.len() == 0 {
        empty.to_owned()
    } else {
        join_strings(values, "  ")
    }
}

/// What a summary of the resolved assignment prints.
pub open spec fn resolution_text(r: Resolution) -> Seq<char> {
    "Resolved for this assignment:\n"@ + "  models permitted   "@ + join_or_spec(
        strings_view(r.models@),
        "none declared by the role"@,
    ) + "\n"@ + "  lenses consulted   "@ + join_or_spec(strings_view(r.lenses@), "none"@) + "\n"@
        + "  verification tier  "@ + r.verification@ + "\n"@ + "  contracts in scope "@ + join_or_spec(
        strings_view(r.requirements@),
        "none touch this scope"@,
    ) + "\n"@ + "  blabla explain role::<name>   the authority behind these; this view is a summary\n"@
}

/// Appends the summary of what the assignment resolved to.
pub fn write_resolution(out: &mut String, resolution: &Resolution)
    ensures
        final(out)@ == old(out)@ + resolution_text(*resolution),
{
    let ghost start = out@;
    append(out, "Resolved for this assignment:\n");
    append(out, "  models permitted   ");
    append(out, join_or(&resolution.models, "none declared by the role").as_str());
    append(out, "\n");
    append(out, "  lenses consulted   ");
    append(out, join_or(&resolution.lenses, "none").as_str());
    append(out, "\n");
    append(out, "  verification tier  ");
    append(out, resolution.verification.as_str());
    append(out, "\n");
    append(out, "  contracts in scope ");
    append(out, join_or(&resolution.requirements, "none touch this scope").as_str());
    append(out, "\n");
    append(out, "  blabla explain role::<name>   the authority behind these; this view is a summary\n");
    assert(out@ =~= start + resolution_text(*resolution));
}

/// What a refused hand-back tells the carrier to do first, for the step `next` it owes.
pub open spec fn guidance(name: Seq<char>, has_argv: bool, next: Seq<char>) -> Seq<char> {
    if next == "accept"@ {
        "accept or resume it with blabla task accept "@ + name + " --model <id>"@
    } else if next == "declare-check"@ {
        "ask the orchestrator to declare its check with blabla task check "@ + name + " \"<command>\""@
    } else if next == "record-evidence"@ && has_argv {
        "run its declared check with blabla task evidence "@ + name
            + " --run, which records the exit code BlaBla observes"@
    } else if next == "record-evidence"@ {
        "run its declared check, then record the actual result with blabla task evidence "@ + name
            + " --exit <code> --tool <label>"@
    } else if next == "challenge"@ || next == "resolve-challenge"@ {
        "run blabla challenge "@ + name + ", reconcile assignment blockers, then retry the hand-back"@
    } else if next == "review"@ {
        "it is already READY; review and result acceptance belong to the orchestrator"@
    } else if next == "closed"@ {
        "it is CLOSED; open a new assignment for new work"@
    } else {
        "the task record has an invalid state"@
    }
}

/// What a refused hand-back tells the carrier to do first.
pub fn handback_guidance(task: &Task, next: &str) -> (s: String)
    ensures
        s@ == guidance(task.name@, task.check_argv is Some, next@),
{
    let name = task.name.as_str();
    if str_eq(next, "accept") {
        let mut s = "accept or resume it with blabla task accept ".to_owned();
        append(&mut s, name);
        append(&mut s, " --model <id>");
        s
    } else if str_eq(next, "declare-check") {
        let mut s = "ask the orchestrator to declare its check with blabla task check ".to_owned();
        append(&mut s, name);
        append(&mut s, " \"<command>\"");
        s
    } else if str_eq(next, "record-evidence") && task.check_argv.is_some() {
        let mut s = "run its declared check with blabla task evidence ".to_owned();
        append(&mut s, name);
        append(&mut s, " --run, which records the exit code BlaBla observes");
        s
    } else if str_eq(next, "record-evidence") {
        let mut s = "run its declared check, then record the actual result with blabla task evidence ".to_owned();
        append(&mut s, name);
        append(&mut s, " --exit <code> --tool <label>");
        s
    } else if str_eq(next, "challenge") || str_eq(next, "resolve-challenge") {
        let mut s = "run blabla challenge ".to_owned();
        append(&mut s, name);
        append(&mut s, ", reconcile assignment blockers, then retry the hand-back");
        s
    } else if str_eq(next, "review") {
        "it is already READY; review and result acceptance belong to the orchestrator".to_owned()
    } else if str_eq(next, "closed") {
        "it is CLOSED; open a new assignment for new work".to_owned()
    } else {
        "the task record has an invalid state".to_owned()
    }
}

// ---------------------------------------------------------------------------------------
// Routes: the commands a task's carrier is offered, and in which states.
// ---------------------------------------------------------------------------------------

/// The routes, in the order a task lists them.
pub open spec fn routes_spec() -> Seq<Seq<char>> {
    seq![
        "accept"@,
        "check"@,
        "blocker"@,
        "note"@,
        "finding"@,
        "addressed"@,
        "lens"@,
        "challenge"@,
        "hand-back"@,
    ]
}

/// The routes, in the order a task lists them.
pub fn routes() -> (r: Vec<&'static str>)
    ensures
        r@.map_values(|s: &'static str| s@) == routes_spec(),
{
    let r = vec![
        "accept",
        "check",
        "blocker",
        "note",
        "finding",
        "addressed",
        "lens",
        "challenge",
        "hand-back",
    ];
    assert(r@.map_values(|s: &'static str| s@) =~= routes_spec());
    r
}

/// The states in which a route is offered.
pub open spec fn route_states(route: Seq<char>) -> Seq<Seq<char>> {
    if route == "accept"@ {
        seq!["open"@, "blocked"@, "ready"@]
    } else if route == "check"@ || route == "blocker"@ || route == "note"@ || route == "addressed"@ || route
        == "hand-back"@ {
        seq!["open"@, "accepted"@, "blocked"@]
    } else if route == "finding"@ || route == "challenge"@ {
        seq!["open"@, "accepted"@, "blocked"@, "ready"@]
    } else if route == "lens"@ {
        seq!["accepted"@]
    } else {
        Seq::empty()
    }
}

/// The states in which a route is offered.
pub fn route_states_of(route: &str) -> (r: Vec<&'static str>)
    ensures
        r@.map_values(|s: &'static str| s@) == route_states(route@),
{
    let r = if str_eq(route, "accept") {
        vec!["open", "blocked", "ready"]
    } else if str_eq(route, "check") || str_eq(route, "blocker") || str_eq(route, "note") || str_eq(
        route,
        "addressed",
    ) || str_eq(route, "hand-back") {
        vec!["open", "accepted", "blocked"]
    } else if str_eq(route, "finding") || str_eq(route, "challenge") {
        vec!["open", "accepted", "blocked", "ready"]
    } else if str_eq(route, "lens") {
        vec!["accepted"]
    } else {
        Vec::new()
    };
    assert(r@.map_values(|s: &'static str| s@) =~= route_states(route@));
    r
}

fn holds_state(states: &Vec<&'static str>, state: &str) -> (b: bool)
    ensures
        b == states@.map_values(|s: &'static str| s@).contains(state@),
{
    let ghost views = states@.map_values(|s: &'static str| s@);
    let mut i: usize = 0;
    while i < states.len()
        invariant
            i <= states.len(),
            views == states@.map_values(|s: &'static str| s@),
            forall|j: int| 0 <= j < i ==> views[j] != state@,
        decreases states.len() - i,
    {
        if str_eq(states[i], state) {
            assert(views[i as int] == state@);
            return true;
        }
        i += 1;
    }
    false
}

/// The lines that show how a task's check is run and its result recorded. A check declared
/// as a program is run by BlaBla; a check declared as a command line is recorded by hand.
pub open spec fn check_lines(name: Seq<char>, check: Option<Seq<char>>, argv: Option<Seq<Seq<char>>>) -> Seq<
    Seq<char>,
> {
    match argv {
        Some(a) => seq![
            "\nDeclared check:\n  "@ + join(a, " "@),
            "  blabla task evidence "@ + name
                + " --run   BlaBla runs exactly that program and records the exit code it observed"@,
        ],
        None => match check {
            Some(c) => seq![
                "\nDeclared check:\n  "@ + c,
                "  blabla task evidence "@ + name
                    + " --exit <code> --tool <tool>   record what the whole run reported; when "@ + c
                    + " exits 0 that is --exit 0 --tool check"@,
            ],
            None => Seq::empty(),
        },
    }
}

pub open spec fn opt_view(o: Option<String>) -> Option<Seq<char>> {
    match o {
        Some(s) => Some(s@),
        None => None,
    }
}

pub open spec fn opt_strings(o: Option<Vec<String>>) -> Option<Seq<Seq<char>>> {
    match o {
        Some(v) => Some(strings_view(v@)),
        None => None,
    }
}

fn check_lines_of(name: &str, check: &Option<String>, argv: &Option<Vec<String>>) -> (r: Vec<String>)
    ensures
        strings_view(r@) == check_lines(name@, opt_view(*check), opt_strings(*argv)),
{
    let mut r: Vec<String> = Vec::new();
    match argv {
        Some(a) => {
            let mut first = "\nDeclared check:\n  ".to_owned();
            append(&mut first, join_strings(a, " ").as_str());
            let mut second = "  blabla task evidence ".to_owned();
            append(&mut second, name);
            append(&mut second, " --run   BlaBla runs exactly that program and records the exit code it observed");
            r.push(first);
            r.push(second);
        },
        None => match check {
            Some(c) => {
                let mut first = "\nDeclared check:\n  ".to_owned();
                append(&mut first, c.as_str());
                let mut second = "  blabla task evidence ".to_owned();
                append(&mut second, name);
                append(&mut second, " --exit <code> --tool <tool>   record what the whole run reported; when ");
                append(&mut second, c.as_str());
                append(&mut second, " exits 0 that is --exit 0 --tool check");
                r.push(first);
                r.push(second);
            },
            None => {},
        },
    }
    assert(strings_view(r@) =~= check_lines(name@, opt_view(*check), opt_strings(*argv)));
    r
}

/// The lines a route shows for the task `name` in `state`.
pub open spec fn render_route(
    route: Seq<char>,
    name: Seq<char>,
    check: Option<Seq<char>>,
    argv: Option<Seq<Seq<char>>>,
    state: Option<Seq<char>>,
) -> Seq<Seq<char>> {
    if route == "accept"@ {
        seq![
            "\n  blabla task accept "@ + name + " --model <id>   "@ + if state == Some("blocked"@) || state == Some(
                "ready"@,
            ) {
                "take the assignment again before changing anything; a BLOCKED or READY task resumes by being accepted"@
            } else {
                "take the assignment before changing anything; unaccepted work is challenged as work done outside BlaBla"@
            },
        ]
    } else if route == "check"@ {
        check_lines(name, check, argv)
    } else if route == "blocker"@ {
        seq!["  blabla task block "@ + name + " \"...\"   record the blocker and stop"@]
    } else if route == "note"@ {
        seq![
            "  blabla task note "@ + name
                + " \"...\"   keep a note on the record; a note is not a finding and blocks nothing"@,
        ]
    } else if route == "finding"@ {
        seq![
            "  blabla task finding "@ + name
                + " \"...\"   record unsettled work; it blocks hand-back until it is addressed or resolved"@,
        ]
    } else if route == "addressed"@ {
        seq![
            "  blabla task addressed "@ + name
                + " <id> \"...\" --model <id>   say what you did about a finding; the orchestrator still resolves it"@,
        ]
    } else if route == "lens"@ {
        seq!["  blabla task lens "@ + name + " <pack> \"...\"   one assessment against one lens the role consults"@]
    } else if route == "challenge"@ {
        if state == Some("ready"@) {
            seq![
                "  READY: hand-back recorded; await orchestrator review; closing task "@ + name
                    + " is orchestrator-owned"@,
            ]
        } else {
            seq![
                "  blabla challenge "@ + name
                    + "   ask BlaBla for one contradiction grounded in the record and tree; no challenge is recorded until the command runs"@,
            ]
        }
    } else if route == "hand-back"@ {
        seq!["  blabla task ready "@ + name + "   hand back for review; closing it is the orchestrator's, never yours"@]
    } else {
        Seq::empty()
    }
}

fn one_line(head: &str, name: &str, tail: &str) -> (r: Vec<String>)
    ensures
        strings_view(r@) == seq![head@ + name@ + tail@],
{
    let mut line = head.to_owned();
    append(&mut line, name);
    append(&mut line, tail);
    let r = vec![line];
    assert(strings_view(r@) =~= seq![head@ + name@ + tail@]);
    r
}

fn state_is(state: &Option<String>, w: &str) -> (b: bool)
    ensures
        b == (opt_view(*state) == Some(w@)),
{
    match state {
        Some(s) => str_eq(s.as_str(), w),
        None => false,
    }
}

/// The lines a route shows for the task `name` in `state`.
pub fn render_route_lines(
    route: &str,
    name: &str,
    check: &Option<String>,
    argv: &Option<Vec<String>>,
    state: &Option<String>,
) -> (r: Vec<String>)
    ensures
        strings_view(r@) == render_route(route@, name@, opt_view(*check), opt_strings(*argv), opt_view(*state)),
{
    if str_eq(route, "accept") {
        let mut line = "\n  blabla task accept ".to_owned();
        append(&mut line, name);
        append(&mut line, " --model <id>   ");
        if state_is(state, "blocked") || state_is(state, "ready") {
            append(
                &mut line,
                "take the assignment again before changing anything; a BLOCKED or READY task resumes by being accepted",
            );
        } else {
            append(
                &mut line,
                "take the assignment before changing anything; unaccepted work is challenged as work done outside BlaBla",
            );
        }
        let r = vec![line];
        assert(strings_view(r@) =~= render_route(route@, name@, opt_view(*check), opt_strings(*argv), opt_view(*state)));
        r
    } else if str_eq(route, "check") {
        check_lines_of(name, check, argv)
    } else if str_eq(route, "blocker") {
        one_line("  blabla task block ", name, " \"...\"   record the blocker and stop")
    } else if str_eq(route, "note") {
        one_line(
            "  blabla task note ",
            name,
            " \"...\"   keep a note on the record; a note is not a finding and blocks nothing",
        )
    } else if str_eq(route, "finding") {
        one_line(
            "  blabla task finding ",
            name,
            " \"...\"   record unsettled work; it blocks hand-back until it is addressed or resolved",
        )
    } else if str_eq(route, "addressed") {
        one_line(
            "  blabla task addressed ",
            name,
            " <id> \"...\" --model <id>   say what you did about a finding; the orchestrator still resolves it",
        )
    } else if str_eq(route, "lens") {
        one_line("  blabla task lens ", name, " <pack> \"...\"   one assessment against one lens the role consults")
    } else if str_eq(route, "challenge") {
        if state_is(state, "ready") {
            one_line(
                "  READY: hand-back recorded; await orchestrator review; closing task ",
                name,
                " is orchestrator-owned",
            )
        } else {
            one_line(
                "  blabla challenge ",
                name,
                "   ask BlaBla for one contradiction grounded in the record and tree; no challenge is recorded until the command runs",
            )
        }
    } else if str_eq(route, "hand-back") {
        one_line(
            "  blabla task ready ",
            name,
            "   hand back for review; closing it is the orchestrator's, never yours",
        )
    } else {
        let r: Vec<String> = Vec::new();
        assert(strings_view(r@) =~= Seq::<Seq<char>>::empty());
        r
    }
}

/// The lines a route shows for a task in `state`: none where the route is not offered in it.
pub open spec fn route_text(
    route: Seq<char>,
    name: Seq<char>,
    check: Option<Seq<char>>,
    argv: Option<Seq<Seq<char>>>,
    state: Option<Seq<char>>,
) -> Seq<Seq<char>> {
    match state {
        Some(st) => if route_states(route).contains(st) {
            render_route(route, name, check, argv, state)
        } else {
            Seq::empty()
        },
        None => render_route(route, name, check, argv, state),
    }
}

/// The lines a route shows for a task in `state`.
pub fn route_text_lines(
    route: &str,
    name: &str,
    check: &Option<String>,
    argv: &Option<Vec<String>>,
    state: &Option<String>,
) -> (r: Vec<String>)
    ensures
        strings_view(r@) == route_text(route@, name@, opt_view(*check), opt_strings(*argv), opt_view(*state)),
{
    match state {
        Some(st) => {
            let states = route_states_of(route);
            if !holds_state(&states, st.as_str()) {
                let r: Vec<String> = Vec::new();
                assert(strings_view(r@) =~= Seq::<Seq<char>>::empty());
                return r;
            }
        },
        None => {},
    }
    render_route_lines(route, name, check, argv, state)
}

/// Each of `lines` followed by a line break.
pub open spec fn lines_text(lines: Seq<Seq<char>>) -> Seq<char>
    decreases lines.len(),
{
    if lines.len() == 0 {
        Seq::empty()
    } else {
        lines_text(lines.drop_last()) + lines.last() + "\n"@
    }
}

fn write_lines(out: &mut String, lines: &Vec<String>)
    ensures
        final(out)@ == old(out)@ + lines_text(strings_view(lines@)),
{
    let ghost start = out@;
    let ghost views = strings_view(lines@);
    let mut i: usize = 0;
    assert(start + lines_text(views.take(0)) =~= start);
    while i < lines.len()
        invariant
            i <= lines.len(),
            views == strings_view(lines@),
            out@ == start + lines_text(views.take(i as int)),
        decreases lines.len() - i,
    {
        append(out, lines[i].as_str());
        append(out, "\n");
        assert(views.take(i + 1).drop_last() =~= views.take(i as int));
        assert(out@ =~= start + lines_text(views.take(i + 1)));
        i += 1;
    }
    assert(views.take(i as int) =~= views);
}

/// Whether a route is offered before a task is recorded: in the open or the accepted state.
pub open spec fn offered(route: Seq<char>) -> bool {
    route_states(route).contains("open"@) || route_states(route).contains("accepted"@)
}

/// The route lines of the routes `rs` that are offered, for a task not yet recorded.
pub open spec fn offered_text(rs: Seq<Seq<char>>, name: Seq<char>, check: Option<Seq<char>>) -> Seq<char>
    decreases rs.len(),
{
    if rs.len() == 0 {
        Seq::empty()
    } else {
        offered_text(rs.drop_last(), name, check) + if offered(rs.last()) {
            lines_text(route_text(rs.last(), name, check, None, None))
        } else {
            Seq::empty()
        }
    }
}

/// The routes offered to the carrier of the task `name`, before its record exists.
pub fn routes_text(name: &str, check: &Option<String>) -> (s: String)
    ensures
        s@ == offered_text(routes_spec(), name@, opt_view(*check)),
{
    let rs = routes();
    let ghost views = rs@.map_values(|r: &'static str| r@);
    let mut out = String::new();
    let mut i: usize = 0;
    while i < rs.len()
        invariant
            i <= rs.len(),
            views == rs@.map_values(|r: &'static str| r@),
            views == routes_spec(),
            out@ == offered_text(views.take(i as int), name@, opt_view(*check)),
        decreases rs.len() - i,
    {
        assert(views.take(i + 1).drop_last() =~= views.take(i as int));
        assert(views.take(i + 1).last() == rs@[i as int]@);
        let states = route_states_of(rs[i]);
        if holds_state(&states, "open") || holds_state(&states, "accepted") {
            let lines = route_text_lines(rs[i], name, check, &None, &None);
            write_lines(&mut out, &lines);
        }
        assert(out@ =~= offered_text(views.take(i + 1), name@, opt_view(*check)));
        i += 1;
    }
    assert(views.take(rs@.len() as int) =~= views);
    out
}

/// The route lines of the routes `rs` for the recorded `task`, in its state.
pub open spec fn task_routes(rs: Seq<Seq<char>>, task: Task) -> Seq<char>
    decreases rs.len(),
{
    if rs.len() == 0 {
        Seq::empty()
    } else {
        task_routes(rs.drop_last(), task) + lines_text(
            route_text(rs.last(), task.name@, opt_view(task.check), opt_strings(task.check_argv), Some(task.state@)),
        )
    }
}

/// What a task shows of its scratch space and of the routes open to it.
pub open spec fn routes_section(task: Task) -> Seq<char> {
    "\nScratch:\n  .blabla/"@ + SCRATCH_DIRECTORY@ + "/"@ + task.name@
        + "   working space; not a deliverable and outside the tree snapshot\n"@ + task_routes(routes_spec(), task)
}

/// Appends the task's scratch space and the routes open to it in its state.
pub fn write_routes(out: &mut String, task: &Task)
    ensures
        final(out)@ == old(out)@ + routes_section(*task),
{
    let ghost start = out@;
    append(out, "\nScratch:\n  .blabla/");
    append(out, SCRATCH_DIRECTORY);
    append(out, "/");
    append(out, task.name.as_str());
    append(out, "   working space; not a deliverable and outside the tree snapshot\n");
    let ghost head = out@;
    let rs = routes();
    let ghost views = rs@.map_values(|r: &'static str| r@);
    let state = Some(task.state.clone());
    let mut i: usize = 0;
    assert(head + task_routes(views.take(0), *task) =~= head);
    while i < rs.len()
        invariant
            i <= rs.len(),
            views == rs@.map_values(|r: &'static str| r@),
            views == routes_spec(),
            opt_view(state) == Some(task.state@),
            out@ == head + task_routes(views.take(i as int), *task),
        decreases rs.len() - i,
    {
        assert(views.take(i + 1).drop_last() =~= views.take(i as int));
        assert(views.take(i + 1).last() == rs@[i as int]@);
        let ghost before = out@;
        let lines = route_text_lines(rs[i], task.name.as_str(), &task.check, &task.check_argv, &state);
        write_lines(out, &lines);
        assert(out@ =~= head + task_routes(views.take(i + 1), *task));
        i += 1;
    }
    assert(views.take(rs@.len() as int) =~= views);
    assert(out@ =~= start + routes_section(*task));
}

// ---------------------------------------------------------------------------------------
// A task in full.
// ---------------------------------------------------------------------------------------

/// Who addressed a finding, when someone did.
pub open spec fn addressed_part(f: Finding) -> Seq<char> {
    match f.addressed {
        Some(a) => "    addressed by "@ + a.model@ + ": "@ + a.statement@ + "\n"@,
        None => Seq::empty(),
    }
}

/// How a finding stands: resolved (and by whom), awaiting resolution, or unresolved.
pub open spec fn resolution_part(f: Finding) -> Seq<char> {
    match f.resolution {
        Some(r) => "    resolved: "@ + r.evidence@ + "\n"@ + match r.model {
            Some(m) => "    by "@ + m@ + "\n"@,
            None => Seq::empty(),
        },
        None => if f.addressed is Some {
            "    awaiting the orchestrator's resolution\n"@
        } else {
            "    UNRESOLVED\n"@
        },
    }
}

/// What a finding shows: its statement, who addressed it, and whether it is resolved.
pub open spec fn finding_text(f: Finding) -> Seq<char> {
    "  "@ + decimal(f.id as nat) + " "@ + f.statement@ + "\n"@ + addressed_part(f) + resolution_part(f)
}

fn write_resolution_part(out: &mut String, f: &Finding)
    ensures
        final(out)@ == old(out)@ + resolution_part(*f),
{
    let ghost start = out@;
    match &f.resolution {
        Some(r) => {
            append(out, "    resolved: ");
            append(out, r.evidence.as_str());
            append(out, "\n");
            match &r.model {
                Some(m) => {
                    append(out, "    by ");
                    append(out, m.as_str());
                    append(out, "\n");
                },
                None => {},
            }
        },
        None => {
            if f.addressed.is_some() {
                append(out, "    awaiting the orchestrator's resolution\n");
            } else {
                append(out, "    UNRESOLVED\n");
            }
        },
    }
    assert(out@ =~= start + resolution_part(*f));
}

fn write_finding(out: &mut String, f: &Finding)
    ensures
        final(out)@ == old(out)@ + finding_text(*f),
{
    let ghost start = out@;
    append(out, "  ");
    append(out, decimal_text(f.id as u64).as_str());
    append(out, " ");
    append(out, f.statement.as_str());
    append(out, "\n");
    let ghost mut acc = "  "@ + decimal(f.id as nat) + " "@ + f.statement@ + "\n"@;
    assert(out@ =~= start + acc);
    let ghost before = out@;
    match &f.addressed {
        Some(a) => {
            append(out, "    addressed by ");
            append(out, a.model.as_str());
            append(out, ": ");
            append(out, a.statement.as_str());
            append(out, "\n");
        },
        None => {},
    }
    assert(out@ =~= before + addressed_part(*f));
    proof {
        lemma_grow(start, acc, addressed_part(*f));
        acc = acc + addressed_part(*f);
    }
    write_resolution_part(out, f);
    proof {
        lemma_grow(start, acc, resolution_part(*f));
    }
}

/// Each finding's text, in order.
pub open spec fn findings_text(fs: Seq<Finding>) -> Seq<char>
    decreases fs.len(),
{
    if fs.len() == 0 {
        Seq::empty()
    } else {
        findings_text(fs.drop_last()) + finding_text(fs.last())
    }
}

/// What a task shows of its findings.
pub open spec fn findings_section(fs: Seq<Finding>) -> Seq<char> {
    if fs.len() == 0 {
        "\nFindings:\n  none recorded\n"@
    } else {
        "\nFindings:\n"@ + findings_text(fs)
    }
}

fn write_findings(out: &mut String, task: &Task)
    ensures
        final(out)@ == old(out)@ + findings_section(task.findings@),
{
    let ghost start = out@;
    if task.findings.len() == 0 {
        append(out, "\nFindings:\n  none recorded\n");
        return;
    }
    append(out, "\nFindings:\n");
    let ghost head = out@;
    let mut i: usize = 0;
    assert(head + findings_text(task.findings@.take(0)) =~= head);
    while i < task.findings.len()
        invariant
            i <= task.findings.len(),
            out@ == head + findings_text(task.findings@.take(i as int)),
        decreases task.findings.len() - i,
    {
        write_finding(out, &task.findings[i]);
        assert(task.findings@.take(i + 1).drop_last() =~= task.findings@.take(i as int));
        assert(out@ =~= head + findings_text(task.findings@.take(i + 1)));
        i += 1;
    }
    assert(task.findings@.take(i as int) =~= task.findings@);
    assert(out@ =~= start + findings_section(task.findings@));
}

/// The notes on a task, one to a line, or nothing when there are none.
pub open spec fn notes_section(task: Task) -> Seq<char> {
    if task.notes@.len() == 0 {
        Seq::empty()
    } else {
        "\nNotes:\n"@ + indented(task.notes@.map_values(|n: crate::project::task::Note| n.statement@))
    }
}

fn write_notes(out: &mut String, task: &Task)
    ensures
        final(out)@ == old(out)@ + notes_section(*task),
{
    let ghost start = out@;
    if task.notes.len() == 0 {
        assert(out@ =~= start + notes_section(*task));
        return;
    }
    append(out, "\nNotes:\n");
    let mut statements: Vec<String> = Vec::new();
    let mut i: usize = 0;
    while i < task.notes.len()
        invariant
            i <= task.notes.len(),
            statements@.len() == i,
            forall|j: int| 0 <= j < i ==> (#[trigger] statements@[j])@ == task.notes@[j].statement@,
        decreases task.notes.len() - i,
    {
        statements.push(task.notes[i].statement.clone());
        i += 1;
    }
    assert(strings_view(statements@) =~= task.notes@.map_values(|n: crate::project::task::Note| n.statement@));
    write_indented(out, &statements);
    assert(out@ =~= start + notes_section(*task));
}

/// The removed deliverables, one to a line with the reason, or nothing when there are none.
pub open spec fn removed_text(rs: Seq<crate::project::task::RemovedDeliverable>) -> Seq<char>
    decreases rs.len(),
{
    if rs.len() == 0 {
        Seq::empty()
    } else {
        removed_text(rs.drop_last()) + "  "@ + rs.last().path@ + " — "@ + rs.last().reason@ + "\n"@
    }
}

pub open spec fn removed_section(task: Task) -> Seq<char> {
    if task.removed_deliverables@.len() == 0 {
        Seq::empty()
    } else {
        "\nRemoved deliverables:\n"@ + removed_text(task.removed_deliverables@)
    }
}

fn write_removed(out: &mut String, task: &Task)
    ensures
        final(out)@ == old(out)@ + removed_section(*task),
{
    let ghost start = out@;
    if task.removed_deliverables.len() == 0 {
        assert(out@ =~= start + removed_section(*task));
        return;
    }
    append(out, "\nRemoved deliverables:\n");
    let ghost head = out@;
    let ghost rs = task.removed_deliverables@;
    let mut i: usize = 0;
    assert(head + removed_text(rs.take(0)) =~= head);
    while i < task.removed_deliverables.len()
        invariant
            i <= rs.len(),
            rs == task.removed_deliverables@,
            out@ == head + removed_text(rs.take(i as int)),
        decreases rs.len() - i,
    {
        let removed = &task.removed_deliverables[i];
        append(out, "  ");
        append(out, removed.path.as_str());
        append(out, " — ");
        append(out, removed.reason.as_str());
        append(out, "\n");
        assert(rs.take(i + 1).drop_last() =~= rs.take(i as int));
        assert(out@ =~= head + removed_text(rs.take(i + 1)));
        i += 1;
    }
    assert(rs.take(i as int) =~= rs);
    assert(out@ =~= start + removed_section(*task));
}

/// The paths of a task's deliverables.
pub open spec fn deliverable_paths(task: Task) -> Seq<Seq<char>> {
    task.deliverables@.map_values(|d: crate::project::task::Deliverable| d.path@)
}

/// What a task shows of its identity, statement and carrier.
pub open spec fn task_title(task: Task) -> Seq<char> {
    "task::"@ + task.name@ + "   "@ + ascii_upper(task.state@) + "\n"@ + "\nStatement:\n  "@ + task.statement@
        + "\n"@ + "\nCarried by:\n  role::"@ + task.role@ + "\n"@
}

/// What a task shows of its write scope.
pub open spec fn scope_part(task: Task) -> Seq<char> {
    "\nWrite scope:\n  "@ + join_or_spec(strings_view(task.scope@), "none declared"@) + "\n"@
}

/// What a task shows of its deliverables.
pub open spec fn deliverables_part(task: Task) -> Seq<char> {
    "\nDeliverables:\n  "@ + join_or_spec(deliverable_paths(task), "none declared"@) + "\n"@
}

/// What a task shows of the inputs of its check: those declared, else its write scope.
pub open spec fn inputs_part(task: Task) -> Seq<char> {
    "\nCheck inputs (plus deliverables):\n  "@ + (if task.check_inputs@.len() == 0 {
        "write scope: "@ + join(strings_view(task.scope@), "  "@)
    } else {
        join(strings_view(task.check_inputs@), "  "@)
    }) + "\n"@
}

/// What a task shows of itself before its findings: state, statement, carrier, scope,
/// deliverables and check inputs.
pub open spec fn task_head(task: Task) -> Seq<char> {
    task_title(task) + scope_part(task) + deliverables_part(task) + inputs_part(task)
}

fn write_task_title(out: &mut String, task: &Task)
    ensures
        final(out)@ == old(out)@ + task_title(*task),
{
    let ghost start = out@;
    append(out, "task::");
    append(out, task.name.as_str());
    append(out, "   ");
    append(out, state_label(task).as_str());
    append(out, "\n");
    append(out, "\nStatement:\n  ");
    append(out, task.statement.as_str());
    append(out, "\n");
    append(out, "\nCarried by:\n  role::");
    append(out, task.role.as_str());
    append(out, "\n");
    assert(out@ =~= start + task_title(*task));
}

fn write_deliverables(out: &mut String, task: &Task)
    ensures
        final(out)@ == old(out)@ + deliverables_part(*task),
{
    let ghost start = out@;
    let mut paths: Vec<String> = Vec::new();
    let mut i: usize = 0;
    while i < task.deliverables.len()
        invariant
            i <= task.deliverables.len(),
            paths@.len() == i,
            forall|j: int| 0 <= j < i ==> (#[trigger] paths@[j])@ == task.deliverables@[j].path@,
        decreases task.deliverables.len() - i,
    {
        paths.push(task.deliverables[i].path.clone());
        i += 1;
    }
    assert(strings_view(paths@) =~= deliverable_paths(*task));
    append(out, "\nDeliverables:\n  ");
    append(out, join_or(&paths, "none declared").as_str());
    append(out, "\n");
    assert(out@ =~= start + deliverables_part(*task));
}

fn write_task_head(out: &mut String, task: &Task)
    ensures
        final(out)@ == old(out)@ + task_head(*task),
{
    let ghost start = out@;
    let ghost t = *task;
    write_task_title(out, task);
    let ghost mut acc = task_title(t);
    let ghost before = out@;
    append(out, "\nWrite scope:\n  ");
    append(out, join_or(&task.scope, "none declared").as_str());
    append(out, "\n");
    assert(out@ =~= before + scope_part(t));
    proof {
        lemma_grow(start, acc, scope_part(t));
        acc = acc + scope_part(t);
    }
    write_deliverables(out, task);
    proof {
        lemma_grow(start, acc, deliverables_part(t));
        acc = acc + deliverables_part(t);
    }
    let ghost before = out@;
    append(out, "\nCheck inputs (plus deliverables):\n  ");
    if task.check_inputs.len() == 0 {
        append(out, "write scope: ");
        append(out, join_strings(&task.scope, "  ").as_str());
    } else {
        append(out, join_strings(&task.check_inputs, "  ").as_str());
    }
    append(out, "\n");
    assert(out@ =~= before + inputs_part(t));
    proof {
        lemma_grow(start, acc, inputs_part(t));
    }
}

/// What `task show` prints of one task.
pub open spec fn task_text(task: Task) -> Seq<char> {
    task_head(task) + findings_section(task.findings@) + notes_section(task) + removed_section(task)
        + routes_section(task)
}

/// Appends what `task show` prints of one task.
pub fn write_task(out: &mut String, task: &Task)
    ensures
        final(out)@ == old(out)@ + task_text(*task),
{
    let ghost start = out@;
    let ghost t = *task;
    write_task_head(out, task);
    let ghost mut acc = task_head(t);
    write_findings(out, task);
    proof {
        lemma_grow(start, acc, findings_section(t.findings@));
        acc = acc + findings_section(t.findings@);
    }
    write_notes(out, task);
    proof {
        lemma_grow(start, acc, notes_section(t));
        acc = acc + notes_section(t);
    }
    write_removed(out, task);
    proof {
        lemma_grow(start, acc, removed_section(t));
        acc = acc + removed_section(t);
    }
    write_routes(out, task);
    proof {
        lemma_grow(start, acc, routes_section(t));
    }
}

/// The line a task's record gets once it is written.
pub open spec fn task_line(task: Task) -> Seq<char> {
    "task::"@ + task.name@ + "   "@ + ascii_upper(task.state@) + "   recorded; blabla task show "@ + task.name@
        + " prints the record\n"@
}

/// Appends the line a task's record gets once it is written.
pub fn write_task_line(out: &mut String, task: &Task)
    ensures
        final(out)@ == old(out)@ + task_line(*task),
{
    let ghost start = out@;
    append(out, "task::");
    append(out, task.name.as_str());
    append(out, "   ");
    append(out, state_label(task).as_str());
    append(out, "   recorded; blabla task show ");
    append(out, task.name.as_str());
    append(out, " prints the record\n");
    assert(out@ =~= start + task_line(*task));
}

/// One row of the list of tasks.
pub open spec fn task_row(task: Task) -> Seq<char> {
    "  task::"@ + task.name@ + "   "@ + ascii_upper(task.state@) + "   role::"@ + task.role@ + "   "@ + decimal(
        unresolved_count(task),
    ) + " unresolved\n"@
}

pub open spec fn task_rows(tasks: Seq<Task>) -> Seq<char>
    decreases tasks.len(),
{
    if tasks.len() == 0 {
        Seq::empty()
    } else {
        task_rows(tasks.drop_last()) + task_row(tasks.last())
    }
}

/// What `task show` prints when no task is named.
pub open spec fn tasks_text(tasks: Seq<Task>) -> Seq<char> {
    if tasks.len() == 0 {
        "No bounded task is recorded.\n"@
            + "  blabla task open <name> --role <role> --statement \"...\" --scope <path> --deliverable <path>\n"@
    } else {
        "Bounded tasks:\n"@ + task_rows(tasks) + "\n  blabla task show <name>   one task in full\n"@
    }
}

/// Appends what `task show` prints when no task is named.
pub fn write_tasks(out: &mut String, tasks: &Vec<Task>)
    ensures
        final(out)@ == old(out)@ + tasks_text(tasks@),
{
    let ghost start = out@;
    if tasks.len() == 0 {
        append(out, "No bounded task is recorded.\n");
        append(
            out,
            "  blabla task open <name> --role <role> --statement \"...\" --scope <path> --deliverable <path>\n",
        );
        assert(out@ =~= start + tasks_text(tasks@));
        return;
    }
    append(out, "Bounded tasks:\n");
    let ghost head = out@;
    let mut i: usize = 0;
    assert(head + task_rows(tasks@.take(0)) =~= head);
    while i < tasks.len()
        invariant
            i <= tasks.len(),
            out@ == head + task_rows(tasks@.take(i as int)),
        decreases tasks.len() - i,
    {
        let task = &tasks[i];
        append(out, "  task::");
        append(out, task.name.as_str());
        append(out, "   ");
        append(out, state_label(task).as_str());
        append(out, "   role::");
        append(out, task.role.as_str());
        append(out, "   ");
        let unresolved = task.unresolved();
        proof {
            assert(unresolved@.map_values(|f: &Finding| *f).len() == unresolved@.len());
        }
        append(out, decimal_text(unresolved.len() as u64).as_str());
        append(out, " unresolved\n");
        assert(tasks@.take(i + 1).drop_last() =~= tasks@.take(i as int));
        assert(out@ =~= head + task_rows(tasks@.take(i + 1)));
        i += 1;
    }
    assert(tasks@.take(i as int) =~= tasks@);
    append(out, "\n  blabla task show <name>   one task in full\n");
    assert(out@ =~= start + tasks_text(tasks@));
}

// ---------------------------------------------------------------------------------------
// Declared paths.
// ---------------------------------------------------------------------------------------

/// `path` with each backslash made a forward slash.
pub open spec fn slashed(path: Seq<char>) -> Seq<char> {
    path.map_values(|c: char| if c == '\\' { '/' } else { c })
}

/// A declared path with forward slashes only.
pub fn normalize(path: String) -> (s: String)
    ensures
        s@ == slashed(path@),
{
    let cs = crate::text::chars_of(path.as_str());
    let mut out: Vec<char> = Vec::new();
    let mut i: usize = 0;
    while i < cs.len()
        invariant
            i <= cs.len(),
            cs@ == path@,
            out@ == slashed(cs@.take(i as int)),
        decreases cs.len() - i,
    {
        let c = cs[i];
        out.push(if c == '\\' { '/' } else { c });
        assert(slashed(cs@.take(i + 1)) =~= slashed(cs@.take(i as int)).push(if c == '\\' { '/' } else { c }));
        i += 1;
    }
    assert(cs@.take(cs@.len() as int) =~= cs@);
    crate::text::string_of(out.as_slice())
}

/// Why a declared path cannot be tracked: the ignore rule `origin` leaves it out.
pub open spec fn ignored_message(kind: Seq<char>, path: Seq<char>, origin: Seq<char>) -> Seq<char> {
    kind + " "@ + debug_quoted(path) + " is left out of change tracking by "@ + origin
        + ", so BlaBla could never observe it; drop that ignore rule or declare a path it does not cover"@
}

/// The first of `declared` (with forward slashes; `is_dir` says which of them are
/// directories) that an ignore rule leaves out, from index `i` on, with the rule.
pub open spec fn first_ignored(ignore: crate::project::ignore::IgnoreView, declared: Seq<Seq<char>>, is_dir: Seq<bool>, i: int) -> Option<(int, int)>
    decreases declared.len() - i,
{
    if i < 0 || i >= declared.len() {
        None
    } else {
        match ignored_by(ignore, slashed(declared[i]), is_dir[i]) {
            Some(r) => Some((i, r)),
            None => first_ignored(ignore, declared, is_dir, i + 1),
        }
    }
}

/// The refusal of a task's declared `kind` of path (deliverable or input) that an ignore rule
/// leaves out of change tracking, for the first such path; `is_dir` says which of `declared`
/// are directories under the project root.
pub fn ignored_declaration(ignore: &Ignore, kind: &str, declared: &Vec<String>, is_dir: &Vec<bool>) -> (r: Option<String>)
    requires
        is_dir@.len() == declared@.len(),
    ensures
        match first_ignored(ignore@, strings_view(declared@), is_dir@, 0) {
            Some((i, rule)) => r matches Some(m) && m@ == ignored_message(
                kind@,
                slashed(declared@[i]@),
                ignore@.rules[rule].origin,
            ),
            None => r is None,
        },
{
    let ghost views = strings_view(declared@);
    let mut i: usize = 0;
    while i < declared.len()
        invariant
            i <= declared.len(),
            is_dir@.len() == declared@.len(),
            views == strings_view(declared@),
            first_ignored(ignore@, views, is_dir@, 0) == first_ignored(ignore@, views, is_dir@, i as int),
        decreases declared.len() - i,
    {
        let path = normalize(declared[i].as_str().to_owned());
        assert(views[i as int] == declared@[i as int]@);
        match ignore.rule_for(path.as_str(), is_dir[i]) {
            Some(origin) => {
                let mut m = joined_kind(kind);
                append(&mut m, quoted(path.as_str()).as_str());
                append(&mut m, " is left out of change tracking by ");
                append(&mut m, origin);
                append(
                    &mut m,
                    ", so BlaBla could never observe it; drop that ignore rule or declare a path it does not cover",
                );
                return Some(m);
            },
            None => {},
        }
        i += 1;
    }
    None
}

fn joined_kind(kind: &str) -> (s: String)
    ensures
        s@ == kind@ + " "@,
{
    let mut s = kind.to_owned();
    append(&mut s, " ");
    s
}

/// What a declared path owes: itself, unless it is a directory under which the tree has files,
/// which it owes each of, in the tree's order.
pub open spec fn owed_for(path: Seq<char>, is_dir: bool, files: Seq<Seq<char>>) -> Seq<Seq<char>> {
    if !is_dir {
        seq![path]
    } else {
        let under = files.filter(|f: Seq<char>| starts_with(f, path + "/"@));
        if under.len() == 0 {
            seq![path]
        } else {
            under
        }
    }
}

/// The paths a task owes for `declared[..n]`, in order.
pub open spec fn owed_spec(declared: Seq<Seq<char>>, is_dir: Seq<bool>, files: Seq<Seq<char>>, n: int) -> Seq<Seq<char>>
    decreases n,
{
    if n <= 0 {
        Seq::empty()
    } else {
        owed_spec(declared, is_dir, files, n - 1) + owed_for(slashed(declared[n - 1]), is_dir[n - 1], files)
    }
}

fn files_under(files: &Vec<String>, prefix: &str) -> (r: Vec<String>)
    ensures
        strings_view(r@) == strings_view(files@).filter(|f: Seq<char>| starts_with(f, prefix@)),
{
    let ghost views = strings_view(files@);
    let mut out: Vec<String> = Vec::new();
    let mut i: usize = 0;
    while i < files.len()
        invariant
            i <= files.len(),
            views == strings_view(files@),
            strings_view(out@) == views.take(i as int).filter(|f: Seq<char>| starts_with(f, prefix@)),
        decreases files.len() - i,
    {
        let ghost before = strings_view(out@);
        proof {
            reveal(Seq::filter);
            assert(views.take(i + 1).drop_last() =~= views.take(i as int));
            assert(views.take(i + 1).last() == files@[i as int]@);
        }
        if crate::text::strip_prefix_text(files[i].as_str(), prefix).is_some() {
            out.push(files[i].as_str().to_owned());
            assert(strings_view(out@) =~= before.push(files@[i as int]@));
        }
        i += 1;
    }
    assert(views.take(views.len() as int) =~= views);
    out
}

/// The paths a task owes for its declared deliverables: each declared file, and for each
/// declared directory the files the tree has under it (or the directory itself when it has
/// none); `is_dir` says which of `declared` are directories and `files` are the paths of the
/// tree, in order.
pub fn owed_paths(declared: &Vec<String>, is_dir: &Vec<bool>, files: &Vec<String>) -> (owed: Vec<String>)
    requires
        is_dir@.len() == declared@.len(),
    ensures
        strings_view(owed@) == owed_spec(strings_view(declared@), is_dir@, strings_view(files@), declared@.len() as int),
{
    let ghost views = strings_view(declared@);
    let mut owed: Vec<String> = Vec::new();
    let mut i: usize = 0;
    assert(strings_view(owed@) =~= Seq::<Seq<char>>::empty());
    while i < declared.len()
        invariant
            i <= declared.len(),
            is_dir@.len() == declared@.len(),
            views == strings_view(declared@),
            strings_view(owed@) == owed_spec(views, is_dir@, strings_view(files@), i as int),
        decreases declared.len() - i,
    {
        let path = normalize(declared[i].as_str().to_owned());
        assert(views[i as int] == declared@[i as int]@);
        let ghost before = strings_view(owed@);
        let mut add: Vec<String> = Vec::new();
        if !is_dir[i] {
            add.push(path);
        } else {
            let mut prefix = path.as_str().to_owned();
            append(&mut prefix, "/");
            let under = files_under(files, prefix.as_str());
            if under.len() == 0 {
                add.push(path);
            } else {
                add = under;
            }
        }
        assert(strings_view(add@) =~= owed_for(slashed(views[i as int]), is_dir@[i as int], strings_view(files@)));
        let mut k: usize = 0;
        while k < add.len()
            invariant
                k <= add.len(),
                strings_view(owed@) == before + strings_view(add@).take(k as int),
            decreases add.len() - k,
        {
            let ghost prior = strings_view(owed@);
            let item = add[k].as_str().to_owned();
            assert(item@ == strings_view(add@)[k as int]);
            owed.push(item);
            assert(strings_view(owed@) =~= prior.push(item@));
            assert(strings_view(add@).take(k + 1) =~= strings_view(add@).take(k as int).push(item@));
            assert(strings_view(owed@) =~= before + strings_view(add@).take(k + 1));
            k += 1;
        }
        assert(strings_view(add@).take(add@.len() as int) =~= strings_view(add@));
        i += 1;
    }
    owed
}

} // verus!
