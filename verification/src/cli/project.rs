use vstd::prelude::*;
use crate::memory::Memory;
use crate::memory::syntax::texts;
use crate::memory::knowledge::{
    DIRECTORY, KnowledgeExplainView, KnowledgeMemory, KnowledgeStatus, knowledge_canonical, knowledge_explained,
    knowledge_explains,
};
use crate::memory::mission::{MissionMemory, mission_canonical, mission_explained, mission_explains};
use crate::memory::process::{ProcessMemory, process_canonical, process_explained, process_explains};
use crate::memory::system::{SystemMemory, system_canonical, system_explained, system_explains};
use crate::memory::mission::{MissionExplainView, MissionStatus};
use crate::memory::process::{ProcessExplainView, ProcessStatus};
use crate::memory::system::{SystemExplainView, SystemStatus};
use crate::project::task::{TaskStatus, TaskSummary};
use crate::project::status::PrimitiveView;
use crate::runtime::primitives::Fact;
use crate::project::strings_view;
use crate::text::{append, char_is_whitespace, chars_of, decimal, decimal_text, is_whitespace, join, join_strings, str_eq, string_of_range};

verus! {

pub proof fn lemma_grow(start: Seq<char>, acc: Seq<char>, piece: Seq<char>)
    ensures
        (start + acc) + piece == start + (acc + piece),
{
    assert((start + acc) + piece =~= start + (acc + piece));
}

/// Each of `items` on a line of its own, indented by two spaces.
pub open spec fn indented(items: Seq<Seq<char>>) -> Seq<char>
    decreases items.len(),
{
    if items.len() == 0 {
        Seq::empty()
    } else {
        indented(items.drop_last()) + "  "@ + items.last() + "\n"@
    }
}

/// `items` in rows of four from index `i` on, two spaces apart, each row indented by two
/// spaces.
pub open spec fn rows_from(items: Seq<Seq<char>>, i: int) -> Seq<char>
    decreases items.len() - i,
{
    if i < 0 || i >= items.len() {
        Seq::empty()
    } else if i + 4 >= items.len() {
        "  "@ + join(items.subrange(i, items.len() as int), "  "@) + "\n"@
    } else {
        "  "@ + join(items.subrange(i, i + 4), "  "@) + "\n"@ + rows_from(items, i + 4)
    }
}

/// `items` in rows of four (`chunks(4)`), two spaces apart, each row indented by two spaces.
pub open spec fn rows_of_four(items: Seq<Seq<char>>) -> Seq<char> {
    rows_from(items, 0)
}

/// Appends each of `items` on a line of its own, indented by two spaces.
pub fn write_indented(out: &mut String, items: &Vec<String>)
    ensures
        final(out)@ == old(out)@ + indented(strings_view(items@)),
{
    let ghost start = out@;
    let ghost views = strings_view(items@);
    let mut i: usize = 0;
    assert(start + indented(views.take(0)) =~= start);
    while i < items.len()
        invariant
            i <= items.len(),
            views == strings_view(items@),
            out@ == start + indented(views.take(i as int)),
        decreases items.len() - i,
    {
        append(out, "  ");
        append(out, items[i].as_str());
        append(out, "\n");
        assert(views.take(i + 1).drop_last() =~= views.take(i as int));
        assert(views.take(i + 1).last() == views[i as int]);
        assert(out@ =~= start + indented(views.take(i + 1)));
        i += 1;
    }
    assert(views.take(i as int) =~= views);
}

/// Appends `items` in rows of four, two spaces apart, each row indented by two spaces.
pub fn write_rows_of_four(out: &mut String, items: &Vec<String>)
    ensures
        final(out)@ == old(out)@ + rows_of_four(strings_view(items@)),
{
    let ghost start = out@;
    let ghost views = strings_view(items@);
    let n = items.len();
    let mut i: usize = 0;
    assert(out@ + rows_from(views, 0) =~= start + rows_from(views, 0));
    while i < n
        invariant
            n == items.len(),
            views == strings_view(items@),
            start == old(out)@,
            i <= n,
            out@ + rows_from(views, i as int) == start + rows_from(views, 0),
        decreases n - i,
    {
        let end: usize = if n - i > 4 { i + 4 } else { n };
        let mut row: Vec<String> = Vec::new();
        let mut k: usize = i;
        while k < end
            invariant
                i <= k <= end <= n == items.len(),
                row@.len() == k - i,
                forall|j: int| 0 <= j < row@.len() ==> row@[j]@ == items@[i + j]@,
            decreases end - k,
        {
            row.push(items[k].clone());
            k += 1;
        }
        let ghost before = out@;
        append(out, "  ");
        let joined = join_strings(&row, "  ");
        append(out, joined.as_str());
        append(out, "\n");
        assert(strings_view(row@) =~= views.subrange(i as int, end as int));
        if end == n {
            assert(out@ =~= before + rows_from(views, i as int));
            assert(out@ =~= start + rows_from(views, 0));
            return;
        }
        assert(out@ + rows_from(views, i + 4) =~= before + rows_from(views, i as int));
        i = i + 4;
    }
    assert(rows_from(views, i as int) =~= Seq::<char>::empty());
    assert(out@ =~= start + rows_from(views, 0));
}

// ---------------------------------------------------------------------------------------
// Mission memory.
// ---------------------------------------------------------------------------------------

/// The one-line summary of mission memory in a status.
pub open spec fn mission_line(m: MissionStatus) -> Seq<char> {
    match m.mission {
        Some(mission) if m.state@ == "present"@ => "MISSION    "@ + mission@ + "  "@ + decimal(
            m.priorities as nat,
        ) + " priorities  "@ + decimal(m.non_goals as nat)
            + " non-goals   (memory only; never part of completion)\n"@,
        _ => "MISSION    "@ + m.file@ + " is "@ + m.state@
            + "; no owner intent is available (completion is unaffected)\n"@,
    }
}

/// Appends the one-line summary of mission memory, when the project has any.
pub fn write_mission_line(out: &mut String, memory: Option<&MissionStatus>)
    ensures
        final(out)@ == old(out)@ + match memory {
            Some(m) => mission_line(*m),
            None => Seq::empty(),
        },
{
    let ghost start = out@;
    let m = match memory {
        Some(m) => m,
        None => {
            assert(out@ =~= start + Seq::<char>::empty());
            return;
        },
    };
    let present = str_eq(m.state, "present");
    match &m.mission {
        Some(mission) if present => {
            append(out, "MISSION    ");
            append(out, mission.as_str());
            append(out, "  ");
            append(out, decimal_text(m.priorities as u64).as_str());
            append(out, " priorities  ");
            append(out, decimal_text(m.non_goals as u64).as_str());
            append(out, " non-goals   (memory only; never part of completion)\n");
        },
        _ => {
            append(out, "MISSION    ");
            append(out, m.file.as_str());
            append(out, " is ");
            append(out, m.state);
            append(out, "; no owner intent is available (completion is unaffected)\n");
        },
    }
    assert(out@ =~= start + mission_line(*m));
}

/// The mission memory section of a status.
pub open spec fn mission_memory(m: MissionStatus) -> Seq<char> {
    "\nMission memory ("@ + m.file@ + "):\n"@ + if m.state@ != "present"@ {
        indented(strings_view(m.problems@))
            + "  Fix the file or remove the registration; nothing about completion depends on it.\n"@
    } else {
        match m.mission {
            Some(mission) => "  "@ + mission@ + "\n"@ + "  blabla explain "@ + mission@
                + "   the goal, the priorities that decide a tradeoff and the non-goals\n"@,
            None => Seq::empty(),
        }
    }
}

/// Appends the mission memory section, when the project has any.
pub fn write_mission_memory(out: &mut String, memory: Option<&MissionStatus>)
    ensures
        final(out)@ == old(out)@ + match memory {
            Some(m) => mission_memory(*m),
            None => Seq::empty(),
        },
{
    let ghost start = out@;
    let m = match memory {
        Some(m) => m,
        None => {
            assert(out@ =~= start + Seq::<char>::empty());
            return;
        },
    };
    append(out, "\nMission memory (");
    append(out, m.file.as_str());
    append(out, "):\n");
    let ghost head = out@;
    if !str_eq(m.state, "present") {
        write_indented(out, &m.problems);
        append(out, "  Fix the file or remove the registration; nothing about completion depends on it.\n");
    } else {
        match &m.mission {
            Some(mission) => {
                append(out, "  ");
                append(out, mission.as_str());
                append(out, "\n");
                append(out, "  blabla explain ");
                append(out, mission.as_str());
                append(out, "   the goal, the priorities that decide a tradeoff and the non-goals\n");
            },
            None => {},
        }
    }
    assert(out@ =~= start + mission_memory(*m));
}

/// What `explain` prints of an entry of mission memory.
pub open spec fn mission_explain(v: MissionExplainView) -> Seq<char> {
    v.id@ + "\nKind: "@ + v.kind@ + "\n"@ + "\nStatement:\n  "@ + v.statement@ + "\n"@ + (if v.priorities@.len() > 0 {
        "\nPriorities:\n"@ + indented(strings_view(v.priorities@))
    } else {
        Seq::empty()
    }) + if v.non_goals@.len() > 0 {
        "\nNon-goals:\n"@ + indented(strings_view(v.non_goals@))
    } else {
        Seq::empty()
    }
}

/// Appends what `explain` prints of an entry of mission memory.
pub fn write_mission_explain(out: &mut String, view: &MissionExplainView)
    ensures
        final(out)@ == old(out)@ + mission_explain(*view),
{
    let ghost start = out@;
    append(out, view.id.as_str());
    append(out, "\nKind: ");
    append(out, view.kind);
    append(out, "\n");
    append(out, "\nStatement:\n  ");
    append(out, view.statement.as_str());
    append(out, "\n");
    let ghost a = out@;
    if view.priorities.len() > 0 {
        append(out, "\nPriorities:\n");
        write_indented(out, &view.priorities);
    }
    let ghost b = out@;
    if view.non_goals.len() > 0 {
        append(out, "\nNon-goals:\n");
        write_indented(out, &view.non_goals);
    }
    assert(out@ =~= start + mission_explain(*view));
}

// ---------------------------------------------------------------------------------------
// System memory.
// ---------------------------------------------------------------------------------------

/// The one-line summary of system memory in a status.
pub open spec fn system_line(m: SystemStatus) -> Seq<char> {
    if m.state@ == "present"@ {
        "SYSTEM     "@ + decimal(m.systems@.len()) + " systems  "@ + decimal(m.responsibilities as nat)
            + " responsibilities  "@ + decimal(m.seams as nat) + " seams   (memory only; never part of completion)\n"@
    } else {
        "SYSTEM     "@ + m.file@ + " is "@ + m.state@
            + "; no architectural memory is available (completion is unaffected)\n"@
    }
}

/// Appends the one-line summary of system memory, when the project has any.
pub fn write_system_line(out: &mut String, memory: Option<&SystemStatus>)
    ensures
        final(out)@ == old(out)@ + match memory {
            Some(m) => system_line(*m),
            None => Seq::empty(),
        },
{
    let ghost start = out@;
    let m = match memory {
        Some(m) => m,
        None => {
            assert(out@ =~= start + Seq::<char>::empty());
            return;
        },
    };
    if str_eq(m.state, "present") {
        append(out, "SYSTEM     ");
        append(out, decimal_text(m.systems.len() as u64).as_str());
        append(out, " systems  ");
        append(out, decimal_text(m.responsibilities as u64).as_str());
        append(out, " responsibilities  ");
        append(out, decimal_text(m.seams as u64).as_str());
        append(out, " seams   (memory only; never part of completion)\n");
    } else {
        append(out, "SYSTEM     ");
        append(out, m.file.as_str());
        append(out, " is ");
        append(out, m.state);
        append(out, "; no architectural memory is available (completion is unaffected)\n");
    }
    assert(out@ =~= start + system_line(*m));
}

/// The system memory section of a status.
pub open spec fn system_memory(m: SystemStatus) -> Seq<char> {
    "\nSystem memory ("@ + m.file@ + "):\n"@ + if m.state@ != "present"@ {
        indented(strings_view(m.problems@)) + "  Fix the file or remove it; nothing about completion depends on it.\n"@
    } else {
        rows_of_four(strings_view(m.systems@)) + if m.systems@.len() > 0 {
            "  blabla explain "@ + m.systems@[0]@
                + "   its purpose, paths, the responsibilities it owns and its seams\n"@
        } else {
            Seq::empty()
        }
    }
}

/// Appends the system memory section, when the project has any.
pub fn write_system_memory(out: &mut String, memory: Option<&SystemStatus>)
    ensures
        final(out)@ == old(out)@ + match memory {
            Some(m) => system_memory(*m),
            None => Seq::empty(),
        },
{
    let ghost start = out@;
    let m = match memory {
        Some(m) => m,
        None => {
            assert(out@ =~= start + Seq::<char>::empty());
            return;
        },
    };
    append(out, "\nSystem memory (");
    append(out, m.file.as_str());
    append(out, "):\n");
    if !str_eq(m.state, "present") {
        write_indented(out, &m.problems);
        append(out, "  Fix the file or remove it; nothing about completion depends on it.\n");
    } else {
        write_rows_of_four(out, &m.systems);
        if m.systems.len() > 0 {
            append(out, "  blabla explain ");
            append(out, m.systems[0].as_str());
            append(out, "   its purpose, paths, the responsibilities it owns and its seams\n");
        }
    }
    assert(out@ =~= start + system_memory(*m));
}

/// `"\n" + label + ":\n"` and each item on an indented line, or nothing when there are none.
pub open spec fn listed_section(label: Seq<char>, items: Seq<Seq<char>>) -> Seq<char> {
    if items.len() > 0 {
        "\n"@ + label + ":\n"@ + indented(items)
    } else {
        Seq::empty()
    }
}

fn write_listed_section(out: &mut String, label: &str, items: &Vec<String>)
    ensures
        final(out)@ == old(out)@ + listed_section(label@, strings_view(items@)),
{
    let ghost start = out@;
    if items.len() > 0 {
        append(out, "\n");
        append(out, label);
        append(out, ":\n");
        write_indented(out, items);
    }
    assert(out@ =~= start + listed_section(label@, strings_view(items@)));
}

/// `"\n" + label + ":\n  " + items joined by `sep`, or nothing when there are none.
pub open spec fn joined_section(label: Seq<char>, items: Seq<Seq<char>>, sep: Seq<char>) -> Seq<char> {
    if items.len() > 0 {
        "\n"@ + label + ":\n  "@ + join(items, sep) + "\n"@
    } else {
        Seq::empty()
    }
}

fn write_joined_section(out: &mut String, label: &str, items: &Vec<String>, sep: &str)
    ensures
        final(out)@ == old(out)@ + joined_section(label@, strings_view(items@), sep@),
{
    let ghost start = out@;
    if items.len() > 0 {
        append(out, "\n");
        append(out, label);
        append(out, ":\n  ");
        append(out, join_strings(items, sep).as_str());
        append(out, "\n");
    }
    assert(out@ =~= start + joined_section(label@, strings_view(items@), sep@));
}

/// `"\n" + label + ":\n  " + value`, or nothing when there is none.
pub open spec fn single_section(label: Seq<char>, value: Option<String>) -> Seq<char> {
    match value {
        Some(v) => "\n"@ + label + ":\n  "@ + v@ + "\n"@,
        None => Seq::empty(),
    }
}

fn write_single_section(out: &mut String, label: &str, value: &Option<String>)
    ensures
        final(out)@ == old(out)@ + single_section(label@, *value),
{
    let ghost start = out@;
    match value {
        Some(v) => {
            append(out, "\n");
            append(out, label);
            append(out, ":\n  ");
            append(out, v.as_str());
            append(out, "\n");
        },
        None => {},
    }
    assert(out@ =~= start + single_section(label@, *value));
}

/// The head every explanation of memory starts with: identity, kind and statement.
pub open spec fn explain_head(id: Seq<char>, kind: Seq<char>, statement: Seq<char>) -> Seq<char> {
    id + "\nKind: "@ + kind + "\n"@ + "\nStatement:\n  "@ + statement + "\n"@
}

fn write_explain_head(out: &mut String, id: &str, kind: &str, statement: &str)
    ensures
        final(out)@ == old(out)@ + explain_head(id@, kind@, statement@),
{
    let ghost start = out@;
    append(out, id);
    append(out, "\nKind: ");
    append(out, kind);
    append(out, "\n");
    append(out, "\nStatement:\n  ");
    append(out, statement);
    append(out, "\n");
    assert(out@ =~= start + explain_head(id@, kind@, statement@));
}

/// What `explain` prints of a system, responsibility or seam.
pub open spec fn system_explain(v: SystemExplainView) -> Seq<char> {
    explain_head(v.id@, v.kind@, v.statement@) + single_section("Owned by"@, v.owner)
        + joined_section("Between"@, strings_view(v.between@), "  and  "@) + single_section(
        "Value that crosses"@,
        v.value,
    ) + listed_section("Paths"@, strings_view(v.paths@)) + listed_section("Owns"@, strings_view(v.owns@))
        + listed_section("Seams"@, strings_view(v.seams@)) + listed_section(
        "Moves with"@,
        strings_view(v.moves_with@),
    ) + joined_section("Knowledge"@, strings_view(v.knowledge@), "  "@)
}

/// Appends what `explain` prints of a system, responsibility or seam.
pub fn write_system_explain(out: &mut String, view: &SystemExplainView)
    ensures
        final(out)@ == old(out)@ + system_explain(*view),
{
    let ghost start = out@;
    write_explain_head(out, view.id.as_str(), view.kind, view.statement.as_str());
    write_single_section(out, "Owned by", &view.owner);
    write_joined_section(out, "Between", &view.between, "  and  ");
    write_single_section(out, "Value that crosses", &view.value);
    write_listed_section(out, "Paths", &view.paths);
    write_listed_section(out, "Owns", &view.owns);
    write_listed_section(out, "Seams", &view.seams);
    write_listed_section(out, "Moves with", &view.moves_with);
    write_joined_section(out, "Knowledge", &view.knowledge, "  ");
    assert(out@ =~= start + system_explain(*view));
}

// ---------------------------------------------------------------------------------------
// Process memory.
// ---------------------------------------------------------------------------------------

/// The one-line summary of process memory in a status.
pub open spec fn process_line(m: ProcessStatus) -> Seq<char> {
    if m.state@ == "present"@ {
        "PROCESS    ADVISORY  "@ + decimal(m.roles@.len()) + " roles  "@ + decimal(m.policies as nat)
            + " policies  "@ + decimal(m.flows@.len()) + " flows  "@ + decimal(m.steps as nat)
            + " steps   (memory only; never part of completion; not enforced)\n"@
    } else {
        "PROCESS    ADVISORY  "@ + m.file@ + " is "@ + m.state@
            + "; no process memory is available (completion is unaffected)\n"@
    }
}

/// Appends the one-line summary of process memory, when the project has any.
pub fn write_process_line(out: &mut String, memory: Option<&ProcessStatus>)
    ensures
        final(out)@ == old(out)@ + match memory {
            Some(m) => process_line(*m),
            None => Seq::empty(),
        },
{
    let ghost start = out@;
    let m = match memory {
        Some(m) => m,
        None => {
            assert(out@ =~= start + Seq::<char>::empty());
            return;
        },
    };
    append(out, "PROCESS    ADVISORY  ");
    if str_eq(m.state, "present") {
        append(out, decimal_text(m.roles.len() as u64).as_str());
        append(out, " roles  ");
        append(out, decimal_text(m.policies as u64).as_str());
        append(out, " policies  ");
        append(out, decimal_text(m.flows.len() as u64).as_str());
        append(out, " flows  ");
        append(out, decimal_text(m.steps as u64).as_str());
        append(out, " steps   (memory only; never part of completion; not enforced)\n");
    } else {
        append(out, m.file.as_str());
        append(out, " is ");
        append(out, m.state);
        append(out, "; no process memory is available (completion is unaffected)\n");
    }
    assert(out@ =~= start + process_line(*m));
}

/// The flows of process memory on one indented row, or nothing when there are none.
pub open spec fn flow_row(m: ProcessStatus) -> Seq<char> {
    if m.flows@.len() > 0 {
        "  "@ + join(strings_view(m.flows@), "  "@) + "\n"@
    } else {
        Seq::empty()
    }
}

/// How to explain the first role, when there is one.
pub open spec fn role_hint(m: ProcessStatus) -> Seq<char> {
    if m.roles@.len() > 0 {
        "  blabla explain "@ + m.roles@[0]@
            + "   its purpose, what it owns, its verification tier and the policies that bind it\n"@
    } else {
        Seq::empty()
    }
}

/// How to explain the first flow, when there is one.
pub open spec fn flow_hint(m: ProcessStatus) -> Seq<char> {
    if m.flows@.len() > 0 {
        "  blabla explain "@ + m.flows@[0]@ + "   the order the roles are meant to be used in, one line per step\n"@
    } else {
        Seq::empty()
    }
}

/// The process memory section of a status.
pub open spec fn process_memory(m: ProcessStatus) -> Seq<char> {
    "\nProcess memory ("@ + m.file@ + "):\n"@ + if m.state@ != "present"@ {
        indented(strings_view(m.problems@))
            + "  Fix the file or remove the registration; nothing about completion depends on it.\n"@
    } else {
        "  "@ + join(strings_view(m.roles@), "  "@) + "\n"@ + flow_row(m) + role_hint(m) + flow_hint(m)
    }
}

fn write_process_present(out: &mut String, m: &ProcessStatus)
    ensures
        final(out)@ == old(out)@ + ("  "@ + join(strings_view(m.roles@), "  "@) + "\n"@ + flow_row(*m)
            + role_hint(*m) + flow_hint(*m)),
{
    let ghost start = out@;
    append(out, "  ");
    append(out, join_strings(&m.roles, "  ").as_str());
    append(out, "\n");
    let ghost mut acc = "  "@ + join(strings_view(m.roles@), "  "@) + "\n"@;
    assert(out@ =~= start + acc);
    let ghost before = out@;
    if m.flows.len() > 0 {
        append(out, "  ");
        append(out, join_strings(&m.flows, "  ").as_str());
        append(out, "\n");
    }
    assert(out@ =~= before + flow_row(*m));
    proof {
        lemma_grow(start, acc, flow_row(*m));
        acc = acc + flow_row(*m);
    }
    let ghost before = out@;
    if m.roles.len() > 0 {
        append(out, "  blabla explain ");
        append(out, m.roles[0].as_str());
        append(out, "   its purpose, what it owns, its verification tier and the policies that bind it\n");
    }
    assert(out@ =~= before + role_hint(*m));
    proof {
        lemma_grow(start, acc, role_hint(*m));
        acc = acc + role_hint(*m);
    }
    let ghost before = out@;
    if m.flows.len() > 0 {
        append(out, "  blabla explain ");
        append(out, m.flows[0].as_str());
        append(out, "   the order the roles are meant to be used in, one line per step\n");
    }
    assert(out@ =~= before + flow_hint(*m));
    proof {
        lemma_grow(start, acc, flow_hint(*m));
    }
}

/// Appends the process memory section, when the project has any.
pub fn write_process_memory(out: &mut String, memory: Option<&ProcessStatus>)
    ensures
        final(out)@ == old(out)@ + match memory {
            Some(m) => process_memory(*m),
            None => Seq::empty(),
        },
{
    let ghost start = out@;
    let m = match memory {
        Some(m) => m,
        None => {
            assert(out@ =~= start + Seq::<char>::empty());
            return;
        },
    };
    append(out, "\nProcess memory (");
    append(out, m.file.as_str());
    append(out, "):\n");
    let ghost head = out@;
    if !str_eq(m.state, "present") {
        write_indented(out, &m.problems);
        append(out, "  Fix the file or remove the registration; nothing about completion depends on it.\n");
    } else {
        write_process_present(out, m);
    }
    assert(out@ =~= start + process_memory(*m));
}

/// The first index at or after `i` of a character of `s` that is not white space, or the
/// length of `s`.
pub open spec fn word_start(s: Seq<char>, i: int) -> int
    decreases s.len() - i,
{
    if i < 0 || i >= s.len() {
        s.len() as int
    } else if is_whitespace(s[i]) {
        word_start(s, i + 1)
    } else {
        i
    }
}

/// The first index at or after `i` of a white-space character of `s`, or the length of `s`.
pub open spec fn word_end(s: Seq<char>, i: int) -> int
    decreases s.len() - i,
{
    if i < 0 || i >= s.len() {
        s.len() as int
    } else if is_whitespace(s[i]) {
        i
    } else {
        word_end(s, i + 1)
    }
}

/// The first white-space-separated word of `s` (`split_whitespace().next()`).
pub open spec fn first_word(s: Seq<char>) -> Option<Seq<char>> {
    let a = word_start(s, 0);
    if a >= s.len() {
        None
    } else {
        Some(s.subrange(a, word_end(s, a)))
    }
}

/// The first white-space-separated word of `s`, if it has one.
pub fn first_word_of(s: &str) -> (r: Option<String>)
    ensures
        match first_word(s@) {
            Some(w) => r matches Some(t) && t@ == w,
            None => r is None,
        },
{
    let cs = chars_of(s);
    let n = cs.len();
    let mut i: usize = 0;
    while i < n && char_is_whitespace(cs[i])
        invariant
            i <= n == cs@.len(),
            cs@ == s@,
            word_start(s@, 0) == word_start(s@, i as int),
        decreases n - i,
    {
        i += 1;
    }
    if i >= n {
        return None;
    }
    let mut j: usize = i;
    while j < n && !char_is_whitespace(cs[j])
        invariant
            i <= j <= n == cs@.len(),
            cs@ == s@,
            word_end(s@, i as int) == word_end(s@, j as int),
        decreases n - j,
    {
        j += 1;
    }
    Some(string_of_range(cs.as_slice(), i, j))
}

/// What `explain` prints of a role, policy, flow or step.
pub open spec fn process_explain(v: ProcessExplainView) -> Seq<char> {
    explain_head(v.id@, v.kind@, v.statement@) + listed_section("Owns"@, strings_view(v.owns@))
        + single_section("Verification"@, v.verification) + joined_section(
        "Model choices"@,
        strings_view(v.model@),
        "  "@,
    ) + single_section("Part of"@, v.flow) + joined_section(
        if v.kind@ == "step"@ {
            "Carried by"@
        } else {
            "Applies to"@
        },
        strings_view(v.applies_to@),
        "  "@,
    ) + single_section("Command"@, v.command) + steps_section(v) + listed_section("Policies"@, strings_view(v.policies@)) + joined_section(
        "Consult"@,
        strings_view(v.consult@),
        "  "@,
    )
}

/// The steps a flow lists or a role carries, with how to explain the first.
pub open spec fn steps_section(v: ProcessExplainView) -> Seq<char> {
    if v.steps@.len() > 0 {
        listed_section(
            if v.kind@ == "flow"@ {
                "Steps, in order"@
            } else {
                "Steps it carries"@
            },
            strings_view(v.steps@),
        ) + match first_word(v.steps@[0]@) {
            Some(first) => "  blabla explain "@ + first
                + "   what the step is, what carries it and the command that runs it\n"@,
            None => Seq::empty(),
        }
    } else {
        Seq::empty()
    }
}

fn write_steps_section(out: &mut String, view: &ProcessExplainView)
    ensures
        final(out)@ == old(out)@ + steps_section(*view),
{
    let ghost start = out@;
    if view.steps.len() > 0 {
        let label = if str_eq(view.kind, "flow") { "Steps, in order" } else { "Steps it carries" };
        write_listed_section(out, label, &view.steps);
        match first_word_of(view.steps[0].as_str()) {
            Some(first) => {
                append(out, "  blabla explain ");
                append(out, first.as_str());
                append(out, "   what the step is, what carries it and the command that runs it\n");
            },
            None => {},
        }
    }
    assert(out@ =~= start + steps_section(*view));
}

/// Appends what `explain` prints of a role, policy, flow or step.
pub fn write_process_explain(out: &mut String, view: &ProcessExplainView)
    ensures
        final(out)@ == old(out)@ + process_explain(*view),
{
    let ghost start = out@;
    let ghost v = *view;
    write_explain_head(out, view.id.as_str(), view.kind, view.statement.as_str());
    let ghost mut acc = explain_head(v.id@, v.kind@, v.statement@);
    assert(out@ =~= start + acc);
    write_listed_section(out, "Owns", &view.owns);
    proof {
        let piece = listed_section("Owns"@, strings_view(v.owns@));
        lemma_grow(start, acc, piece);
        acc = acc + piece;
    }
    write_single_section(out, "Verification", &view.verification);
    proof {
        let piece = single_section("Verification"@, v.verification);
        lemma_grow(start, acc, piece);
        acc = acc + piece;
    }
    write_joined_section(out, "Model choices", &view.model, "  ");
    proof {
        let piece = joined_section("Model choices"@, strings_view(v.model@), "  "@);
        lemma_grow(start, acc, piece);
        acc = acc + piece;
    }
    write_single_section(out, "Part of", &view.flow);
    proof {
        let piece = single_section("Part of"@, v.flow);
        lemma_grow(start, acc, piece);
        acc = acc + piece;
    }
    let carried = if str_eq(view.kind, "step") { "Carried by" } else { "Applies to" };
    write_joined_section(out, carried, &view.applies_to, "  ");
    proof {
        let piece = joined_section(carried@, strings_view(v.applies_to@), "  "@);
        lemma_grow(start, acc, piece);
        acc = acc + piece;
    }
    write_single_section(out, "Command", &view.command);
    proof {
        let piece = single_section("Command"@, v.command);
        lemma_grow(start, acc, piece);
        acc = acc + piece;
    }
    write_steps_section(out, view);
    proof {
        let piece = steps_section(v);
        lemma_grow(start, acc, piece);
        acc = acc + piece;
    }
    write_listed_section(out, "Policies", &view.policies);
    proof {
        let piece = listed_section("Policies"@, strings_view(v.policies@));
        lemma_grow(start, acc, piece);
        acc = acc + piece;
    }
    write_joined_section(out, "Consult", &view.consult, "  ");
    proof {
        let piece = joined_section("Consult"@, strings_view(v.consult@), "  "@);
        lemma_grow(start, acc, piece);
        acc = acc + piece;
    }
    assert(acc == process_explain(v));
}

// ---------------------------------------------------------------------------------------
// Knowledge memory.
// ---------------------------------------------------------------------------------------

/// How a status names the knowledge files: the directory when none is registered.
pub open spec fn files(names: Seq<Seq<char>>) -> Seq<char> {
    if names.len() == 0 {
        DIRECTORY@
    } else {
        join(names, ", "@)
    }
}

/// The knowledge files as a status names them.
pub fn files_text(names: &Vec<String>) -> (s: String)
    ensures
        s@ == files(strings_view(names@)),
{
    if names.len() == 0 {
        DIRECTORY.to_owned()
    } else {
        join_strings(names, ", ")
    }
}

/// The one-line summary of knowledge memory in a status.
pub open spec fn knowledge_line(m: KnowledgeStatus) -> Seq<char> {
    if m.state@ == "present"@ {
        "KNOWLEDGE  "@ + decimal(m.packs@.len()) + " packs  "@ + decimal(m.rulings as nat)
            + " rulings   (memory only; never part of completion)\n"@
    } else {
        "KNOWLEDGE  "@ + files(strings_view(m.files@)) + " is "@ + m.state@
            + "; no reusable expertise is available (completion is unaffected)\n"@
    }
}

/// Appends the one-line summary of knowledge memory, when the project has any.
pub fn write_knowledge_line(out: &mut String, memory: Option<&KnowledgeStatus>)
    ensures
        final(out)@ == old(out)@ + match memory {
            Some(m) => knowledge_line(*m),
            None => Seq::empty(),
        },
{
    let ghost start = out@;
    let m = match memory {
        Some(m) => m,
        None => {
            assert(out@ =~= start + Seq::<char>::empty());
            return;
        },
    };
    append(out, "KNOWLEDGE  ");
    if str_eq(m.state, "present") {
        append(out, decimal_text(m.packs.len() as u64).as_str());
        append(out, " packs  ");
        append(out, decimal_text(m.rulings as u64).as_str());
        append(out, " rulings   (memory only; never part of completion)\n");
    } else {
        append(out, files_text(&m.files).as_str());
        append(out, " is ");
        append(out, m.state);
        append(out, "; no reusable expertise is available (completion is unaffected)\n");
    }
    assert(out@ =~= start + knowledge_line(*m));
}

/// The knowledge memory section of a status.
pub open spec fn knowledge_memory(m: KnowledgeStatus) -> Seq<char> {
    "\nKnowledge memory ("@ + files(strings_view(m.files@)) + "):\n"@ + if m.state@ != "present"@ {
        indented(strings_view(m.problems@))
            + "  Fix the file or remove the registration; nothing about completion depends on it.\n"@
    } else {
        rows_of_four(strings_view(m.packs@)) + if m.packs@.len() > 0 {
            "  blabla explain "@ + m.packs@[0]@ + "   its purpose and the identity of every ruling it holds\n"@
        } else {
            Seq::empty()
        }
    }
}

/// Appends the knowledge memory section, when the project has any.
pub fn write_knowledge_memory(out: &mut String, memory: Option<&KnowledgeStatus>)
    ensures
        final(out)@ == old(out)@ + match memory {
            Some(m) => knowledge_memory(*m),
            None => Seq::empty(),
        },
{
    let ghost start = out@;
    let m = match memory {
        Some(m) => m,
        None => {
            assert(out@ =~= start + Seq::<char>::empty());
            return;
        },
    };
    append(out, "\nKnowledge memory (");
    append(out, files_text(&m.files).as_str());
    append(out, "):\n");
    if !str_eq(m.state, "present") {
        write_indented(out, &m.problems);
        append(out, "  Fix the file or remove the registration; nothing about completion depends on it.\n");
    } else {
        write_rows_of_four(out, &m.packs);
        if m.packs.len() > 0 {
            append(out, "  blabla explain ");
            append(out, m.packs[0].as_str());
            append(out, "   its purpose and the identity of every ruling it holds\n");
        }
    }
    assert(out@ =~= start + knowledge_memory(*m));
}

/// What `explain` prints of a pack or ruling.
pub open spec fn knowledge_explain(v: KnowledgeExplainView) -> Seq<char> {
    explain_head(v.id@, v.kind@, v.statement@) + single_section("Pack"@, v.pack) + if v.rulings@.len() > 0 {
        listed_section("Rulings"@, strings_view(v.rulings@))
            + "\nEach ruling is explained on demand; this view lists identities so a pack costs one line per ruling instead of one paragraph.\n"@
    } else {
        Seq::empty()
    }
}

/// Appends what `explain` prints of a pack or ruling.
pub fn write_knowledge_explain(out: &mut String, view: &KnowledgeExplainView)
    ensures
        final(out)@ == old(out)@ + knowledge_explain(*view),
{
    let ghost start = out@;
    write_explain_head(out, view.id.as_str(), view.kind, view.statement.as_str());
    write_single_section(out, "Pack", &view.pack);
    if view.rulings.len() > 0 {
        write_listed_section(out, "Rulings", &view.rulings);
        append(
            out,
            "\nEach ruling is explained on demand; this view lists identities so a pack costs one line per ruling instead of one paragraph.\n",
        );
    }
    assert(out@ =~= start + knowledge_explain(*view));
}

// ---------------------------------------------------------------------------------------
// Bounded tasks.
// ---------------------------------------------------------------------------------------

/// One row of the bounded tasks a status lists.
pub open spec fn task_summary_row(t: TaskSummary) -> Seq<char> {
    "  "@ + t.id@ + "   "@ + t.state@ + "   "@ + t.role@ + "   "@ + decimal(t.deliverables as nat)
        + " deliverables, "@ + decimal(t.unresolved as nat) + " unresolved\n"@
}

pub open spec fn task_summary_rows(ts: Seq<TaskSummary>) -> Seq<char>
    decreases ts.len(),
{
    if ts.len() == 0 {
        Seq::empty()
    } else {
        task_summary_rows(ts.drop_last()) + task_summary_row(ts.last())
    }
}

/// The bounded tasks section of a status.
pub open spec fn bounded_tasks(t: TaskStatus) -> Seq<char> {
    "\nBounded tasks ("@ + t.directory@ + "):\n"@ + task_summary_rows(t.tasks@)
        + "  blabla challenge   hold this work against the evidence BlaBla already has and state one grounded challenge\n"@
}

/// Appends the bounded tasks section, when the project has recorded tasks.
pub fn write_bounded_tasks(out: &mut String, tasks: Option<&TaskStatus>)
    ensures
        final(out)@ == old(out)@ + match tasks {
            Some(t) => bounded_tasks(*t),
            None => Seq::empty(),
        },
{
    let ghost start = out@;
    let t = match tasks {
        Some(t) => t,
        None => {
            assert(out@ =~= start + Seq::<char>::empty());
            return;
        },
    };
    append(out, "\nBounded tasks (");
    append(out, t.directory.as_str());
    append(out, "):\n");
    let ghost head = out@;
    let mut i: usize = 0;
    assert(head + task_summary_rows(t.tasks@.take(0)) =~= head);
    while i < t.tasks.len()
        invariant
            i <= t.tasks.len(),
            out@ == head + task_summary_rows(t.tasks@.take(i as int)),
        decreases t.tasks.len() - i,
    {
        let row = &t.tasks[i];
        append(out, "  ");
        append(out, row.id.as_str());
        append(out, "   ");
        append(out, row.state.as_str());
        append(out, "   ");
        append(out, row.role.as_str());
        append(out, "   ");
        append(out, decimal_text(row.deliverables as u64).as_str());
        append(out, " deliverables, ");
        append(out, decimal_text(row.unresolved as u64).as_str());
        append(out, " unresolved\n");
        assert(t.tasks@.take(i + 1).drop_last() =~= t.tasks@.take(i as int));
        assert(out@ =~= head + task_summary_rows(t.tasks@.take(i + 1)));
        i += 1;
    }
    assert(t.tasks@.take(i as int) =~= t.tasks@);
    append(
        out,
        "  blabla challenge   hold this work against the evidence BlaBla already has and state one grounded challenge\n",
    );
    assert(out@ =~= start + bounded_tasks(*t));
}

// ---------------------------------------------------------------------------------------
// Runtime primitives.
// ---------------------------------------------------------------------------------------

/// The statements of `facts`, each on an indented line.
pub open spec fn facts_text(facts: Seq<Fact>) -> Seq<char>
    decreases facts.len(),
{
    if facts.len() == 0 {
        Seq::empty()
    } else {
        facts_text(facts.drop_last()) + "  "@ + facts.last().statement@ + "\n"@
    }
}

/// What `explain` prints of a runtime primitive.
pub open spec fn primitive_text(v: PrimitiveView) -> Seq<char> {
    v.id@ + "\n\nOwned by:\n  "@ + v.owner@ + "\n\nSemantics:\n"@ + facts_text(v.semantics@) + "\n"@ + v.distinction@
        + "\n"@ + listed_section("Used by"@, strings_view(v.used_by@))
}

/// Appends what `explain` prints of a runtime primitive.
pub fn write_primitive(out: &mut String, view: &PrimitiveView)
    ensures
        final(out)@ == old(out)@ + primitive_text(*view),
{
    let ghost start = out@;
    append(out, view.id);
    append(out, "\n\nOwned by:\n  ");
    append(out, view.owner);
    append(out, "\n\nSemantics:\n");
    let ghost head = out@;
    let facts = view.semantics;
    let mut i: usize = 0;
    assert(head + facts_text(facts@.take(0)) =~= head);
    while i < facts.len()
        invariant
            i <= facts@.len(),
            facts@ == view.semantics@,
            out@ == head + facts_text(facts@.take(i as int)),
        decreases facts@.len() - i,
    {
        append(out, "  ");
        append(out, facts[i].statement);
        append(out, "\n");
        assert(facts@.take(i + 1).drop_last() =~= facts@.take(i as int));
        assert(out@ =~= head + facts_text(facts@.take(i + 1)));
        i += 1;
    }
    assert(facts@.take(i as int) =~= facts@);
    let ghost body = out@;
    append(out, "\n");
    append(out, view.distinction);
    append(out, "\n");
    write_listed_section(out, "Used by", &view.used_by);
    assert(out@ =~= start + primitive_text(*view));
}

// ---------------------------------------------------------------------------------------
// Explaining an entry of project memory.
// ---------------------------------------------------------------------------------------

/// The canonical identities that the memories give for `q`: mission, then knowledge, system
/// and process, each only when the memory is present.
pub open spec fn memory_names_spec(
    mission: Memory<MissionMemory>,
    knowledge: Memory<KnowledgeMemory>,
    system: Memory<SystemMemory>,
    process: Memory<ProcessMemory>,
    q: Seq<char>,
) -> Seq<Seq<char>> {
    (match mission {
        Memory::Present(m) => mission_canonical(m@, q),
        _ => Seq::empty(),
    }) + (match knowledge {
        Memory::Present(m) => knowledge_canonical(m@, q),
        _ => Seq::empty(),
    }) + (match system {
        Memory::Present(m) => system_canonical(m@, q),
        _ => Seq::empty(),
    }) + (match process {
        Memory::Present(m) => process_canonical(m@, q),
        _ => Seq::empty(),
    })
}

fn push_all(into: &mut Vec<String>, mut from: Vec<String>)
    ensures
        texts(final(into)@) == texts(old(into)@) + texts(from@),
{
    let ghost a = into@;
    let ghost b = from@;
    into.append(&mut from);
    assert(texts(into@) =~= texts(a) + texts(b));
}

/// The canonical identities that the memories give for `query`, in the order mission,
/// knowledge, system, process.
pub fn memory_names(
    mission: &Memory<MissionMemory>,
    knowledge: &Memory<KnowledgeMemory>,
    system: &Memory<SystemMemory>,
    process: &Memory<ProcessMemory>,
    query: &str,
) -> (names: Vec<String>)
    ensures
        texts(names@) == memory_names_spec(*mission, *knowledge, *system, *process, query@),
{
    let mut names = crate::memory::mission::canonical(mission, query);
    push_all(&mut names, crate::memory::knowledge::canonical(knowledge, query));
    push_all(&mut names, crate::memory::system::canonical(system, query));
    push_all(&mut names, crate::memory::process::canonical(process, query));
    proof {
        assert(texts(Seq::<String>::empty()) =~= Seq::<Seq<char>>::empty());
    }
    names
}

/// What explaining `id` writes: the explanation of the first memory that explains it, in
/// the order mission, knowledge, system, process, or nothing when none does.
pub open spec fn memory_explained(
    mission: Memory<MissionMemory>,
    knowledge: Memory<KnowledgeMemory>,
    system: Memory<SystemMemory>,
    process: Memory<ProcessMemory>,
    id: Seq<char>,
    written: Seq<char>,
    found: bool,
) -> bool {
    if explains_mission(mission, id) {
        found && wrote_mission(mission, id, written)
    } else if explains_knowledge(knowledge, id) {
        found && wrote_knowledge(knowledge, id, written)
    } else if explains_system(system, id) {
        found && wrote_system(system, id, written)
    } else if explains_process(process, id) {
        found && wrote_process(process, id, written)
    } else {
        !found && written.len() == 0
    }
}

pub open spec fn explains_mission(m: Memory<MissionMemory>, id: Seq<char>) -> bool {
    match m {
        Memory::Present(x) => mission_explains(x@, id),
        _ => false,
    }
}

pub open spec fn wrote_mission(m: Memory<MissionMemory>, id: Seq<char>, written: Seq<char>) -> bool {
    match m {
        Memory::Present(x) => exists|v: MissionExplainView| mission_explained(x@, id, v) && written == mission_explain(v),
        _ => false,
    }
}

pub open spec fn explains_knowledge(m: Memory<KnowledgeMemory>, id: Seq<char>) -> bool {
    match m {
        Memory::Present(x) => knowledge_explains(x@, id),
        _ => false,
    }
}

pub open spec fn wrote_knowledge(m: Memory<KnowledgeMemory>, id: Seq<char>, written: Seq<char>) -> bool {
    match m {
        Memory::Present(x) => exists|v: KnowledgeExplainView|
            knowledge_explained(x@, id, v) && written == knowledge_explain(v),
        _ => false,
    }
}

pub open spec fn explains_system(m: Memory<SystemMemory>, id: Seq<char>) -> bool {
    match m {
        Memory::Present(x) => system_explains(x@, id),
        _ => false,
    }
}

pub open spec fn wrote_system(m: Memory<SystemMemory>, id: Seq<char>, written: Seq<char>) -> bool {
    match m {
        Memory::Present(x) => exists|v: SystemExplainView| system_explained(x@, id, v) && written == system_explain(v),
        _ => false,
    }
}

pub open spec fn explains_process(m: Memory<ProcessMemory>, id: Seq<char>) -> bool {
    match m {
        Memory::Present(x) => process_explains(x@, id),
        _ => false,
    }
}

pub open spec fn wrote_process(m: Memory<ProcessMemory>, id: Seq<char>, written: Seq<char>) -> bool {
    match m {
        Memory::Present(x) => exists|v: ProcessExplainView| process_explained(x@, id, v) && written == process_explain(v),
        _ => false,
    }
}

/// Writes the explanation of `id` by the first memory that explains it, in the order
/// mission, knowledge, system, process; whether one did.
pub fn write_memory_explain(
    out: &mut String,
    mission: &Memory<MissionMemory>,
    knowledge: &Memory<KnowledgeMemory>,
    system: &Memory<SystemMemory>,
    process: &Memory<ProcessMemory>,
    id: &str,
) -> (found: bool)
    ensures
        final(out)@.len() >= old(out)@.len(),
        final(out)@.take(old(out)@.len() as int) == old(out)@,
        memory_explained(*mission, *knowledge, *system, *process, id@, final(out)@.skip(old(out)@.len() as int), found),
{
    let ghost start = out@;
    if let Some(view) = crate::memory::mission::explain(mission, id) {
        write_mission_explain(out, &view);
        assert(out@.take(start.len() as int) =~= start);
        assert(out@.skip(start.len() as int) =~= mission_explain(view));
        return true;
    }
    if let Some(view) = crate::memory::knowledge::explain(knowledge, id) {
        write_knowledge_explain(out, &view);
        assert(out@.take(start.len() as int) =~= start);
        assert(out@.skip(start.len() as int) =~= knowledge_explain(view));
        return true;
    }
    if let Some(view) = crate::memory::system::explain(system, id) {
        write_system_explain(out, &view);
        assert(out@.take(start.len() as int) =~= start);
        assert(out@.skip(start.len() as int) =~= system_explain(view));
        return true;
    }
    if let Some(view) = crate::memory::process::explain(process, id) {
        write_process_explain(out, &view);
        assert(out@.take(start.len() as int) =~= start);
        assert(out@.skip(start.len() as int) =~= process_explain(view));
        return true;
    }
    assert(out@.take(start.len() as int) =~= start);
    assert(out@.skip(start.len() as int) =~= Seq::<char>::empty());
    false
}

/// Whether no memory that is there reports a problem.
pub open spec fn memory_sound_spec(
    mission: Option<MissionStatus>,
    system: Option<SystemStatus>,
    process: Option<ProcessStatus>,
    knowledge: Option<KnowledgeStatus>,
) -> bool {
    &&& mission matches Some(m) ==> m.problems@.len() == 0
    &&& system matches Some(m) ==> m.problems@.len() == 0
    &&& process matches Some(m) ==> m.problems@.len() == 0
    &&& knowledge matches Some(m) ==> m.problems@.len() == 0
}

/// The exit status of the memory overview: 0 when no memory reports a problem, else 1.
pub fn memory_exit(
    mission: &Option<MissionStatus>,
    system: &Option<SystemStatus>,
    process: &Option<ProcessStatus>,
    knowledge: &Option<KnowledgeStatus>,
) -> (code: u8)
    ensures
        code == (if memory_sound_spec(*mission, *system, *process, *knowledge) {
            0u8
        } else {
            1u8
        }),
{
    let a = match mission {
        Some(m) => m.problems.len() == 0,
        None => true,
    };
    let b = match system {
        Some(m) => m.problems.len() == 0,
        None => true,
    };
    let c = match process {
        Some(m) => m.problems.len() == 0,
        None => true,
    };
    let d = match knowledge {
        Some(m) => m.problems.len() == 0,
        None => true,
    };
    if a && b && c && d {
        0
    } else {
        1
    }
}

} // verus!
