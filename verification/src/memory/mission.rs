use super::syntax::{Block, BlockView, block_views, declaration, texts};
use super::{
    Memory, Refusal, at_block, duplicate_names, duplicates, expect_fields, expect_keywords, field_refusal, list,
    list_of, pairs, problems_of, says, split, split_spec, state_word, stray_keyword, text, text_of, wanted,
    wants, words,
};
use crate::diagnostic::Diagnostic;
use crate::text::{append, debug_quoted, joined, quoted, str_eq};
use vstd::prelude::*;

verus! {

/// Where mission memory lives by convention.
pub const FILE_NAME: &'static str = "mission.bla";

/// The one thing the project is for.
#[derive(Clone, Debug)]
pub struct Mission {
    pub name: String,
    pub statement: String,
    pub non_goals: Vec<String>,
}

/// Something that qualifies the mission.
#[derive(Clone, Debug)]
pub struct Priority {
    pub name: String,
    pub statement: String,
}

/// The mission memory of a project.
#[derive(Clone, Debug)]
pub struct MissionMemory {
    pub mission: Option<Mission>,
    pub priorities: Vec<Priority>,
}

impl Default for MissionMemory {
    fn default() -> (m: Self)
        ensures
            m.mission is None,
            m.priorities@.len() == 0,
    {
        MissionMemory { mission: None, priorities: Vec::new() }
    }
}

/// What `status` reports of mission memory.
#[derive(Clone, Debug)]
pub struct MissionStatus {
    pub file: String,
    pub state: &'static str,
    pub problems: Vec<String>,
    pub mission: Option<String>,
    pub priorities: usize,
    pub non_goals: usize,
}

/// What `explain` says of one entry of mission memory.
#[derive(Clone, Debug)]
pub struct MissionExplainView {
    pub kind: &'static str,
    pub id: String,
    pub statement: String,
    pub priorities: Vec<String>,
    pub non_goals: Vec<String>,
}

pub struct MissionV {
    pub name: Seq<char>,
    pub statement: Seq<char>,
    pub non_goals: Seq<Seq<char>>,
}

pub struct PriorityV {
    pub name: Seq<char>,
    pub statement: Seq<char>,
}

pub struct MissionMemoryV {
    pub mission: Option<MissionV>,
    pub priorities: Seq<PriorityV>,
}

impl View for Mission {
    type V = MissionV;

    open spec fn view(&self) -> MissionV {
        MissionV { name: self.name@, statement: self.statement@, non_goals: texts(self.non_goals@) }
    }
}

impl View for Priority {
    type V = PriorityV;

    open spec fn view(&self) -> PriorityV {
        PriorityV { name: self.name@, statement: self.statement@ }
    }
}

pub open spec fn priority_views(v: Seq<Priority>) -> Seq<PriorityV> {
    v.map_values(|p: Priority| p@)
}

impl View for MissionMemory {
    type V = MissionMemoryV;

    open spec fn view(&self) -> MissionMemoryV {
        MissionMemoryV {
            mission: match self.mission {
                Some(m) => Some(m@),
                None => None,
            },
            priorities: priority_views(self.priorities@),
        }
    }
}

pub open spec fn second_mission(b: BlockView, previous: Seq<char>) -> Seq<char> {
    declaration(b.keyword, b.name) + " is a second mission declaration; a project states one mission, and "@
        + debug_quoted(previous) + " is already declared"@
}

/// What one declaration adds to the mission memory read so far.
pub open spec fn mission_step(b: BlockView, acc: MissionMemoryV) -> Result<MissionMemoryV, Refusal> {
    if b.keyword == "mission"@ {
        match field_refusal(b, seq!["statement"@], seq!["non_goals"@]) {
            Some(r) => Err(r),
            None => match acc.mission {
                Some(previous) => Err(
                    at_block(b, "E_MEMORY_DECLARATION"@, second_mission(b, previous.name)),
                ),
                None => match text_of(b, "statement"@) {
                    Err(r) => Err(r),
                    Ok(t) => Ok(
                        MissionMemoryV {
                            mission: Some(
                                MissionV { name: b.name, statement: t, non_goals: list_of(b, "non_goals"@) },
                            ),
                            priorities: acc.priorities,
                        },
                    ),
                },
            },
        }
    } else {
        match field_refusal(b, seq!["statement"@], Seq::empty()) {
            Some(r) => Err(r),
            None => match text_of(b, "statement"@) {
                Err(r) => Err(r),
                Ok(t) => Ok(
                    MissionMemoryV {
                        mission: acc.mission,
                        priorities: acc.priorities.push(PriorityV { name: b.name, statement: t }),
                    },
                ),
            },
        }
    }
}

/// The mission memory that the declarations from `i` on make of `acc`.
pub open spec fn mission_fold(blocks: Seq<BlockView>, i: int, acc: MissionMemoryV) -> Result<
    MissionMemoryV,
    Refusal,
>
    decreases blocks.len() - i,
{
    if i < 0 || i >= blocks.len() {
        Ok(acc)
    } else {
        match mission_step(blocks[i], acc) {
            Err(r) => Err(r),
            Ok(next) => mission_fold(blocks, i + 1, next),
        }
    }
}

/// The mission memory that a file's declarations state.
pub open spec fn mission_built(blocks: Seq<BlockView>) -> Result<MissionMemoryV, Refusal> {
    match stray_keyword(blocks, seq!["mission"@, "priority"@], 0) {
        Some(r) => Err(r),
        None => mission_fold(blocks, 0, MissionMemoryV { mission: None, priorities: Seq::empty() }),
    }
}

/// The mission memory that a file's declarations state: one `mission`, any number of
/// `priority`.
pub fn build(blocks: &[Block]) -> (r: Result<MissionMemory, Diagnostic>)
    ensures
        match mission_built(block_views(blocks@)) {
            Ok(m) => r matches Ok(x) && x@ == m,
            Err(e) => r matches Err(d) && says(d, e),
        },
{
    let ghost bs = block_views(blocks@);
    let allowed: Vec<&str> = vec!["mission", "priority"];
    assert(words(allowed@) =~= seq!["mission"@, "priority"@]);
    match expect_keywords(blocks, &allowed) {
        Ok(()) => {},
        Err(d) => {
            return Err(d);
        },
    }
    let statement: Vec<&str> = vec!["statement"];
    let non_goals: Vec<&str> = vec!["non_goals"];
    let nothing: Vec<&str> = Vec::new();
    assert(words(statement@) =~= seq!["statement"@]);
    assert(words(non_goals@) =~= seq!["non_goals"@]);
    assert(words(nothing@) =~= Seq::<Seq<char>>::empty());
    let mut memory = MissionMemory::default();
    assert(memory@ == MissionMemoryV { mission: None, priorities: Seq::empty() }) by {
        assert(priority_views(memory.priorities@) =~= Seq::<PriorityV>::empty());
    }
    let mut i: usize = 0;
    while i < blocks.len()
        invariant
            i <= blocks.len(),
            bs == block_views(blocks@),
            words(statement@) == seq!["statement"@],
            words(non_goals@) == seq!["non_goals"@],
            words(nothing@) == Seq::<Seq<char>>::empty(),
            stray_keyword(bs, seq!["mission"@, "priority"@], 0) is None,
            mission_fold(bs, i as int, memory@) == mission_fold(
                bs,
                0,
                MissionMemoryV { mission: None, priorities: Seq::empty() },
            ),
        decreases blocks.len() - i,
    {
        let block = &blocks[i];
        assert(bs[i as int] == block@);
        if str_eq(block.keyword.as_str(), "mission") {
            match expect_fields(block, &statement, &non_goals) {
                Ok(()) => {},
                Err(d) => {
                    return Err(d);
                },
            }
            match &memory.mission {
                Some(previous) => {
                    let mut m = joined("`", block.keyword.as_str());
                    append(&mut m, " ");
                    append(&mut m, quoted(block.name.as_str()).as_str());
                    append(&mut m, "`");
                    append(&mut m, " is a second mission declaration; a project states one mission, and ");
                    append(&mut m, quoted(previous.name.as_str()).as_str());
                    append(&mut m, " is already declared");
                    assert(m@ =~= second_mission(block@, previous.name@));
                    return Err(Diagnostic::new(
                        block.location.file.as_str(),
                        crate::diagnostic::Span {
                            start: 0,
                            end: 0,
                            line: block.location.line,
                            column: block.location.column,
                        },
                        "E_MEMORY_DECLARATION",
                        m,
                    ));
                },
                None => {},
            }
            let s = match text(block, "statement") {
                Ok(s) => s,
                Err(d) => {
                    return Err(d);
                },
            };
            let ng = list(block, "non_goals");
            memory.mission = Some(Mission { name: block.name.clone(), statement: s, non_goals: ng });
        } else {
            match expect_fields(block, &statement, &nothing) {
                Ok(()) => {},
                Err(d) => {
                    return Err(d);
                },
            }
            let s = match text(block, "statement") {
                Ok(s) => s,
                Err(d) => {
                    return Err(d);
                },
            };
            let ghost before = memory.priorities@;
            let p = Priority { name: block.name.clone(), statement: s };
            memory.priorities.push(p);
            assert(priority_views(memory.priorities@) =~= priority_views(before).push(p@));
        }
        i += 1;
    }
    Ok(memory)
}

pub open spec fn no_mission() -> Seq<char> {
    "no `mission` declaration; mission memory states the one thing this project is for, and priorities only qualify it"@
}

/// Each declared name with the kind that declares it: the mission, then the priorities.
pub open spec fn mission_names(m: MissionMemoryV) -> Seq<(Seq<char>, Seq<char>)> {
    seq![(m.mission->0.name, "the mission"@)] + m.priorities.map_values(
        |p: PriorityV| (p.name, "a priority"@),
    )
}

/// What is wrong with a mission memory.
pub open spec fn mission_problems(m: MissionMemoryV) -> Seq<Seq<char>> {
    match m.mission {
        None => seq![no_mission()],
        Some(_) => duplicates(mission_names(m)),
    }
}

/// What is wrong with a mission memory: no mission, or a name declared twice.
pub fn validate(memory: &MissionMemory) -> (ps: Vec<String>)
    ensures
        texts(ps@) == mission_problems(memory@),
{
    let mission = match &memory.mission {
        Some(m) => m,
        None => {
            let v = vec!["no `mission` declaration; mission memory states the one thing this project is for, and priorities only qualify it".to_owned()];
            assert(texts(v@) =~= seq![no_mission()]);
            return v;
        },
    };
    let mut declared: Vec<(&str, &str)> = vec![(mission.name.as_str(), "the mission")];
    let mut i: usize = 0;
    while i < memory.priorities.len()
        invariant
            i <= memory.priorities.len(),
            memory.mission == Some(*mission),
            pairs(declared@) == mission_names(memory@).take(i + 1),
        decreases memory.priorities.len() - i,
    {
        let ghost before = declared@;
        declared.push((memory.priorities[i].name.as_str(), "a priority"));
        assert(pairs(declared@) =~= pairs(before).push((memory.priorities@[i as int].name@, "a priority"@)));
        assert(pairs(declared@) =~= mission_names(memory@).take(i + 2));
        i += 1;
    }
    assert(mission_names(memory@).take(i + 1) =~= mission_names(memory@));
    duplicate_names(&declared)
}

/// What `status` reports of a mission memory.
pub open spec fn mission_status_of(memory: Memory<MissionMemory>, file: Seq<char>, s: MissionStatus) -> bool {
    &&& s.file@ == file
    &&& s.state@ == state_word(memory)
    &&& texts(s.problems@) == problems_of(memory)
    &&& match memory {
        Memory::Present(m) => match m.mission {
            Some(x) => s.mission matches Some(id) && id@ == "mission::"@ + x.name@,
            None => s.mission is None,
        },
        _ => s.mission is None,
    }
    &&& s.priorities == match memory {
        Memory::Present(m) => m.priorities@.len(),
        _ => 0,
    }
    &&& s.non_goals == match memory {
        Memory::Present(m) => match m.mission {
            Some(x) => x.non_goals@.len(),
            None => 0,
        },
        _ => 0,
    }
}

/// The state of mission memory, or nothing when no statement registers it.
pub fn status(memory: &Memory<MissionMemory>, file: &str) -> (r: Option<MissionStatus>)
    ensures
        memory is Unregistered ==> r is None,
        !(memory is Unregistered) ==> (r matches Some(s) && mission_status_of(*memory, file@, s)),
{
    if let Memory::Unregistered = memory {
        return None;
    }
    let (mission, priorities, non_goals) = match memory.present() {
        Some(m) => match &m.mission {
            Some(x) => (Some(joined("mission::", x.name.as_str())), m.priorities.len(), x.non_goals.len()),
            None => (None, m.priorities.len(), 0),
        },
        None => (None, 0, 0),
    };
    Some(
        MissionStatus {
            file: file.to_owned(),
            state: memory.state(),
            problems: memory.problems(),
            mission,
            priorities,
            non_goals,
        },
    )
}

pub open spec fn mission_kinds() -> Seq<Seq<char>> {
    seq!["mission"@, "priority"@]
}

/// Whether some priority is called `name`.
pub open spec fn has_priority(m: MissionMemoryV, name: Seq<char>) -> bool {
    exists|i: int| 0 <= i < m.priorities.len() && (#[trigger] m.priorities[i]).name == name
}

/// The canonical identities in a mission memory that a query names.
pub open spec fn mission_canonical(m: MissionMemoryV, query: Seq<char>) -> Seq<Seq<char>> {
    let (w, name) = split_spec(query, mission_kinds(), 0);
    let first = if wants(w, "mission"@) && (m.mission matches Some(x) && x.name == name) {
        seq!["mission::"@ + name]
    } else {
        Seq::empty()
    };
    if wants(w, "priority"@) && has_priority(m, name) {
        first.push("priority::"@ + name)
    } else {
        first
    }
}

/// The position of the first priority called `name`.
fn find_priority(m: &MissionMemory, name: &str) -> (r: Option<usize>)
    ensures
        r is None ==> !has_priority(m@, name@),
        r is Some ==> has_priority(m@, name@),
        r matches Some(i) ==> i < m.priorities@.len() && m.priorities@[i as int].name@ == name@
            && forall|j: int| 0 <= j < i ==> (#[trigger] m.priorities@[j]).name@ != name@,
{
    let mut i: usize = 0;
    while i < m.priorities.len()
        invariant
            i <= m.priorities.len(),
            forall|j: int| 0 <= j < i ==> (#[trigger] m.priorities@[j]).name@ != name@,
        decreases m.priorities.len() - i,
    {
        if str_eq(m.priorities[i].name.as_str(), name) {
            assert(m@.priorities[i as int] == m.priorities@[i as int]@);
            return Some(i);
        }
        i += 1;
    }
    assert forall|j: int| 0 <= j < m@.priorities.len() implies (#[trigger] m@.priorities[j]).name != name@ by {
        assert(m@.priorities[j] == m.priorities@[j]@);
    }
    None
}

fn kinds() -> (v: Vec<&'static str>)
    ensures
        words(v@) == mission_kinds(),
{
    let v: Vec<&'static str> = vec!["mission", "priority"];
    assert(words(v@) =~= mission_kinds());
    v
}

/// The canonical identities in mission memory that a query names: `mission::name`,
/// `priority::name`, or a bare name that either can have.
pub fn canonical(memory: &Memory<MissionMemory>, query: &str) -> (found: Vec<String>)
    ensures
        match *memory {
            Memory::Present(m) => texts(found@) == mission_canonical(m@, query@),
            _ => found@.len() == 0,
        },
{
    let m = match memory.present() {
        Some(m) => m,
        None => {
            return Vec::new();
        },
    };
    let (w, name) = split(query, &kinds());
    let ghost sw = split_spec(query@, mission_kinds(), 0).0;
    let ghost sn = split_spec(query@, mission_kinds(), 0).1;
    let want_mission = wanted(w, "mission");
    let want_priority = wanted(w, "priority");
    assert(sn == name@);
    assert(want_mission == wants(sw, "mission"@));
    assert(want_priority == wants(sw, "priority"@));
    let mut found: Vec<String> = Vec::new();
    let named = match &m.mission {
        Some(x) => str_eq(x.name.as_str(), name.as_str()),
        None => false,
    };
    assert(named == (m@.mission matches Some(x) && x.name == sn));
    if want_mission && named {
        found.push(joined("mission::", name.as_str()));
    }
    let ghost first = texts(found@);
    assert(first =~= (if wants(sw, "mission"@) && (m@.mission matches Some(x) && x.name == sn) {
        seq!["mission::"@ + sn]
    } else {
        Seq::<Seq<char>>::empty()
    }));
    let has = find_priority(m, name.as_str()).is_some();
    assert(has == has_priority(m@, sn));
    if want_priority && has {
        found.push(joined("priority::", name.as_str()));
        assert(texts(found@) =~= first.push("priority::"@ + name@));
    }
    found
}

/// The lines that list the priorities beside the mission.
pub open spec fn priority_lines(ps: Seq<PriorityV>) -> Seq<Seq<char>> {
    ps.map_values(|p: PriorityV| "priority::"@ + p.name + "  "@ + p.statement)
}

/// What `explain` says of the entry a query names in a mission memory.
pub open spec fn mission_explained(m: MissionMemoryV, query: Seq<char>, v: MissionExplainView) -> bool {
    let (w, name) = split_spec(query, mission_kinds(), 0);
    if wants(w, "mission"@) && (m.mission matches Some(x) && x.name == name) {
        &&& v.kind@ == "mission"@
        &&& v.id@ == "mission::"@ + m.mission->0.name
        &&& v.statement@ == m.mission->0.statement
        &&& texts(v.priorities@) == priority_lines(m.priorities)
        &&& texts(v.non_goals@) == m.mission->0.non_goals
    } else {
        let i = choose|i: int|
            0 <= i < m.priorities.len() && (#[trigger] m.priorities[i]).name == name && forall|j: int|
                0 <= j < i ==> (#[trigger] m.priorities[j]).name != name;
        &&& v.kind@ == "priority"@
        &&& v.id@ == "priority::"@ + m.priorities[i].name
        &&& v.statement@ == m.priorities[i].statement
        &&& v.priorities@.len() == 0
        &&& v.non_goals@.len() == 0
    }
}

/// Whether a query names an entry of a mission memory.
pub open spec fn mission_explains(m: MissionMemoryV, query: Seq<char>) -> bool {
    let (w, name) = split_spec(query, mission_kinds(), 0);
    (wants(w, "mission"@) && (m.mission matches Some(x) && x.name == name)) || (wants(w, "priority"@)
        && has_priority(m, name))
}

/// What mission memory says of the entry a query names: the mission with its priorities and
/// non-goals, or a priority.
pub fn explain(memory: &Memory<MissionMemory>, query: &str) -> (r: Option<MissionExplainView>)
    ensures
        match *memory {
            Memory::Present(m) => if mission_explains(m@, query@) {
                r matches Some(v) && mission_explained(m@, query@, v)
            } else {
                r is None
            },
            _ => r is None,
        },
{
    let m = match memory.present() {
        Some(m) => m,
        None => {
            return None;
        },
    };
    let (w, name) = split(query, &kinds());
    let ghost sn = split_spec(query@, mission_kinds(), 0).1;
    assert(sn == name@);
    if wanted(w, "mission") {
        match &m.mission {
            Some(x) => {
                if str_eq(x.name.as_str(), name.as_str()) {
                    let mut lines: Vec<String> = Vec::new();
                    let mut i: usize = 0;
                    while i < m.priorities.len()
                        invariant
                            i <= m.priorities.len(),
                            texts(lines@) == priority_lines(m@.priorities).take(i as int),
                        decreases m.priorities.len() - i,
                    {
                        let p = &m.priorities[i];
                        let mut line = joined("priority::", p.name.as_str());
                        append(&mut line, "  ");
                        append(&mut line, p.statement.as_str());
                        let ghost before = lines@;
                        lines.push(line);
                        assert(m@.priorities[i as int] == p@);
                        assert(texts(lines@) =~= texts(before).push(line@));
                        assert(texts(lines@) =~= priority_lines(m@.priorities).take(i + 1));
                        i += 1;
                    }
                    assert(priority_lines(m@.priorities).take(i as int) =~= priority_lines(m@.priorities));
                    let ng = super::copy_strings(&x.non_goals);
                    return Some(
                        MissionExplainView {
                            kind: "mission",
                            id: joined("mission::", x.name.as_str()),
                            statement: x.statement.clone(),
                            priorities: lines,
                            non_goals: ng,
                        },
                    );
                }
            },
            None => {},
        }
    }
    if wanted(w, "priority") {
        match find_priority(m, name.as_str()) {
            Some(i) => {
                let p = &m.priorities[i];
                assert(m@.priorities[i as int] == p@);
                return Some(
                    MissionExplainView {
                        kind: "priority",
                        id: joined("priority::", p.name.as_str()),
                        statement: p.statement.clone(),
                        priorities: Vec::new(),
                        non_goals: Vec::new(),
                    },
                );
            },
            None => {},
        }
    }
    None
}

/// A mission memory that `validate` finds sound names each entry once: the mission and the
/// priorities all have distinct names.
pub proof fn law_sound_mission_names_are_distinct(m: MissionMemoryV)
    requires
        mission_problems(m).len() == 0,
    ensures
        m.mission is Some,
        forall|i: int, j: int|
            0 <= i < j < mission_names(m).len() ==> (#[trigger] mission_names(m)[i]).0 != (#[trigger] mission_names(
                m,
            )[j]).0,
{
    super::law_no_duplicate_problem_means_distinct_names(mission_names(m));
}

} // verus!
