use super::syntax::{Block, BlockView, block_views, field_index, lemma_field_index, texts};
use super::{
    Memory, Refusal, copy_strings, duplicate_names, duplicates, expect_fields, expect_keywords, field_refusal,
    has_text, list, list_of, pairs, prefix_all, prefixed, problems_of, safe_references, says, split, split_spec,
    state_word, stray_keyword, text, text_of, unsafe_reference, wanted, wants, words,
};
use crate::diagnostic::Diagnostic;
use crate::text::{append, debug_quoted, decimal, decimal_text, joined, quoted, str_eq};
use vstd::prelude::*;

verus! {

/// Where system memory lives by convention.
pub const FILE_NAME: &'static str = "system.bla";

/// A part of the project, with the paths it covers and the knowledge it consults.
#[derive(Clone, Debug)]
pub struct System {
    pub name: String,
    pub purpose: String,
    pub paths: Vec<String>,
    pub knowledge: Vec<String>,
}

/// Something a system owns.
#[derive(Clone, Debug)]
pub struct Responsibility {
    pub name: String,
    pub statement: String,
    pub owner: String,
}

/// A value that passes between two systems.
#[derive(Clone, Debug)]
pub struct Seam {
    pub name: String,
    pub statement: String,
    pub between: Vec<String>,
    pub value: String,
    pub moves_with: Vec<String>,
}

/// The system memory of a project.
#[derive(Clone, Debug)]
pub struct SystemMemory {
    pub systems: Vec<System>,
    pub responsibilities: Vec<Responsibility>,
    pub seams: Vec<Seam>,
}

impl Default for SystemMemory {
    fn default() -> (m: Self)
        ensures
            m.systems@.len() == 0,
            m.responsibilities@.len() == 0,
            m.seams@.len() == 0,
    {
        SystemMemory { systems: Vec::new(), responsibilities: Vec::new(), seams: Vec::new() }
    }
}

/// What `status` reports of system memory.
#[derive(Clone, Debug)]
pub struct SystemStatus {
    pub file: String,
    pub state: &'static str,
    pub problems: Vec<String>,
    pub systems: Vec<String>,
    pub responsibilities: usize,
    pub seams: usize,
}

/// What `explain` says of one system, responsibility or seam.
#[derive(Clone, Debug)]
pub struct SystemExplainView {
    pub kind: &'static str,
    pub id: String,
    pub statement: String,
    pub paths: Vec<String>,
    pub owns: Vec<String>,
    pub owner: Option<String>,
    pub between: Vec<String>,
    pub value: Option<String>,
    pub seams: Vec<String>,
    pub moves_with: Vec<String>,
    pub knowledge: Vec<String>,
}

pub struct SystemV {
    pub name: Seq<char>,
    pub purpose: Seq<char>,
    pub paths: Seq<Seq<char>>,
    pub knowledge: Seq<Seq<char>>,
}

pub struct ResponsibilityV {
    pub name: Seq<char>,
    pub statement: Seq<char>,
    pub owner: Seq<char>,
}

pub struct SeamV {
    pub name: Seq<char>,
    pub statement: Seq<char>,
    pub between: Seq<Seq<char>>,
    pub value: Seq<char>,
    pub moves_with: Seq<Seq<char>>,
}

pub struct SystemMemoryV {
    pub systems: Seq<SystemV>,
    pub responsibilities: Seq<ResponsibilityV>,
    pub seams: Seq<SeamV>,
}

impl View for System {
    type V = SystemV;

    open spec fn view(&self) -> SystemV {
        SystemV {
            name: self.name@,
            purpose: self.purpose@,
            paths: texts(self.paths@),
            knowledge: texts(self.knowledge@),
        }
    }
}

impl View for Responsibility {
    type V = ResponsibilityV;

    open spec fn view(&self) -> ResponsibilityV {
        ResponsibilityV { name: self.name@, statement: self.statement@, owner: self.owner@ }
    }
}

impl View for Seam {
    type V = SeamV;

    open spec fn view(&self) -> SeamV {
        SeamV {
            name: self.name@,
            statement: self.statement@,
            between: texts(self.between@),
            value: self.value@,
            moves_with: texts(self.moves_with@),
        }
    }
}

impl View for SystemMemory {
    type V = SystemMemoryV;

    open spec fn view(&self) -> SystemMemoryV {
        SystemMemoryV {
            systems: self.systems@.map_values(|s: System| s@),
            responsibilities: self.responsibilities@.map_values(|r: Responsibility| r@),
            seams: self.seams@.map_values(|s: Seam| s@),
        }
    }
}

/// What one declaration adds to the system memory read so far.
pub open spec fn system_step(b: BlockView, acc: SystemMemoryV) -> Result<SystemMemoryV, Refusal> {
    if b.keyword == "system"@ {
        match field_refusal(b, seq!["purpose"@], seq!["paths"@, "knowledge"@]) {
            Some(r) => Err(r),
            None => match unsafe_reference(b, "knowledge"@) {
                Some(r) => Err(r),
                None => match text_of(b, "purpose"@) {
                    Err(r) => Err(r),
                    Ok(p) => Ok(
                        SystemMemoryV {
                            systems: acc.systems.push(
                                SystemV {
                                    name: b.name,
                                    purpose: p,
                                    paths: list_of(b, "paths"@),
                                    knowledge: list_of(b, "knowledge"@),
                                },
                            ),
                            ..acc
                        },
                    ),
                },
            },
        }
    } else if b.keyword == "responsibility"@ {
        match field_refusal(b, seq!["owner"@, "statement"@], Seq::empty()) {
            Some(r) => Err(r),
            None => match unsafe_reference(b, "owner"@) {
                Some(r) => Err(r),
                None => match text_of(b, "statement"@) {
                    Err(r) => Err(r),
                    Ok(s) => match text_of(b, "owner"@) {
                        Err(r) => Err(r),
                        Ok(o) => Ok(
                            SystemMemoryV {
                                responsibilities: acc.responsibilities.push(
                                    ResponsibilityV { name: b.name, statement: s, owner: o },
                                ),
                                ..acc
                            },
                        ),
                    },
                },
            },
        }
    } else {
        match field_refusal(b, seq!["between"@, "value"@, "statement"@], seq!["moves_with"@]) {
            Some(r) => Err(r),
            None => match unsafe_reference(b, "between"@) {
                Some(r) => Err(r),
                None => match text_of(b, "statement"@) {
                    Err(r) => Err(r),
                    Ok(s) => match text_of(b, "value"@) {
                        Err(r) => Err(r),
                        Ok(v) => Ok(
                            SystemMemoryV {
                                seams: acc.seams.push(
                                    SeamV {
                                        name: b.name,
                                        statement: s,
                                        between: list_of(b, "between"@),
                                        value: v,
                                        moves_with: list_of(b, "moves_with"@),
                                    },
                                ),
                                ..acc
                            },
                        ),
                    },
                },
            },
        }
    }
}

pub open spec fn system_fold(blocks: Seq<BlockView>, i: int, acc: SystemMemoryV) -> Result<SystemMemoryV, Refusal>
    decreases blocks.len() - i,
{
    if i < 0 || i >= blocks.len() {
        Ok(acc)
    } else {
        match system_step(blocks[i], acc) {
            Err(r) => Err(r),
            Ok(next) => system_fold(blocks, i + 1, next),
        }
    }
}

pub open spec fn no_systems() -> SystemMemoryV {
    SystemMemoryV { systems: Seq::empty(), responsibilities: Seq::empty(), seams: Seq::empty() }
}

/// The system memory that a file's declarations state.
pub open spec fn system_built(blocks: Seq<BlockView>) -> Result<SystemMemoryV, Refusal> {
    match stray_keyword(blocks, seq!["system"@, "responsibility"@, "seam"@], 0) {
        Some(r) => Err(r),
        None => system_fold(blocks, 0, no_systems()),
    }
}

/// Refuses a value of the field `name` of `block` that cannot be part of an identity.
fn safe_field(block: &Block, name: &str) -> (r: Result<(), Diagnostic>)
    ensures
        match unsafe_reference(block@, name@) {
            None => r is Ok,
            Some(x) => r matches Err(d) && says(d, x),
        },
{
    proof {
        lemma_field_index(block@.fields, name@);
        match field_index(block@.fields, name@) {
            Some(k) => {
                assert(block@.fields[k] == block.fields@[k]@);
            },
            None => {},
        }
    }
    safe_references(block.field(name))
}

/// The system memory that declarations state: `system`, `responsibility` and `seam`.
pub fn build(blocks: &[Block]) -> (r: Result<SystemMemory, Diagnostic>)
    ensures
        match system_built(block_views(blocks@)) {
            Ok(m) => r matches Ok(x) && x@ == m,
            Err(e) => r matches Err(d) && says(d, e),
        },
{
    let ghost bs = block_views(blocks@);
    let allowed: Vec<&str> = vec!["system", "responsibility", "seam"];
    assert(words(allowed@) =~= seq!["system"@, "responsibility"@, "seam"@]);
    match expect_keywords(blocks, &allowed) {
        Ok(()) => {},
        Err(d) => {
            return Err(d);
        },
    }
    let purpose: Vec<&str> = vec!["purpose"];
    let system_optional: Vec<&str> = vec!["paths", "knowledge"];
    let owner_statement: Vec<&str> = vec!["owner", "statement"];
    let seam_required: Vec<&str> = vec!["between", "value", "statement"];
    let seam_optional: Vec<&str> = vec!["moves_with"];
    let nothing: Vec<&str> = Vec::new();
    assert(words(purpose@) =~= seq!["purpose"@]);
    assert(words(system_optional@) =~= seq!["paths"@, "knowledge"@]);
    assert(words(owner_statement@) =~= seq!["owner"@, "statement"@]);
    assert(words(seam_required@) =~= seq!["between"@, "value"@, "statement"@]);
    assert(words(seam_optional@) =~= seq!["moves_with"@]);
    assert(words(nothing@) =~= Seq::<Seq<char>>::empty());
    let mut memory = SystemMemory::default();
    assert(memory@ =~= no_systems()) by {
        assert(memory@.systems =~= Seq::<SystemV>::empty());
        assert(memory@.responsibilities =~= Seq::<ResponsibilityV>::empty());
        assert(memory@.seams =~= Seq::<SeamV>::empty());
    }
    let mut i: usize = 0;
    while i < blocks.len()
        invariant
            i <= blocks.len(),
            bs == block_views(blocks@),
            words(purpose@) == seq!["purpose"@],
            words(system_optional@) == seq!["paths"@, "knowledge"@],
            words(owner_statement@) == seq!["owner"@, "statement"@],
            words(seam_required@) == seq!["between"@, "value"@, "statement"@],
            words(seam_optional@) == seq!["moves_with"@],
            words(nothing@) == Seq::<Seq<char>>::empty(),
            stray_keyword(bs, seq!["system"@, "responsibility"@, "seam"@], 0) is None,
            system_fold(bs, i as int, memory@) == system_fold(bs, 0, no_systems()),
        decreases blocks.len() - i,
    {
        let block = &blocks[i];
        assert(bs[i as int] == block@);
        if str_eq(block.keyword.as_str(), "system") {
            match expect_fields(block, &purpose, &system_optional) {
                Ok(()) => {},
                Err(d) => {
                    return Err(d);
                },
            }
            match safe_field(block, "knowledge") {
                Ok(()) => {},
                Err(d) => {
                    return Err(d);
                },
            }
            let p = match text(block, "purpose") {
                Ok(p) => p,
                Err(d) => {
                    return Err(d);
                },
            };
            let system = System {
                name: block.name.clone(),
                purpose: p,
                paths: list(block, "paths"),
                knowledge: list(block, "knowledge"),
            };
            let ghost before = memory@;
            memory.systems.push(system);
            assert(memory@.systems =~= before.systems.push(system@));
        } else if str_eq(block.keyword.as_str(), "responsibility") {
            match expect_fields(block, &owner_statement, &nothing) {
                Ok(()) => {},
                Err(d) => {
                    return Err(d);
                },
            }
            match safe_field(block, "owner") {
                Ok(()) => {},
                Err(d) => {
                    return Err(d);
                },
            }
            let s = match text(block, "statement") {
                Ok(s) => s,
                Err(d) => {
                    return Err(d);
                },
            };
            let o = match text(block, "owner") {
                Ok(o) => o,
                Err(d) => {
                    return Err(d);
                },
            };
            let r = Responsibility { name: block.name.clone(), statement: s, owner: o };
            let ghost before = memory@;
            memory.responsibilities.push(r);
            assert(memory@.responsibilities =~= before.responsibilities.push(r@));
        } else {
            match expect_fields(block, &seam_required, &seam_optional) {
                Ok(()) => {},
                Err(d) => {
                    return Err(d);
                },
            }
            match safe_field(block, "between") {
                Ok(()) => {},
                Err(d) => {
                    return Err(d);
                },
            }
            let s = match text(block, "statement") {
                Ok(s) => s,
                Err(d) => {
                    return Err(d);
                },
            };
            let between = list(block, "between");
            let v = match text(block, "value") {
                Ok(v) => v,
                Err(d) => {
                    return Err(d);
                },
            };
            let seam = Seam {
                name: block.name.clone(),
                statement: s,
                between,
                value: v,
                moves_with: list(block, "moves_with"),
            };
            let ghost before = memory@;
            memory.seams.push(seam);
            assert(memory@.seams =~= before.seams.push(seam@));
        }
        i += 1;
    }
    Ok(memory)
}

/// Each declared name with the kind that declares it.
pub open spec fn system_names(m: SystemMemoryV) -> Seq<(Seq<char>, Seq<char>)> {
    m.systems.map_values(|s: SystemV| (s.name, "a system"@)) + m.responsibilities.map_values(
        |r: ResponsibilityV| (r.name, "a responsibility"@),
    ) + m.seams.map_values(|s: SeamV| (s.name, "a seam"@))
}

/// Whether some system is called `name`.
pub open spec fn known(m: SystemMemoryV, name: Seq<char>) -> bool {
    exists|i: int| 0 <= i < m.systems.len() && (#[trigger] m.systems[i]).name == name
}

pub open spec fn unowned(r: ResponsibilityV) -> Seq<char> {
    "responsibility "@ + debug_quoted(r.name) + " is owned by "@ + debug_quoted(r.owner)
        + ", which is not a declared system"@
}

pub open spec fn sides(s: SeamV) -> Seq<char> {
    "seam "@ + debug_quoted(s.name) + " lists "@ + decimal(s.between.len()) + " sides; a seam is between exactly two systems"@
}

pub open spec fn unknown_side(s: SeamV, side: Seq<char>) -> Seq<char> {
    "seam "@ + debug_quoted(s.name) + " names "@ + debug_quoted(side) + ", which is not a declared system"@
}

/// The problems of the first `n` responsibilities whose owner is no declared system.
pub open spec fn owner_problems(m: SystemMemoryV, n: int) -> Seq<Seq<char>>
    decreases n,
{
    if n <= 0 || n > m.responsibilities.len() {
        Seq::empty()
    } else if !known(m, m.responsibilities[n - 1].owner) {
        owner_problems(m, n - 1).push(unowned(m.responsibilities[n - 1]))
    } else {
        owner_problems(m, n - 1)
    }
}

/// The problems of the first `k` sides of a seam that are no declared system.
pub open spec fn side_problems(m: SystemMemoryV, s: SeamV, k: int) -> Seq<Seq<char>>
    decreases k,
{
    if k <= 0 || k > s.between.len() {
        Seq::empty()
    } else if !known(m, s.between[k - 1]) {
        side_problems(m, s, k - 1).push(unknown_side(s, s.between[k - 1]))
    } else {
        side_problems(m, s, k - 1)
    }
}

/// The problems of one seam: not two sides, and each side that is no declared system.
pub open spec fn seam_problem(m: SystemMemoryV, s: SeamV) -> Seq<Seq<char>> {
    (if s.between.len() != 2 {
        seq![sides(s)]
    } else {
        Seq::empty()
    }) + side_problems(m, s, s.between.len() as int)
}

/// The problems of the first `n` seams.
pub open spec fn seam_problems(m: SystemMemoryV, n: int) -> Seq<Seq<char>>
    decreases n,
{
    if n <= 0 || n > m.seams.len() {
        Seq::empty()
    } else {
        seam_problems(m, n - 1) + seam_problem(m, m.seams[n - 1])
    }
}

/// What is wrong with a system memory.
pub open spec fn system_problems(m: SystemMemoryV) -> Seq<Seq<char>> {
    duplicates(system_names(m)) + owner_problems(m, m.responsibilities.len() as int) + seam_problems(
        m,
        m.seams.len() as int,
    )
}

/// The position of the first system called `name`.
fn find_system(m: &SystemMemory, name: &str) -> (r: Option<usize>)
    ensures
        r is None ==> !known(m@, name@),
        r is Some ==> known(m@, name@),
        r matches Some(i) ==> i < m@.systems.len() && m@.systems[i as int].name == name@ && forall|j: int|
            0 <= j < i ==> (#[trigger] m@.systems[j]).name != name@,
{
    let mut i: usize = 0;
    while i < m.systems.len()
        invariant
            i <= m.systems.len(),
            forall|j: int| 0 <= j < i ==> (#[trigger] m@.systems[j]).name != name@,
        decreases m.systems.len() - i,
    {
        assert(m@.systems[i as int] == m.systems@[i as int]@);
        if str_eq(m.systems[i].name.as_str(), name) {
            return Some(i);
        }
        i += 1;
    }
    None
}

/// The problems of one seam.
fn seam_check(m: &SystemMemory, seam: &Seam) -> (ps: Vec<String>)
    ensures
        texts(ps@) == seam_problem(m@, seam@),
{
    let mut ps: Vec<String> = Vec::new();
    if seam.between.len() != 2 {
        let mut msg = joined("seam ", quoted(seam.name.as_str()).as_str());
        append(&mut msg, " lists ");
        append(&mut msg, decimal_text(seam.between.len() as u64).as_str());
        append(&mut msg, " sides; a seam is between exactly two systems");
        ps.push(msg);
    }
    let ghost head = texts(ps@);
    assert(head =~= (if seam@.between.len() != 2 {
        seq![sides(seam@)]
    } else {
        Seq::<Seq<char>>::empty()
    }));
    let mut k: usize = 0;
    while k < seam.between.len()
        invariant
            k <= seam.between.len(),
            texts(ps@) == head + side_problems(m@, seam@, k as int),
        decreases seam.between.len() - k,
    {
        let side = seam.between[k].as_str();
        assert(seam@.between[k as int] == side@);
        if find_system(m, side).is_none() {
            let mut msg = joined("seam ", quoted(seam.name.as_str()).as_str());
            append(&mut msg, " names ");
            append(&mut msg, quoted(side).as_str());
            append(&mut msg, ", which is not a declared system");
            let ghost before = ps@;
            ps.push(msg);
            assert(texts(ps@) =~= texts(before).push(msg@));
        }
        k += 1;
    }
    ps
}

/// What is wrong with a system memory: a name declared twice, a responsibility owned by no
/// declared system, a seam without exactly two declared systems as its sides.
pub fn validate(memory: &SystemMemory) -> (ps: Vec<String>)
    ensures
        texts(ps@) == system_problems(memory@),
{
    let ghost m = memory@;
    let ghost names = system_names(m);
    let mut declared: Vec<(&str, &str)> = Vec::new();
    let mut i: usize = 0;
    while i < memory.systems.len()
        invariant
            i <= memory.systems.len(),
            m == memory@,
            pairs(declared@) == names.take(i as int),
            names == system_names(m),
        decreases memory.systems.len() - i,
    {
        let ghost before = declared@;
        declared.push((memory.systems[i].name.as_str(), "a system"));
        assert(pairs(declared@) =~= pairs(before).push((m.systems[i as int].name, "a system"@)));
        assert(pairs(declared@) =~= names.take(i + 1));
        i += 1;
    }
    let ghost n1 = memory.systems.len() as int;
    let mut i: usize = 0;
    while i < memory.responsibilities.len()
        invariant
            i <= memory.responsibilities.len(),
            m == memory@,
            n1 == memory.systems.len(),
            pairs(declared@) == names.take(n1 + i),
            names == system_names(m),
        decreases memory.responsibilities.len() - i,
    {
        let ghost before = declared@;
        declared.push((memory.responsibilities[i].name.as_str(), "a responsibility"));
        assert(pairs(declared@) =~= pairs(before).push((m.responsibilities[i as int].name, "a responsibility"@)));
        assert(pairs(declared@) =~= names.take(n1 + i + 1));
        i += 1;
    }
    let ghost n2 = n1 + memory.responsibilities.len();
    let mut i: usize = 0;
    while i < memory.seams.len()
        invariant
            i <= memory.seams.len(),
            m == memory@,
            n2 == memory.systems.len() + memory.responsibilities.len(),
            pairs(declared@) == names.take(n2 + i),
            names == system_names(m),
        decreases memory.seams.len() - i,
    {
        let ghost before = declared@;
        declared.push((memory.seams[i].name.as_str(), "a seam"));
        assert(pairs(declared@) =~= pairs(before).push((m.seams[i as int].name, "a seam"@)));
        assert(pairs(declared@) =~= names.take(n2 + i + 1));
        i += 1;
    }
    assert(names.take(n2 + i) =~= names);
    let mut ps = duplicate_names(&declared);
    let ghost first = texts(ps@);
    let mut i: usize = 0;
    while i < memory.responsibilities.len()
        invariant
            i <= memory.responsibilities.len(),
            m == memory@,
            texts(ps@) == first + owner_problems(m, i as int),
        decreases memory.responsibilities.len() - i,
    {
        let r = &memory.responsibilities[i];
        assert(m.responsibilities[i as int] == r@);
        if find_system(memory, r.owner.as_str()).is_none() {
            let mut msg = joined("responsibility ", quoted(r.name.as_str()).as_str());
            append(&mut msg, " is owned by ");
            append(&mut msg, quoted(r.owner.as_str()).as_str());
            append(&mut msg, ", which is not a declared system");
            let ghost before = ps@;
            ps.push(msg);
            assert(texts(ps@) =~= texts(before).push(msg@));
        }
        i += 1;
    }
    let ghost second = texts(ps@);
    let mut i: usize = 0;
    while i < memory.seams.len()
        invariant
            i <= memory.seams.len(),
            m == memory@,
            texts(ps@) == second + seam_problems(m, i as int),
        decreases memory.seams.len() - i,
    {
        let seam = &memory.seams[i];
        assert(m.seams[i as int] == seam@);
        let mut more = seam_check(memory, seam);
        let ghost before = texts(ps@);
        let ghost extra = texts(more@);
        ps.append(&mut more);
        assert(texts(ps@) =~= before + extra);
        i += 1;
    }
    ps
}

/// What `status` reports of a system memory.
pub open spec fn system_status_of(memory: Memory<SystemMemory>, file: Seq<char>, s: SystemStatus) -> bool {
    &&& s.file@ == file
    &&& s.state@ == state_word(memory)
    &&& texts(s.problems@) == problems_of(memory)
    &&& match memory {
        Memory::Present(m) => texts(s.systems@) == m@.systems.map_values(|x: SystemV| "system::"@ + x.name)
            && s.responsibilities == m.responsibilities@.len() && s.seams == m.seams@.len(),
        _ => s.systems@.len() == 0 && s.responsibilities == 0 && s.seams == 0,
    }
}

/// The state of system memory, or nothing when no statement registers it.
pub fn status(memory: &Memory<SystemMemory>, file: &str) -> (r: Option<SystemStatus>)
    ensures
        memory is Unregistered ==> r is None,
        !(memory is Unregistered) ==> (r matches Some(s) && system_status_of(*memory, file@, s)),
{
    if let Memory::Unregistered = memory {
        return None;
    }
    let (systems, responsibilities, seams) = match memory.present() {
        Some(m) => {
            let mut v: Vec<String> = Vec::new();
            let mut i: usize = 0;
            while i < m.systems.len()
                invariant
                    i <= m.systems.len(),
                    texts(v@) == m@.systems.map_values(|x: SystemV| "system::"@ + x.name).take(i as int),
                decreases m.systems.len() - i,
            {
                let id = joined("system::", m.systems[i].name.as_str());
                assert(m@.systems[i as int] == m.systems@[i as int]@);
                let ghost before = v@;
                v.push(id);
                assert(texts(v@) =~= texts(before).push(id@));
                assert(texts(v@) =~= m@.systems.map_values(|x: SystemV| "system::"@ + x.name).take(i + 1));
                i += 1;
            }
            assert(m@.systems.map_values(|x: SystemV| "system::"@ + x.name).take(i as int) =~= m@.systems.map_values(
                |x: SystemV| "system::"@ + x.name,
            ));
            (v, m.responsibilities.len(), m.seams.len())
        },
        None => (Vec::new(), 0, 0),
    };
    Some(
        SystemStatus {
            file: file.to_owned(),
            state: memory.state(),
            problems: memory.problems(),
            systems,
            responsibilities,
            seams,
        },
    )
}

pub open spec fn system_kinds() -> Seq<Seq<char>> {
    seq!["system"@, "responsibility"@, "seam"@]
}

fn kinds() -> (v: Vec<&'static str>)
    ensures
        words(v@) == system_kinds(),
{
    let v: Vec<&'static str> = vec!["system", "responsibility", "seam"];
    assert(words(v@) =~= system_kinds());
    v
}

pub open spec fn has_responsibility(m: SystemMemoryV, name: Seq<char>) -> bool {
    exists|i: int| 0 <= i < m.responsibilities.len() && (#[trigger] m.responsibilities[i]).name == name
}

pub open spec fn has_seam(m: SystemMemoryV, name: Seq<char>) -> bool {
    exists|i: int| 0 <= i < m.seams.len() && (#[trigger] m.seams[i]).name == name
}

/// The position of the first responsibility called `name`.
fn find_responsibility(m: &SystemMemory, name: &str) -> (r: Option<usize>)
    ensures
        r is None ==> !has_responsibility(m@, name@),
        r is Some ==> has_responsibility(m@, name@),
        r matches Some(i) ==> i < m@.responsibilities.len() && m@.responsibilities[i as int].name == name@
            && forall|j: int| 0 <= j < i ==> (#[trigger] m@.responsibilities[j]).name != name@,
{
    let mut i: usize = 0;
    while i < m.responsibilities.len()
        invariant
            i <= m.responsibilities.len(),
            forall|j: int| 0 <= j < i ==> (#[trigger] m@.responsibilities[j]).name != name@,
        decreases m.responsibilities.len() - i,
    {
        assert(m@.responsibilities[i as int] == m.responsibilities@[i as int]@);
        if str_eq(m.responsibilities[i].name.as_str(), name) {
            return Some(i);
        }
        i += 1;
    }
    None
}

/// The position of the first seam called `name`.
fn find_seam(m: &SystemMemory, name: &str) -> (r: Option<usize>)
    ensures
        r is None ==> !has_seam(m@, name@),
        r is Some ==> has_seam(m@, name@),
        r matches Some(i) ==> i < m@.seams.len() && m@.seams[i as int].name == name@ && forall|j: int|
            0 <= j < i ==> (#[trigger] m@.seams[j]).name != name@,
{
    let mut i: usize = 0;
    while i < m.seams.len()
        invariant
            i <= m.seams.len(),
            forall|j: int| 0 <= j < i ==> (#[trigger] m@.seams[j]).name != name@,
        decreases m.seams.len() - i,
    {
        assert(m@.seams[i as int] == m.seams@[i as int]@);
        if str_eq(m.seams[i].name.as_str(), name) {
            return Some(i);
        }
        i += 1;
    }
    None
}

/// The canonical identities in a system memory that a query names.
pub open spec fn system_canonical(m: SystemMemoryV, query: Seq<char>) -> Seq<Seq<char>> {
    let (w, name) = split_spec(query, system_kinds(), 0);
    let a: Seq<Seq<char>> = if wants(w, "system"@) && known(m, name) {
        seq!["system::"@ + name]
    } else {
        Seq::empty()
    };
    let b = if wants(w, "responsibility"@) && has_responsibility(m, name) {
        a.push("responsibility::"@ + name)
    } else {
        a
    };
    if wants(w, "seam"@) && has_seam(m, name) {
        b.push("seam::"@ + name)
    } else {
        b
    }
}

/// The canonical identities in system memory that a query names: `system::name`,
/// `responsibility::name`, `seam::name`, or a bare name that any can have.
pub fn canonical(memory: &Memory<SystemMemory>, query: &str) -> (found: Vec<String>)
    ensures
        match *memory {
            Memory::Present(m) => texts(found@) == system_canonical(m@, query@),
            _ => found@.len() == 0,
        },
{
    let m = match memory.present() {
        Some(m) => m,
        None => {
            return Vec::new();
        },
    };
    let (w, name) = split(query, &kinds());
    let ghost sw = split_spec(query@, system_kinds(), 0).0;
    assert(split_spec(query@, system_kinds(), 0).1 == name@);
    let mut found: Vec<String> = Vec::new();
    if wanted(w, "system") && find_system(m, name.as_str()).is_some() {
        found.push(joined("system::", name.as_str()));
    }
    let ghost a = texts(found@);
    assert(a =~= (if wants(sw, "system"@) && known(m@, name@) {
        seq!["system::"@ + name@]
    } else {
        Seq::<Seq<char>>::empty()
    }));
    if wanted(w, "responsibility") && find_responsibility(m, name.as_str()).is_some() {
        found.push(joined("responsibility::", name.as_str()));
        assert(texts(found@) =~= a.push("responsibility::"@ + name@));
    }
    let ghost b = texts(found@);
    if wanted(w, "seam") && find_seam(m, name.as_str()).is_some() {
        found.push(joined("seam::", name.as_str()));
        assert(texts(found@) =~= b.push("seam::"@ + name@));
    }
    found
}

/// The other side of a seam from `name`: its first side that is not `name`, or nothing.
pub open spec fn other_side(between: Seq<Seq<char>>, name: Seq<char>) -> Seq<char>
    decreases between.len(),
{
    if between.len() == 0 {
        Seq::empty()
    } else if between[0] != name {
        between[0]
    } else {
        other_side(between.drop_first(), name)
    }
}

/// The lines for the responsibilities (among `rs`) that the system `name` owns.
pub open spec fn owned_lines(rs: Seq<ResponsibilityV>, name: Seq<char>) -> Seq<Seq<char>>
    decreases rs.len(),
{
    if rs.len() == 0 {
        Seq::empty()
    } else if rs.last().owner == name {
        owned_lines(rs.drop_last(), name).push("responsibility::"@ + rs.last().name + "  "@ + rs.last().statement)
    } else {
        owned_lines(rs.drop_last(), name)
    }
}

/// The lines for the seams (among `ss`) that the system `name` is a side of.
pub open spec fn seam_lines(ss: Seq<SeamV>, name: Seq<char>) -> Seq<Seq<char>>
    decreases ss.len(),
{
    if ss.len() == 0 {
        Seq::empty()
    } else if ss.last().between.contains(name) {
        seam_lines(ss.drop_last(), name).push(
            "seam::"@ + ss.last().name + "  with system::"@ + other_side(ss.last().between, name) + ", value "@
                + ss.last().value,
        )
    } else {
        seam_lines(ss.drop_last(), name)
    }
}

/// Whether `v` holds nothing beyond its kind, identity and statement, but for the fields
/// that its own kind fills.
pub open spec fn blank_except(v: SystemExplainView, kind: Seq<char>) -> bool {
    &&& kind != "system"@ ==> v.paths@.len() == 0 && v.owns@.len() == 0 && v.seams@.len() == 0
        && v.knowledge@.len() == 0
    &&& kind != "responsibility"@ ==> v.owner is None
    &&& kind != "seam"@ ==> v.between@.len() == 0 && v.value is None && v.moves_with@.len() == 0
}

/// Whether a query names an entry of a system memory.
pub open spec fn system_explains(m: SystemMemoryV, query: Seq<char>) -> bool {
    let (w, name) = split_spec(query, system_kinds(), 0);
    (wants(w, "system"@) && known(m, name)) || (wants(w, "responsibility"@) && has_responsibility(m, name)) || (
    wants(w, "seam"@) && has_seam(m, name))
}

/// What `explain` says of the entry a query names in a system memory.
pub open spec fn system_explained(m: SystemMemoryV, query: Seq<char>, v: SystemExplainView) -> bool {
    let (w, name) = split_spec(query, system_kinds(), 0);
    if wants(w, "system"@) && known(m, name) {
        let i = choose|i: int|
            0 <= i < m.systems.len() && (#[trigger] m.systems[i]).name == name && forall|j: int|
                0 <= j < i ==> (#[trigger] m.systems[j]).name != name;
        let s = m.systems[i];
        &&& v.kind@ == "system"@
        &&& v.id@ == "system::"@ + s.name
        &&& v.statement@ == s.purpose
        &&& texts(v.paths@) == s.paths
        &&& texts(v.owns@) == owned_lines(m.responsibilities, s.name)
        &&& texts(v.seams@) == seam_lines(m.seams, s.name)
        &&& texts(v.knowledge@) == prefix_all("knowledge::"@, s.knowledge)
        &&& blank_except(v, "system"@)
    } else if wants(w, "responsibility"@) && has_responsibility(m, name) {
        let i = choose|i: int|
            0 <= i < m.responsibilities.len() && (#[trigger] m.responsibilities[i]).name == name && forall|j: int|
                0 <= j < i ==> (#[trigger] m.responsibilities[j]).name != name;
        let r = m.responsibilities[i];
        &&& v.kind@ == "responsibility"@
        &&& v.id@ == "responsibility::"@ + r.name
        &&& v.statement@ == r.statement
        &&& v.owner matches Some(o) && o@ == "system::"@ + r.owner
        &&& blank_except(v, "responsibility"@)
    } else {
        let i = choose|i: int|
            0 <= i < m.seams.len() && (#[trigger] m.seams[i]).name == name && forall|j: int|
                0 <= j < i ==> (#[trigger] m.seams[j]).name != name;
        let s = m.seams[i];
        &&& v.kind@ == "seam"@
        &&& v.id@ == "seam::"@ + s.name
        &&& v.statement@ == s.statement
        &&& texts(v.between@) == prefix_all("system::"@, s.between)
        &&& v.value matches Some(x) && x@ == s.value
        &&& texts(v.moves_with@) == s.moves_with
        &&& blank_except(v, "seam"@)
    }
}

/// The other side of a seam from `name`.
fn other_of(between: &Vec<String>, name: &str) -> (s: String)
    ensures
        s@ == other_side(texts(between@), name@),
{
    let ghost all = texts(between@);
    assert(all.skip(0) =~= all);
    let mut i: usize = 0;
    while i < between.len()
        invariant
            i <= between.len(),
            all == texts(between@),
            other_side(all, name@) == other_side(all.skip(i as int), name@),
        decreases between.len() - i,
    {
        assert(all.skip(i as int).drop_first() =~= all.skip(i + 1));
        assert(all.skip(i as int)[0] == between@[i as int]@);
        if !str_eq(between[i].as_str(), name) {
            return between[i].clone();
        }
        i += 1;
    }
    assert(all.skip(i as int).len() == 0);
    String::new()
}

/// The lines of a system's responsibilities.
fn owns_of(m: &SystemMemory, name: &str) -> (v: Vec<String>)
    ensures
        texts(v@) == owned_lines(m@.responsibilities, name@),
{
    let mut v: Vec<String> = Vec::new();
    assert(texts(v@) =~= Seq::<Seq<char>>::empty());
    let mut i: usize = 0;
    while i < m.responsibilities.len()
        invariant
            i <= m.responsibilities.len(),
            texts(v@) == owned_lines(m@.responsibilities.take(i as int), name@),
        decreases m.responsibilities.len() - i,
    {
        let r = &m.responsibilities[i];
        assert(m@.responsibilities.take(i + 1).drop_last() =~= m@.responsibilities.take(i as int));
        assert(m@.responsibilities.take(i + 1).last() == r@);
        if str_eq(r.owner.as_str(), name) {
            let mut line = joined("responsibility::", r.name.as_str());
            append(&mut line, "  ");
            append(&mut line, r.statement.as_str());
            let ghost before = v@;
            v.push(line);
            assert(texts(v@) =~= texts(before).push(line@));
        }
        i += 1;
    }
    assert(m@.responsibilities.take(i as int) =~= m@.responsibilities);
    v
}

/// The lines of the seams a system is a side of.
fn seams_of(m: &SystemMemory, name: &str) -> (v: Vec<String>)
    ensures
        texts(v@) == seam_lines(m@.seams, name@),
{
    let mut v: Vec<String> = Vec::new();
    assert(texts(v@) =~= Seq::<Seq<char>>::empty());
    let mut i: usize = 0;
    while i < m.seams.len()
        invariant
            i <= m.seams.len(),
            texts(v@) == seam_lines(m@.seams.take(i as int), name@),
        decreases m.seams.len() - i,
    {
        let s = &m.seams[i];
        assert(m@.seams.take(i + 1).drop_last() =~= m@.seams.take(i as int));
        assert(m@.seams.take(i + 1).last() == s@);
        if has_text(&s.between, name) {
            let mut line = joined("seam::", s.name.as_str());
            append(&mut line, "  with system::");
            append(&mut line, other_of(&s.between, name).as_str());
            append(&mut line, ", value ");
            append(&mut line, s.value.as_str());
            let ghost before = v@;
            v.push(line);
            assert(texts(v@) =~= texts(before).push(line@));
        }
        i += 1;
    }
    assert(m@.seams.take(i as int) =~= m@.seams);
    v
}

/// What system memory says of the entry a query names: a system with what it owns, its
/// seams and its knowledge; a responsibility with its owner; a seam with its sides.
pub fn explain(memory: &Memory<SystemMemory>, query: &str) -> (r: Option<SystemExplainView>)
    ensures
        match *memory {
            Memory::Present(m) => if system_explains(m@, query@) {
                r matches Some(v) && system_explained(m@, query@, v)
            } else {
                r is None
            },
            _ => r is None,
        },
{
    let m = match memory.present() {
        Some(m) => m,
        None => {
            return None;
        },
    };
    let (w, name) = split(query, &kinds());
    assert(split_spec(query@, system_kinds(), 0).1 == name@);
    if wanted(w, "system") {
        match find_system(m, name.as_str()) {
            Some(i) => {
                let s = &m.systems[i];
                assert(m@.systems[i as int] == s@);
                return Some(
                    SystemExplainView {
                        kind: "system",
                        id: joined("system::", s.name.as_str()),
                        statement: s.purpose.clone(),
                        paths: copy_strings(&s.paths),
                        owns: owns_of(m, s.name.as_str()),
                        owner: None,
                        between: Vec::new(),
                        value: None,
                        seams: seams_of(m, s.name.as_str()),
                        moves_with: Vec::new(),
                        knowledge: prefixed("knowledge::", &s.knowledge),
                    },
                );
            },
            None => {},
        }
    }
    if wanted(w, "responsibility") {
        match find_responsibility(m, name.as_str()) {
            Some(i) => {
                let r = &m.responsibilities[i];
                assert(m@.responsibilities[i as int] == r@);
                return Some(
                    SystemExplainView {
                        kind: "responsibility",
                        id: joined("responsibility::", r.name.as_str()),
                        statement: r.statement.clone(),
                        paths: Vec::new(),
                        owns: Vec::new(),
                        owner: Some(joined("system::", r.owner.as_str())),
                        between: Vec::new(),
                        value: None,
                        seams: Vec::new(),
                        moves_with: Vec::new(),
                        knowledge: Vec::new(),
                    },
                );
            },
            None => {},
        }
    }
    if wanted(w, "seam") {
        match find_seam(m, name.as_str()) {
            Some(i) => {
                let s = &m.seams[i];
                assert(m@.seams[i as int] == s@);
                return Some(
                    SystemExplainView {
                        kind: "seam",
                        id: joined("seam::", s.name.as_str()),
                        statement: s.statement.clone(),
                        paths: Vec::new(),
                        owns: Vec::new(),
                        owner: None,
                        between: prefixed("system::", &s.between),
                        value: Some(s.value.clone()),
                        seams: Vec::new(),
                        moves_with: copy_strings(&s.moves_with),
                        knowledge: Vec::new(),
                    },
                );
            },
            None => {},
        }
    }
    None
}

/// A system memory that `validate` finds sound names each entry once, every responsibility
/// is owned by a declared system and every seam joins exactly two declared systems.
pub proof fn law_sound_system_memory_resolves(m: SystemMemoryV)
    requires
        system_problems(m).len() == 0,
    ensures
        forall|i: int, j: int|
            0 <= i < j < system_names(m).len() ==> (#[trigger] system_names(m)[i]).0 != (#[trigger] system_names(
                m,
            )[j]).0,
        forall|i: int| 0 <= i < m.responsibilities.len() ==> known(m, (#[trigger] m.responsibilities[i]).owner),
        forall|i: int| 0 <= i < m.seams.len() ==> (#[trigger] m.seams[i]).between.len() == 2,
{
    super::law_no_duplicate_problem_means_distinct_names(system_names(m));
    assert forall|i: int| 0 <= i < m.responsibilities.len() implies known(m, (#[trigger] m.responsibilities[i]).owner) by {
        lemma_owner_problems_empty(m, m.responsibilities.len() as int, i);
    }
    assert forall|i: int| 0 <= i < m.seams.len() implies (#[trigger] m.seams[i]).between.len() == 2 by {
        lemma_seam_problems_empty(m, m.seams.len() as int, i);
    }
}

proof fn lemma_owner_problems_empty(m: SystemMemoryV, n: int, i: int)
    requires
        0 <= i < n <= m.responsibilities.len(),
        owner_problems(m, n).len() == 0,
    ensures
        known(m, m.responsibilities[i].owner),
    decreases n,
{
    if i < n - 1 {
        lemma_owner_problems_empty(m, n - 1, i);
    }
}

proof fn lemma_seam_problems_empty(m: SystemMemoryV, n: int, i: int)
    requires
        0 <= i < n <= m.seams.len(),
        seam_problems(m, n).len() == 0,
    ensures
        m.seams[i].between.len() == 2,
    decreases n,
{
    if i < n - 1 {
        lemma_seam_problems_empty(m, n - 1, i);
    }
}

} // verus!
