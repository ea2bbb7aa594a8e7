use super::syntax::{Block, BlockView, block_views, field_index, texts};
use super::{
    Memory, Refusal, copy_strings, expect_fields, expect_keywords, field_refusal, problems_of, safe_references,
    says, state_word, stray_keyword, text, text_of, unsafe_reference, words,
};
use crate::diagnostic::Diagnostic;
use crate::text::{append, debug_quoted, joined, quoted, starts_with, str_eq};
use vstd::prelude::*;

verus! {

/// Where knowledge memory lives by convention.
pub const DIRECTORY: &'static str = "knowledge";

/// A pack of expertise that routing can point at.
#[derive(Clone, Debug)]
pub struct Pack {
    pub name: String,
    pub purpose: String,
}

/// One ruling of a pack.
#[derive(Clone, Debug)]
pub struct Ruling {
    pub name: String,
    pub pack: String,
    pub statement: String,
}

/// The knowledge memory of a project.
#[derive(Clone, Debug)]
pub struct KnowledgeMemory {
    pub packs: Vec<Pack>,
    pub rulings: Vec<Ruling>,
}

impl Default for KnowledgeMemory {
    fn default() -> (m: Self)
        ensures
            m.packs@.len() == 0,
            m.rulings@.len() == 0,
    {
        KnowledgeMemory { packs: Vec::new(), rulings: Vec::new() }
    }
}

/// What `status` reports of knowledge memory.
#[derive(Clone, Debug)]
pub struct KnowledgeStatus {
    pub files: Vec<String>,
    pub state: &'static str,
    pub problems: Vec<String>,
    pub packs: Vec<String>,
    pub rulings: usize,
}

/// What `explain` says of one pack or ruling.
#[derive(Clone, Debug)]
pub struct KnowledgeExplainView {
    pub kind: &'static str,
    pub id: String,
    pub statement: String,
    pub pack: Option<String>,
    pub rulings: Vec<String>,
}

pub struct PackV {
    pub name: Seq<char>,
    pub purpose: Seq<char>,
}

pub struct RulingV {
    pub name: Seq<char>,
    pub pack: Seq<char>,
    pub statement: Seq<char>,
}

pub struct KnowledgeMemoryV {
    pub packs: Seq<PackV>,
    pub rulings: Seq<RulingV>,
}

impl View for Pack {
    type V = PackV;

    open spec fn view(&self) -> PackV {
        PackV { name: self.name@, purpose: self.purpose@ }
    }
}

impl View for Ruling {
    type V = RulingV;

    open spec fn view(&self) -> RulingV {
        RulingV { name: self.name@, pack: self.pack@, statement: self.statement@ }
    }
}

pub open spec fn pack_views(v: Seq<Pack>) -> Seq<PackV> {
    v.map_values(|p: Pack| p@)
}

pub open spec fn ruling_views(v: Seq<Ruling>) -> Seq<RulingV> {
    v.map_values(|r: Ruling| r@)
}

impl View for KnowledgeMemory {
    type V = KnowledgeMemoryV;

    open spec fn view(&self) -> KnowledgeMemoryV {
        KnowledgeMemoryV { packs: pack_views(self.packs@), rulings: ruling_views(self.rulings@) }
    }
}

/// The canonical identity of a ruling.
pub open spec fn ruling_id(pack: Seq<char>, name: Seq<char>) -> Seq<char> {
    "ruling::"@ + pack + "::"@ + name
}

impl Ruling {
    /// The ruling's canonical identity: `ruling::pack::name`.
    pub fn id(&self) -> (s: String)
        ensures
            s@ == ruling_id(self.pack@, self.name@),
    {
        let mut s = joined("ruling::", self.pack.as_str());
        append(&mut s, "::");
        append(&mut s, self.name.as_str());
        s
    }
}

/// Whether some pack is called `name`.
pub open spec fn declares_spec(m: KnowledgeMemoryV, name: Seq<char>) -> bool {
    exists|i: int| 0 <= i < m.packs.len() && (#[trigger] m.packs[i]).name == name
}

impl KnowledgeMemory {
    /// Whether the memory declares a pack called `pack`.
    pub fn declares(&self, pack: &str) -> (b: bool)
        ensures
            b == declares_spec(self@, pack@),
    {
        match self.find_pack(pack) {
            Some(_) => true,
            None => false,
        }
    }

    /// The position of the first pack called `name`.
    fn find_pack(&self, name: &str) -> (r: Option<usize>)
        ensures
            r is None ==> !declares_spec(self@, name@),
            r is Some ==> declares_spec(self@, name@),
            r matches Some(i) ==> i < self.packs@.len() && self@.packs[i as int].name == name@ && forall|j: int|
                0 <= j < i ==> (#[trigger] self@.packs[j]).name != name@,
    {
        let mut i: usize = 0;
        while i < self.packs.len()
            invariant
                i <= self.packs.len(),
                forall|j: int| 0 <= j < i ==> (#[trigger] self@.packs[j]).name != name@,
            decreases self.packs.len() - i,
        {
            assert(self@.packs[i as int] == self.packs@[i as int]@);
            if str_eq(self.packs[i].name.as_str(), name) {
                return Some(i);
            }
            i += 1;
        }
        None
    }

    /// The names of the declared packs, in order.
    pub fn pack_names(&self) -> (v: Vec<&str>)
        ensures
            words(v@) == self@.packs.map_values(|p: PackV| p.name),
    {
        let mut v: Vec<&str> = Vec::new();
        let mut i: usize = 0;
        while i < self.packs.len()
            invariant
                i <= self.packs.len(),
                words(v@) == self@.packs.map_values(|p: PackV| p.name).take(i as int),
            decreases self.packs.len() - i,
        {
            let ghost before = v@;
            v.push(self.packs[i].name.as_str());
            assert(self@.packs[i as int] == self.packs@[i as int]@);
            assert(words(v@) =~= words(before).push(self.packs@[i as int].name@));
            assert(words(v@) =~= self@.packs.map_values(|p: PackV| p.name).take(i + 1));
            i += 1;
        }
        assert(self@.packs.map_values(|p: PackV| p.name).take(i as int) =~= self@.packs.map_values(
            |p: PackV| p.name,
        ));
        v
    }
}

/// What one declaration adds to the knowledge memory read so far.
pub open spec fn knowledge_step(b: BlockView, acc: KnowledgeMemoryV) -> Result<KnowledgeMemoryV, Refusal> {
    if b.keyword == "knowledge"@ {
        match field_refusal(b, seq!["purpose"@], Seq::empty()) {
            Some(r) => Err(r),
            None => match text_of(b, "purpose"@) {
                Err(r) => Err(r),
                Ok(t) => Ok(
                    KnowledgeMemoryV { packs: acc.packs.push(PackV { name: b.name, purpose: t }), rulings: acc.rulings },
                ),
            },
        }
    } else {
        match field_refusal(b, seq!["pack"@, "statement"@], Seq::empty()) {
            Some(r) => Err(r),
            None => match unsafe_reference(b, "pack"@) {
                Some(r) => Err(r),
                None => match text_of(b, "pack"@) {
                    Err(r) => Err(r),
                    Ok(p) => match text_of(b, "statement"@) {
                        Err(r) => Err(r),
                        Ok(s) => Ok(
                            KnowledgeMemoryV {
                                packs: acc.packs,
                                rulings: acc.rulings.push(RulingV { name: b.name, pack: p, statement: s }),
                            },
                        ),
                    },
                },
            },
        }
    }
}

pub open spec fn knowledge_fold(blocks: Seq<BlockView>, i: int, acc: KnowledgeMemoryV) -> Result<
    KnowledgeMemoryV,
    Refusal,
>
    decreases blocks.len() - i,
{
    if i < 0 || i >= blocks.len() {
        Ok(acc)
    } else {
        match knowledge_step(blocks[i], acc) {
            Err(r) => Err(r),
            Ok(next) => knowledge_fold(blocks, i + 1, next),
        }
    }
}

pub open spec fn no_knowledge() -> KnowledgeMemoryV {
    KnowledgeMemoryV { packs: Seq::empty(), rulings: Seq::empty() }
}

/// The knowledge memory that the declarations of its files state.
pub open spec fn knowledge_built(blocks: Seq<BlockView>) -> Result<KnowledgeMemoryV, Refusal> {
    match stray_keyword(blocks, seq!["knowledge"@, "ruling"@], 0) {
        Some(r) => Err(r),
        None => knowledge_fold(blocks, 0, no_knowledge()),
    }
}

/// The knowledge memory that declarations state: `knowledge` packs and their `ruling`s.
pub fn build(blocks: &[Block]) -> (r: Result<KnowledgeMemory, Diagnostic>)
    ensures
        match knowledge_built(block_views(blocks@)) {
            Ok(m) => r matches Ok(x) && x@ == m,
            Err(e) => r matches Err(d) && says(d, e),
        },
{
    let ghost bs = block_views(blocks@);
    let allowed: Vec<&str> = vec!["knowledge", "ruling"];
    assert(words(allowed@) =~= seq!["knowledge"@, "ruling"@]);
    match expect_keywords(blocks, &allowed) {
        Ok(()) => {},
        Err(d) => {
            return Err(d);
        },
    }
    let purpose: Vec<&str> = vec!["purpose"];
    let ruling_fields: Vec<&str> = vec!["pack", "statement"];
    let nothing: Vec<&str> = Vec::new();
    assert(words(purpose@) =~= seq!["purpose"@]);
    assert(words(ruling_fields@) =~= seq!["pack"@, "statement"@]);
    assert(words(nothing@) =~= Seq::<Seq<char>>::empty());
    let mut memory = KnowledgeMemory::default();
    assert(memory@ =~= no_knowledge()) by {
        assert(pack_views(memory.packs@) =~= Seq::<PackV>::empty());
        assert(ruling_views(memory.rulings@) =~= Seq::<RulingV>::empty());
    }
    let mut i: usize = 0;
    while i < blocks.len()
        invariant
            i <= blocks.len(),
            bs == block_views(blocks@),
            words(purpose@) == seq!["purpose"@],
            words(ruling_fields@) == seq!["pack"@, "statement"@],
            words(nothing@) == Seq::<Seq<char>>::empty(),
            stray_keyword(bs, seq!["knowledge"@, "ruling"@], 0) is None,
            knowledge_fold(bs, i as int, memory@) == knowledge_fold(bs, 0, no_knowledge()),
        decreases blocks.len() - i,
    {
        let block = &blocks[i];
        assert(bs[i as int] == block@);
        if str_eq(block.keyword.as_str(), "knowledge") {
            match expect_fields(block, &purpose, &nothing) {
                Ok(()) => {},
                Err(d) => {
                    return Err(d);
                },
            }
            let p = match text(block, "purpose") {
                Ok(p) => p,
                Err(d) => {
                    return Err(d);
                },
            };
            let pack = Pack { name: block.name.clone(), purpose: p };
            let ghost before = memory.packs@;
            memory.packs.push(pack);
            assert(pack_views(memory.packs@) =~= pack_views(before).push(pack@));
        } else {
            match expect_fields(block, &ruling_fields, &nothing) {
                Ok(()) => {},
                Err(d) => {
                    return Err(d);
                },
            }
            let pf = block.field("pack");
            proof {
                super::syntax::lemma_field_index(block@.fields, "pack"@);
                match field_index(block@.fields, "pack"@) {
                    Some(k) => {
                        assert(block@.fields[k] == block.fields@[k]@);
                    },
                    None => {},
                }
            }
            match safe_references(pf) {
                Ok(()) => {},
                Err(d) => {
                    return Err(d);
                },
            }
            let p = match text(block, "pack") {
                Ok(p) => p,
                Err(d) => {
                    return Err(d);
                },
            };
            let s = match text(block, "statement") {
                Ok(s) => s,
                Err(d) => {
                    return Err(d);
                },
            };
            let ruling = Ruling { name: block.name.clone(), pack: p, statement: s };
            let ghost before = memory.rulings@;
            memory.rulings.push(ruling);
            assert(ruling_views(memory.rulings@) =~= ruling_views(before).push(ruling@));
        }
        i += 1;
    }
    Ok(memory)
}

pub open spec fn pack_twice(name: Seq<char>) -> Seq<char> {
    "the pack "@ + debug_quoted(name) + " is declared twice; knowledge::"@ + name + " must resolve to one pack"@
}

pub open spec fn stray_ruling(r: RulingV) -> Seq<char> {
    "ruling "@ + debug_quoted(r.name) + " belongs to pack "@ + debug_quoted(r.pack) + ", which is not a declared pack"@
}

pub open spec fn ruling_twice(r: RulingV) -> Seq<char> {
    "pack "@ + debug_quoted(r.pack) + " declares the ruling "@ + debug_quoted(r.name)
        + " twice; ruling names are unique inside a pack and may repeat between packs"@
}

pub open spec fn empty_pack(name: Seq<char>) -> Seq<char> {
    "pack "@ + debug_quoted(name) + " declares no ruling; a pack that routing points at must carry expertise"@
}

/// The problems of packs declared twice, among the first `n`.
pub open spec fn pack_problems(packs: Seq<PackV>, n: int) -> Seq<Seq<char>>
    decreases n,
{
    if n <= 0 || n > packs.len() {
        Seq::empty()
    } else if exists|j: int| 0 <= j < n - 1 && (#[trigger] packs[j]).name == packs[n - 1].name {
        pack_problems(packs, n - 1).push(pack_twice(packs[n - 1].name))
    } else {
        pack_problems(packs, n - 1)
    }
}

/// The problems of the first `n` rulings: one that belongs to no declared pack, or one whose
/// identity an earlier ruling of a declared pack already has.
pub open spec fn ruling_problems(m: KnowledgeMemoryV, n: int) -> Seq<Seq<char>>
    decreases n,
{
    if n <= 0 || n > m.rulings.len() {
        Seq::empty()
    } else {
        let r = m.rulings[n - 1];
        if !declares_spec(m, r.pack) {
            ruling_problems(m, n - 1).push(stray_ruling(r))
        } else if exists|j: int|
            0 <= j < n - 1 && declares_spec(m, (#[trigger] m.rulings[j]).pack) && ruling_id(
                m.rulings[j].pack,
                m.rulings[j].name,
            ) == ruling_id(r.pack, r.name) {
            ruling_problems(m, n - 1).push(ruling_twice(r))
        } else {
            ruling_problems(m, n - 1)
        }
    }
}

/// Whether some ruling belongs to the pack `name`.
pub open spec fn has_ruling(m: KnowledgeMemoryV, name: Seq<char>) -> bool {
    exists|i: int| 0 <= i < m.rulings.len() && (#[trigger] m.rulings[i]).pack == name
}

/// The problems of the first `n` packs that carry no ruling.
pub open spec fn empty_packs(m: KnowledgeMemoryV, n: int) -> Seq<Seq<char>>
    decreases n,
{
    if n <= 0 || n > m.packs.len() {
        Seq::empty()
    } else if !has_ruling(m, m.packs[n - 1].name) {
        empty_packs(m, n - 1).push(empty_pack(m.packs[n - 1].name))
    } else {
        empty_packs(m, n - 1)
    }
}

/// What is wrong with a knowledge memory.
pub open spec fn knowledge_problems(m: KnowledgeMemoryV) -> Seq<Seq<char>> {
    pack_problems(m.packs, m.packs.len() as int) + ruling_problems(m, m.rulings.len() as int) + empty_packs(
        m,
        m.packs.len() as int,
    )
}

/// Whether some ruling belongs to the pack `name`.
fn carries_ruling(m: &KnowledgeMemory, name: &str) -> (b: bool)
    ensures
        b == has_ruling(m@, name@),
{
    let mut i: usize = 0;
    while i < m.rulings.len()
        invariant
            i <= m.rulings.len(),
            forall|j: int| 0 <= j < i ==> (#[trigger] m@.rulings[j]).pack != name@,
        decreases m.rulings.len() - i,
    {
        assert(m@.rulings[i as int] == m.rulings@[i as int]@);
        if str_eq(m.rulings[i].pack.as_str(), name) {
            return true;
        }
        i += 1;
    }
    false
}

/// Whether a pack before the `i`th has its name.
fn earlier_pack(m: &KnowledgeMemory, i: usize) -> (b: bool)
    requires
        i < m.packs@.len(),
    ensures
        b == exists|j: int| 0 <= j < i && (#[trigger] m@.packs[j]).name == m@.packs[i as int].name,
{
    let name = m.packs[i].name.as_str();
    assert(m@.packs[i as int] == m.packs@[i as int]@);
    let mut j: usize = 0;
    while j < i
        invariant
            j <= i < m.packs.len(),
            name@ == m@.packs[i as int].name,
            forall|k: int| 0 <= k < j ==> (#[trigger] m@.packs[k]).name != name@,
        decreases i - j,
    {
        assert(m@.packs[j as int] == m.packs@[j as int]@);
        if str_eq(m.packs[j].name.as_str(), name) {
            return true;
        }
        j += 1;
    }
    false
}

/// Whether a ruling before the `i`th, of a declared pack, has its identity.
fn earlier_ruling(m: &KnowledgeMemory, i: usize) -> (b: bool)
    requires
        i < m.rulings@.len(),
    ensures
        b == exists|j: int|
            0 <= j < i && declares_spec(m@, (#[trigger] m@.rulings[j]).pack) && ruling_id(
                m@.rulings[j].pack,
                m@.rulings[j].name,
            ) == ruling_id(m@.rulings[i as int].pack, m@.rulings[i as int].name),
{
    assert(m@.rulings[i as int] == m.rulings@[i as int]@);
    let id = m.rulings[i].id();
    let mut j: usize = 0;
    while j < i
        invariant
            j <= i < m.rulings.len(),
            id@ == ruling_id(m@.rulings[i as int].pack, m@.rulings[i as int].name),
            forall|k: int|
                0 <= k < j ==> !(declares_spec(m@, (#[trigger] m@.rulings[k]).pack) && ruling_id(
                    m@.rulings[k].pack,
                    m@.rulings[k].name,
                ) == id@),
        decreases i - j,
    {
        let other = &m.rulings[j];
        assert(m@.rulings[j as int] == other@);
        if m.declares(other.pack.as_str()) && str_eq(other.id().as_str(), id.as_str()) {
            return true;
        }
        j += 1;
    }
    false
}

/// What is wrong with a knowledge memory: a pack declared twice, a ruling of an undeclared
/// pack or declared twice in its pack, a pack without rulings.
pub fn validate(memory: &KnowledgeMemory) -> (ps: Vec<String>)
    ensures
        texts(ps@) == knowledge_problems(memory@),
{
    let ghost m = memory@;
    let mut ps: Vec<String> = Vec::new();
    assert(texts(ps@) =~= Seq::<Seq<char>>::empty());
    let mut i: usize = 0;
    while i < memory.packs.len()
        invariant
            i <= memory.packs.len(),
            m == memory@,
            texts(ps@) == pack_problems(m.packs, i as int),
        decreases memory.packs.len() - i,
    {
        let name = memory.packs[i].name.as_str();
        assert(m.packs[i as int] == memory.packs@[i as int]@);
        let seen = earlier_pack(memory, i);
        if seen {
            let mut msg = joined("the pack ", quoted(name).as_str());
            append(&mut msg, " is declared twice; knowledge::");
            append(&mut msg, name);
            append(&mut msg, " must resolve to one pack");
            let ghost before = ps@;
            ps.push(msg);
            assert(texts(ps@) =~= texts(before).push(msg@));
        }
        i += 1;
    }
    let ghost first = texts(ps@);
    let mut i: usize = 0;
    while i < memory.rulings.len()
        invariant
            i <= memory.rulings.len(),
            m == memory@,
            texts(ps@) == first + ruling_problems(m, i as int),
        decreases memory.rulings.len() - i,
    {
        let r = &memory.rulings[i];
        assert(m.rulings[i as int] == r@);
        let ghost before = ps@;
        if !memory.declares(r.pack.as_str()) {
            let mut msg = joined("ruling ", quoted(r.name.as_str()).as_str());
            append(&mut msg, " belongs to pack ");
            append(&mut msg, quoted(r.pack.as_str()).as_str());
            append(&mut msg, ", which is not a declared pack");
            ps.push(msg);
            assert(texts(ps@) =~= texts(before).push(msg@));
        } else {
            let seen = earlier_ruling(memory, i);
            if seen {
                let mut msg = joined("pack ", quoted(r.pack.as_str()).as_str());
                append(&mut msg, " declares the ruling ");
                append(&mut msg, quoted(r.name.as_str()).as_str());
                append(&mut msg, " twice; ruling names are unique inside a pack and may repeat between packs");
                ps.push(msg);
                assert(texts(ps@) =~= texts(before).push(msg@));
            }
        }
        i += 1;
    }
    let ghost second = texts(ps@);
    let mut i: usize = 0;
    while i < memory.packs.len()
        invariant
            i <= memory.packs.len(),
            m == memory@,
            texts(ps@) == second + empty_packs(m, i as int),
        decreases memory.packs.len() - i,
    {
        let name = memory.packs[i].name.as_str();
        assert(m.packs[i as int] == memory.packs@[i as int]@);
        if !carries_ruling(memory, name) {
            let mut msg = joined("pack ", quoted(name).as_str());
            append(&mut msg, " declares no ruling; a pack that routing points at must carry expertise");
            let ghost before = ps@;
            ps.push(msg);
            assert(texts(ps@) =~= texts(before).push(msg@));
        }
        i += 1;
    }
    ps
}

/// The identities `knowledge::name` of the declared packs.
pub open spec fn pack_ids(packs: Seq<PackV>) -> Seq<Seq<char>> {
    packs.map_values(|p: PackV| "knowledge::"@ + p.name)
}

/// The state of knowledge memory, read from `files`, or nothing when none is registered.
pub fn status(memory: &Memory<KnowledgeMemory>, files: &Vec<String>) -> (r: Option<KnowledgeStatus>)
    ensures
        memory is Unregistered ==> r is None,
        !(memory is Unregistered) ==> (r matches Some(s) && texts(s.files@) == texts(files@) && s.state@
            == state_word(*memory) && texts(s.problems@) == problems_of(*memory) && match *memory {
            Memory::Present(m) => texts(s.packs@) == pack_ids(m@.packs) && s.rulings == m.rulings@.len(),
            _ => s.packs@.len() == 0 && s.rulings == 0,
        }),
{
    if let Memory::Unregistered = memory {
        return None;
    }
    let (packs, rulings) = match memory.present() {
        Some(m) => {
            let mut v: Vec<String> = Vec::new();
            let mut i: usize = 0;
            while i < m.packs.len()
                invariant
                    i <= m.packs.len(),
                    texts(v@) == pack_ids(m@.packs).take(i as int),
                decreases m.packs.len() - i,
            {
                let id = joined("knowledge::", m.packs[i].name.as_str());
                assert(m@.packs[i as int] == m.packs@[i as int]@);
                let ghost before = v@;
                v.push(id);
                assert(texts(v@) =~= texts(before).push(id@));
                assert(texts(v@) =~= pack_ids(m@.packs).take(i + 1));
                i += 1;
            }
            assert(pack_ids(m@.packs).take(i as int) =~= pack_ids(m@.packs));
            (v, m.rulings.len())
        },
        None => (Vec::new(), 0),
    };
    Some(
        KnowledgeStatus {
            files: copy_strings(files),
            state: memory.state(),
            problems: memory.problems(),
            packs,
            rulings,
        },
    )
}

/// What a knowledge query asks for.
pub enum QueryV {
    Pack(Seq<char>),
    Ruling(Seq<char>, Seq<char>),
    PackRulings(Seq<char>),
    Bare(Seq<char>),
}

/// The first position from `i` on where `s` has `::`.
pub open spec fn double_colon(s: Seq<char>, i: int) -> Option<int>
    decreases s.len() - i,
{
    if i < 0 || i + 1 >= s.len() {
        None
    } else if s[i] == ':' && s[i + 1] == ':' {
        Some(i)
    } else {
        double_colon(s, i + 1)
    }
}

/// What a knowledge query asks for: `knowledge::pack`, `ruling::pack::name`,
/// `ruling::pack`, or a bare name.
pub open spec fn knowledge_query(q: Seq<char>) -> QueryV {
    if starts_with(q, "knowledge::"@) {
        QueryV::Pack(q.skip(11))
    } else if starts_with(q, "ruling::"@) {
        let rest = q.skip(8);
        match double_colon(rest, 0) {
            Some(k) => QueryV::Ruling(rest.take(k), rest.skip(k + 2)),
            None => QueryV::PackRulings(rest),
        }
    } else {
        QueryV::Bare(q)
    }
}

/// The identities of the rulings, in order, of the pack `pack` (any pack when `None`) and
/// called `name` (any name when `None`).
pub open spec fn ruling_ids(rs: Seq<RulingV>, pack: Option<Seq<char>>, name: Option<Seq<char>>) -> Seq<Seq<char>>
    decreases rs.len(),
{
    if rs.len() == 0 {
        Seq::empty()
    } else {
        let r = rs.last();
        let earlier = ruling_ids(rs.drop_last(), pack, name);
        if (pack is None || pack == Some(r.pack)) && (name is None || name == Some(r.name)) {
            earlier.push(ruling_id(r.pack, r.name))
        } else {
            earlier
        }
    }
}

/// The canonical identities in a knowledge memory that a query names.
pub open spec fn knowledge_canonical(m: KnowledgeMemoryV, q: Seq<char>) -> Seq<Seq<char>> {
    match knowledge_query(q) {
        QueryV::Pack(name) => if declares_spec(m, name) {
            seq!["knowledge::"@ + name]
        } else {
            Seq::empty()
        },
        QueryV::Ruling(pack, name) => ruling_ids(m.rulings, Some(pack), Some(name)),
        QueryV::PackRulings(pack) => ruling_ids(m.rulings, Some(pack), None),
        QueryV::Bare(name) => (if declares_spec(m, name) {
            seq!["knowledge::"@ + name]
        } else {
            Seq::empty()
        }) + ruling_ids(m.rulings, None, Some(name)),
    }
}

/// What a knowledge query asks for, in exec form.
enum Query {
    Pack(String),
    Ruling(String, String),
    PackRulings(String),
    Bare(String),
}

/// The first position from `i` on where `s` has `::`.
fn find_double_colon(s: &Vec<char>) -> (r: Option<usize>)
    ensures
        r matches Some(k) ==> double_colon(s@, 0) == Some(k as int) && k + 1 < s@.len(),
        r is None ==> double_colon(s@, 0) is None,
{
    if s.len() == 0 {
        return None;
    }
    let mut i: usize = 0;
    while i < s.len() - 1
        invariant
            i <= s.len(),
            s@.len() > 0,
            double_colon(s@, 0) == double_colon(s@, i as int),
        decreases s.len() - i,
    {
        if s[i] == ':' && s[i + 1] == ':' {
            return Some(i);
        }
        i += 1;
    }
    None
}

fn parse(query: &str) -> (r: Query)
    ensures
        match knowledge_query(query@) {
            QueryV::Pack(n) => r matches Query::Pack(x) && x@ == n,
            QueryV::Ruling(p, n) => r matches Query::Ruling(x, y) && x@ == p && y@ == n,
            QueryV::PackRulings(p) => r matches Query::PackRulings(x) && x@ == p,
            QueryV::Bare(n) => r matches Query::Bare(x) && x@ == n,
        },
{
    proof {
        reveal_strlit("knowledge::");
        reveal_strlit("ruling::");
    }
    match crate::text::strip_prefix_text(query, "knowledge::") {
        Some(rest) => {
            assert("knowledge::"@.len() == 11);
            assert(knowledge_query(query@) == QueryV::Pack(rest@));
            return Query::Pack(rest);
        },
        None => {},
    }
    match crate::text::strip_prefix_text(query, "ruling::") {
        Some(rest) => {
            assert("ruling::"@.len() == 8);
            assert(rest@ == query@.skip(8));
            let cs = crate::text::chars_of(rest.as_str());
            match find_double_colon(&cs) {
                Some(k) => {
                    assert(cs@ == rest@);
                    let n = cs.len();
                    assert(k + 1 < n);
                    let pack = crate::text::string_of_range(cs.as_slice(), 0, k);
                    let name = crate::text::string_of_range(cs.as_slice(), k + 2, n);
                    assert(pack@ =~= rest@.take(k as int));
                    assert(name@ =~= rest@.skip(k + 2));
                    assert(knowledge_query(query@) == QueryV::Ruling(pack@, name@));
                    Query::Ruling(pack, name)
                },
                None => {
                    assert(cs@ == rest@);
                    Query::PackRulings(rest)
                },
            }
        },
        None => Query::Bare(query.to_owned()),
    }
}

/// The identities of the rulings of `pack` (any when `None`) called `name` (any when `None`).
fn rulings_of(m: &KnowledgeMemory, pack: Option<&str>, name: Option<&str>) -> (v: Vec<String>)
    ensures
        texts(v@) == ruling_ids(
            m@.rulings,
            match pack {
                Some(p) => Some(p@),
                None => None,
            },
            match name {
                Some(n) => Some(n@),
                None => None,
            },
        ),
{
    let ghost pv = match pack {
        Some(p) => Some(p@),
        None => None::<Seq<char>>,
    };
    let ghost nv = match name {
        Some(n) => Some(n@),
        None => None::<Seq<char>>,
    };
    let mut v: Vec<String> = Vec::new();
    assert(texts(v@) =~= Seq::<Seq<char>>::empty());
    let mut i: usize = 0;
    while i < m.rulings.len()
        invariant
            i <= m.rulings.len(),
            texts(v@) == ruling_ids(m@.rulings.take(i as int), pv, nv),
            pv == match pack {
                Some(p) => Some(p@),
                None => None::<Seq<char>>,
            },
            nv == match name {
                Some(n) => Some(n@),
                None => None::<Seq<char>>,
            },
        decreases m.rulings.len() - i,
    {
        let r = &m.rulings[i];
        assert(m@.rulings.take(i + 1).drop_last() =~= m@.rulings.take(i as int));
        assert(m@.rulings.take(i + 1).last() == r@);
        let pack_ok = match pack {
            Some(p) => str_eq(r.pack.as_str(), p),
            None => true,
        };
        let name_ok = match name {
            Some(n) => str_eq(r.name.as_str(), n),
            None => true,
        };
        if pack_ok && name_ok {
            let id = r.id();
            let ghost before = v@;
            v.push(id);
            assert(texts(v@) =~= texts(before).push(id@));
        }
        i += 1;
    }
    assert(m@.rulings.take(i as int) =~= m@.rulings);
    v
}

/// The canonical identities in knowledge memory that a query names.
pub fn canonical(memory: &Memory<KnowledgeMemory>, query: &str) -> (found: Vec<String>)
    ensures
        match *memory {
            Memory::Present(m) => texts(found@) == knowledge_canonical(m@, query@),
            _ => found@.len() == 0,
        },
{
    let m = match memory.present() {
        Some(m) => m,
        None => {
            return Vec::new();
        },
    };
    match parse(query) {
        Query::Pack(name) => {
            if m.declares(name.as_str()) {
                let v = vec![joined("knowledge::", name.as_str())];
                assert(texts(v@) =~= seq!["knowledge::"@ + name@]);
                v
            } else {
                let v: Vec<String> = Vec::new();
                assert(texts(v@) =~= Seq::<Seq<char>>::empty());
                v
            }
        },
        Query::Ruling(pack, name) => rulings_of(m, Some(pack.as_str()), Some(name.as_str())),
        Query::PackRulings(pack) => rulings_of(m, Some(pack.as_str()), None),
        Query::Bare(name) => {
            let mut v: Vec<String> = Vec::new();
            if m.declares(name.as_str()) {
                v.push(joined("knowledge::", name.as_str()));
            }
            let ghost head = texts(v@);
            assert(head =~= (if declares_spec(m@, name@) {
                seq!["knowledge::"@ + name@]
            } else {
                Seq::<Seq<char>>::empty()
            }));
            let mut more = rulings_of(m, None, Some(name.as_str()));
            let ghost tail = texts(more@);
            v.append(&mut more);
            assert(texts(v@) =~= head + tail);
            v
        },
    }
}

/// Whether a query names a pack or a ruling of a knowledge memory.
pub open spec fn knowledge_explains(m: KnowledgeMemoryV, q: Seq<char>) -> bool {
    match knowledge_query(q) {
        QueryV::Pack(name) => declares_spec(m, name),
        QueryV::Bare(name) => declares_spec(m, name),
        QueryV::Ruling(pack, name) => exists|i: int|
            0 <= i < m.rulings.len() && (#[trigger] m.rulings[i]).pack == pack && m.rulings[i].name == name,
        QueryV::PackRulings(_) => false,
    }
}

/// What `explain` says of the pack or ruling a query names.
pub open spec fn knowledge_explained(m: KnowledgeMemoryV, q: Seq<char>, v: KnowledgeExplainView) -> bool {
    match knowledge_query(q) {
        QueryV::Ruling(pack, name) => {
            let i = choose|i: int|
                0 <= i < m.rulings.len() && (#[trigger] m.rulings[i]).pack == pack && m.rulings[i].name == name
                    && forall|j: int|
                    0 <= j < i ==> !((#[trigger] m.rulings[j]).pack == pack && m.rulings[j].name == name);
            &&& v.kind@ == "ruling"@
            &&& v.id@ == ruling_id(m.rulings[i].pack, m.rulings[i].name)
            &&& v.statement@ == m.rulings[i].statement
            &&& v.pack matches Some(p) && p@ == "knowledge::"@ + m.rulings[i].pack
            &&& v.rulings@.len() == 0
        },
        _ => {
            let name = match knowledge_query(q) {
                QueryV::Pack(n) => n,
                QueryV::Bare(n) => n,
                _ => Seq::empty(),
            };
            let i = choose|i: int|
                0 <= i < m.packs.len() && (#[trigger] m.packs[i]).name == name && forall|j: int|
                    0 <= j < i ==> (#[trigger] m.packs[j]).name != name;
            &&& v.kind@ == "knowledge"@
            &&& v.id@ == "knowledge::"@ + m.packs[i].name
            &&& v.statement@ == m.packs[i].purpose
            &&& v.pack is None
            &&& texts(v.rulings@) == ruling_ids(m.rulings, Some(m.packs[i].name), None)
        },
    }
}

/// The position of the first ruling of `pack` called `name`.
fn find_ruling(m: &KnowledgeMemory, pack: &str, name: &str) -> (r: Option<usize>)
    ensures
        r is None ==> !exists|i: int|
            0 <= i < m@.rulings.len() && (#[trigger] m@.rulings[i]).pack == pack@ && m@.rulings[i].name == name@,
        r matches Some(i) ==> i < m@.rulings.len() && m@.rulings[i as int].pack == pack@ && m@.rulings[i as int].name
            == name@ && forall|j: int|
            0 <= j < i ==> !((#[trigger] m@.rulings[j]).pack == pack@ && m@.rulings[j].name == name@),
{
    let mut i: usize = 0;
    while i < m.rulings.len()
        invariant
            i <= m.rulings.len(),
            forall|j: int|
                0 <= j < i ==> !((#[trigger] m@.rulings[j]).pack == pack@ && m@.rulings[j].name == name@),
        decreases m.rulings.len() - i,
    {
        let r = &m.rulings[i];
        assert(m@.rulings[i as int] == r@);
        if str_eq(r.pack.as_str(), pack) && str_eq(r.name.as_str(), name) {
            return Some(i);
        }
        i += 1;
    }
    None
}

/// What knowledge memory says of the pack or ruling a query names.
pub fn explain(memory: &Memory<KnowledgeMemory>, query: &str) -> (r: Option<KnowledgeExplainView>)
    ensures
        match *memory {
            Memory::Present(m) => if knowledge_explains(m@, query@) {
                r matches Some(v) && knowledge_explained(m@, query@, v)
            } else {
                r is None
            },
            _ => r is None,
        },
{
    let m = match memory.present() {
        Some(m) => m,
        None => {
            return None;
        },
    };
    let q = parse(query);
    let pack_name = match &q {
        Query::Pack(n) => Some(n),
        Query::Bare(n) => Some(n),
        _ => None,
    };
    match pack_name {
        Some(name) => {
            match m.find_pack(name.as_str()) {
                Some(i) => {
                    let pack = &m.packs[i];
                    assert(m@.packs[i as int] == pack@);
                    return Some(
                        KnowledgeExplainView {
                            kind: "knowledge",
                            id: joined("knowledge::", pack.name.as_str()),
                            statement: pack.purpose.clone(),
                            pack: None,
                            rulings: rulings_of(m, Some(pack.name.as_str()), None),
                        },
                    );
                },
                None => {
                    return None;
                },
            }
        },
        None => {},
    }
    match q {
        Query::Ruling(pack, name) => {
            match find_ruling(m, pack.as_str(), name.as_str()) {
                Some(i) => {
                    let r = &m.rulings[i];
                    assert(m@.rulings[i as int] == r@);
                    Some(
                        KnowledgeExplainView {
                            kind: "ruling",
                            id: r.id(),
                            statement: r.statement.clone(),
                            pack: Some(joined("knowledge::", r.pack.as_str())),
                            rulings: Vec::new(),
                        },
                    )
                },
                None => None,
            }
        },
        _ => None,
    }
}

/// A knowledge memory that `validate` finds sound resolves every reference: each ruling
/// belongs to a declared pack, and each pack carries at least one ruling.
pub proof fn law_sound_knowledge_resolves(m: KnowledgeMemoryV)
    requires
        knowledge_problems(m).len() == 0,
    ensures
        forall|i: int| 0 <= i < m.rulings.len() ==> declares_spec(m, (#[trigger] m.rulings[i]).pack),
        forall|i: int| 0 <= i < m.packs.len() ==> has_ruling(m, (#[trigger] m.packs[i]).name),
{
    assert forall|i: int| 0 <= i < m.rulings.len() implies declares_spec(m, (#[trigger] m.rulings[i]).pack) by {
        lemma_ruling_problems_empty(m, m.rulings.len() as int, i);
    }
    assert forall|i: int| 0 <= i < m.packs.len() implies has_ruling(m, (#[trigger] m.packs[i]).name) by {
        lemma_empty_packs_empty(m, m.packs.len() as int, i);
    }
}

proof fn lemma_ruling_problems_empty(m: KnowledgeMemoryV, n: int, i: int)
    requires
        0 <= i < n <= m.rulings.len(),
        ruling_problems(m, n).len() == 0,
    ensures
        declares_spec(m, m.rulings[i].pack),
    decreases n,
{
    if i < n - 1 {
        lemma_ruling_problems_empty(m, n - 1, i);
    }
}

proof fn lemma_empty_packs_empty(m: KnowledgeMemoryV, n: int, i: int)
    requires
        0 <= i < n <= m.packs.len(),
        empty_packs(m, n).len() == 0,
    ensures
        has_ruling(m, m.packs[i].name),
    decreases n,
{
    if i < n - 1 {
        lemma_empty_packs_empty(m, n - 1, i);
    }
}

} // verus!
