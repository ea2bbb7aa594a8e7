use super::Memory;
use super::knowledge::{KnowledgeMemory, PackV, declares_spec};
use super::process::{PolicyV, ProcessMemory, RoleV};
use super::syntax::texts;
use super::system::{SystemMemory, SystemV};
use super::{state_word, words};
use crate::text::{append, debug_quoted, join, joined, quoted};
use vstd::prelude::*;

verus! {

/// The declared names as a list: `none`, or the names separated by commas.
pub open spec fn declared_list(names: Seq<Seq<char>>) -> Seq<char> {
    if names.len() == 0 {
        "none"@
    } else {
        join(names, ", "@)
    }
}

/// Why the knowledge pack `pack` does not resolve, or nothing when it does.
pub open spec fn unresolved_spec(knowledge: Memory<KnowledgeMemory>, pack: Seq<char>) -> Option<Seq<char>> {
    match knowledge {
        Memory::Present(m) => if declares_spec(m@, pack) {
            None
        } else {
            Some(
                "no registered pack declares it; declared packs are "@ + declared_list(
                    m@.packs.map_values(|p: PackV| p.name),
                ),
            )
        },
        Memory::Unregistered => Some(unregistered_reason()),
        Memory::Ignored(_) => Some(unregistered_reason()),
        other => Some("knowledge memory is "@ + state_word(other) + ", so no pack resolves"@),
    }
}

pub open spec fn unregistered_reason() -> Seq<char> {
    "no knowledge memory is registered; register the pack with `knowledge \"path\"` in project.bla"@
}

/// The declared names as a list.
fn declared(names: &Vec<&str>) -> (s: String)
    ensures
        s@ == declared_list(words(names@)),
{
    if names.len() == 0 {
        return "none".to_owned();
    }
    let mut v: Vec<String> = Vec::new();
    let mut i: usize = 0;
    while i < names.len()
        invariant
            i <= names.len(),
            texts(v@) == words(names@).take(i as int),
        decreases names.len() - i,
    {
        let ghost before = v@;
        v.push(names[i].to_owned());
        assert(texts(v@) =~= texts(before).push(names@[i as int]@));
        assert(texts(v@) =~= words(names@).take(i + 1));
        i += 1;
    }
    assert(words(names@).take(i as int) =~= words(names@));
    crate::text::join_strings(&v, ", ")
}

/// Why the knowledge pack `pack` does not resolve.
fn unresolved(knowledge: &Memory<KnowledgeMemory>, pack: &str) -> (r: Option<String>)
    ensures
        match unresolved_spec(*knowledge, pack@) {
            Some(t) => r matches Some(s) && s@ == t,
            None => r is None,
        },
{
    match knowledge {
        Memory::Present(m) => {
            if m.declares(pack) {
                None
            } else {
                let mut s = "no registered pack declares it; declared packs are ".to_owned();
                append(&mut s, declared(&m.pack_names()).as_str());
                Some(s)
            }
        },
        Memory::Unregistered | Memory::Ignored(_) => Some(
            "no knowledge memory is registered; register the pack with `knowledge \"path\"` in project.bla".to_owned(),
        ),
        other => {
            let mut s = joined("knowledge memory is ", other.state());
            append(&mut s, ", so no pack resolves");
            Some(s)
        },
    }
}

/// The problems of the first `k` packs that a holder (described by `who`) consults.
pub open spec fn pack_problems(
    knowledge: Memory<KnowledgeMemory>,
    who: Seq<char>,
    verb: Seq<char>,
    packs: Seq<Seq<char>>,
    k: int,
) -> Seq<Seq<char>>
    decreases k,
{
    if k <= 0 || k > packs.len() {
        Seq::empty()
    } else {
        let earlier = pack_problems(knowledge, who, verb, packs, k - 1);
        match unresolved_spec(knowledge, packs[k - 1]) {
            Some(reason) => earlier.push(
                who + verb + "knowledge pack "@ + debug_quoted(packs[k - 1]) + ", but "@ + reason,
            ),
            None => earlier,
        }
    }
}

/// The problems of each pack that a holder names and that does not resolve.
fn check_packs(knowledge: &Memory<KnowledgeMemory>, who: &str, verb: &str, packs: &Vec<String>) -> (ps: Vec<
    String,
>)
    ensures
        texts(ps@) == pack_problems(*knowledge, who@, verb@, texts(packs@), packs@.len() as int),
{
    let mut ps: Vec<String> = Vec::new();
    assert(texts(ps@) =~= Seq::<Seq<char>>::empty());
    let mut k: usize = 0;
    while k < packs.len()
        invariant
            k <= packs.len(),
            texts(ps@) == pack_problems(*knowledge, who@, verb@, texts(packs@), k as int),
        decreases packs.len() - k,
    {
        let pack = packs[k].as_str();
        assert(texts(packs@)[k as int] == pack@);
        match unresolved(knowledge, pack) {
            Some(reason) => {
                let mut m = joined(who, verb);
                append(&mut m, "knowledge pack ");
                append(&mut m, quoted(pack).as_str());
                append(&mut m, ", but ");
                append(&mut m, reason.as_str());
                let ghost before = ps@;
                ps.push(m);
                assert(texts(ps@) =~= texts(before).push(m@));
            },
            None => {},
        }
        k += 1;
    }
    ps
}

/// The problems of the first `n` systems' knowledge packs.
pub open spec fn systems_routing(knowledge: Memory<KnowledgeMemory>, systems: Seq<SystemV>, n: int) -> Seq<
    Seq<char>,
>
    decreases n,
{
    if n <= 0 || n > systems.len() {
        Seq::empty()
    } else {
        let s = systems[n - 1];
        systems_routing(knowledge, systems, n - 1) + pack_problems(
            knowledge,
            "system "@ + debug_quoted(s.name),
            " names "@,
            s.knowledge,
            s.knowledge.len() as int,
        )
    }
}

/// The knowledge packs that systems name and that do not resolve.
pub fn system_problems(system: &SystemMemory, knowledge: &Memory<KnowledgeMemory>) -> (ps: Vec<String>)
    ensures
        texts(ps@) == systems_routing(*knowledge, system@.systems, system@.systems.len() as int),
{
    let mut ps: Vec<String> = Vec::new();
    assert(texts(ps@) =~= Seq::<Seq<char>>::empty());
    let mut i: usize = 0;
    while i < system.systems.len()
        invariant
            i <= system.systems.len(),
            texts(ps@) == systems_routing(*knowledge, system@.systems, i as int),
        decreases system.systems.len() - i,
    {
        let s = &system.systems[i];
        assert(system@.systems[i as int] == s@);
        let who = joined("system ", quoted(s.name.as_str()).as_str());
        let mut more = check_packs(knowledge, who.as_str(), " names ", &s.knowledge);
        let ghost before = texts(ps@);
        let ghost extra = texts(more@);
        ps.append(&mut more);
        assert(texts(ps@) =~= before + extra);
        i += 1;
    }
    ps
}

/// The problems of the first `n` roles' consulted packs.
pub open spec fn roles_routing(knowledge: Memory<KnowledgeMemory>, roles: Seq<RoleV>, n: int) -> Seq<Seq<char>>
    decreases n,
{
    if n <= 0 || n > roles.len() {
        Seq::empty()
    } else {
        let r = roles[n - 1];
        roles_routing(knowledge, roles, n - 1) + pack_problems(
            knowledge,
            "role "@ + debug_quoted(r.name),
            " consults "@,
            r.consult,
            r.consult.len() as int,
        )
    }
}

/// The problems of the first `n` policies' consulted packs.
pub open spec fn policies_routing(knowledge: Memory<KnowledgeMemory>, policies: Seq<PolicyV>, n: int) -> Seq<
    Seq<char>,
>
    decreases n,
{
    if n <= 0 || n > policies.len() {
        Seq::empty()
    } else {
        let p = policies[n - 1];
        policies_routing(knowledge, policies, n - 1) + pack_problems(
            knowledge,
            "policy "@ + debug_quoted(p.name),
            " consults "@,
            p.consult,
            p.consult.len() as int,
        )
    }
}

/// The knowledge packs that roles and policies consult and that do not resolve.
pub fn process_problems(process: &ProcessMemory, knowledge: &Memory<KnowledgeMemory>) -> (ps: Vec<String>)
    ensures
        texts(ps@) == roles_routing(*knowledge, process@.roles, process@.roles.len() as int) + policies_routing(
            *knowledge,
            process@.policies,
            process@.policies.len() as int,
        ),
{
    let mut ps: Vec<String> = Vec::new();
    assert(texts(ps@) =~= Seq::<Seq<char>>::empty());
    let mut i: usize = 0;
    while i < process.roles.len()
        invariant
            i <= process.roles.len(),
            texts(ps@) == roles_routing(*knowledge, process@.roles, i as int),
        decreases process.roles.len() - i,
    {
        let r = &process.roles[i];
        assert(process@.roles[i as int] == r@);
        let who = joined("role ", quoted(r.name.as_str()).as_str());
        let mut more = check_packs(knowledge, who.as_str(), " consults ", &r.consult);
        let ghost before = texts(ps@);
        let ghost extra = texts(more@);
        ps.append(&mut more);
        assert(texts(ps@) =~= before + extra);
        i += 1;
    }
    let ghost first = texts(ps@);
    let mut i: usize = 0;
    while i < process.policies.len()
        invariant
            i <= process.policies.len(),
            texts(ps@) == first + policies_routing(*knowledge, process@.policies, i as int),
        decreases process.policies.len() - i,
    {
        let p = &process.policies[i];
        assert(process@.policies[i as int] == p@);
        let who = joined("policy ", quoted(p.name.as_str()).as_str());
        let mut more = check_packs(knowledge, who.as_str(), " consults ", &p.consult);
        let ghost before = texts(ps@);
        let ghost extra = texts(more@);
        ps.append(&mut more);
        assert(texts(ps@) =~= before + extra);
        i += 1;
    }
    ps
}

} // verus!
