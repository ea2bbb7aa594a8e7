use vstd::prelude::*;
use crate::cli::init::{contains, contains_text};
use crate::diagnostic::{Diagnostic, Location, Span};
use crate::structure::{RuleResult, StructureReport};
use crate::project::{Group, Rule, manifest_refusal, offer, offer_spec, strings_view, unknown_identity_message};
use crate::text::{
    append, chars_of, decimal, decimal_text, first_at, joined, occurs, occurs_at, starts_with, str_eq,
    strip_prefix_text, string_of,
};

verus! {

/// A structure rule as a query can name it: its qualified id and its label, with its text
/// and where it is written.
pub struct Named {
    pub id: String,
    pub label: String,
    pub source: String,
    pub location: Location,
}

/// What a query names in a project: a rule, a structure rule or a contract (by index), or an
/// action (by name).
#[derive(Clone)]
pub enum Lookup {
    Rule(usize),
    Structure(usize),
    Contract(usize),
    Action(String),
}

pub enum LookupV {
    Rule(int),
    Structure(int),
    Contract(int),
    Action(Seq<char>),
}

impl View for Lookup {
    type V = LookupV;

    open spec fn view(&self) -> LookupV {
        match self {
            Lookup::Rule(i) => LookupV::Rule(*i as int),
            Lookup::Structure(i) => LookupV::Structure(*i as int),
            Lookup::Contract(i) => LookupV::Contract(*i as int),
            Lookup::Action(n) => LookupV::Action(n@),
        }
    }
}

/// What a query is looked up among: the manifest as shown, the project name, the actions of
/// the compiled contract (none without one), the contract groups, the rules and the
/// structure rules.
pub struct LookupSpace {
    pub manifest: String,
    pub project: String,
    pub actions: Option<Vec<String>>,
    pub groups: Vec<Group>,
    pub rules: Vec<Rule>,
    pub structure: Vec<Named>,
}

/// A refusal: its code and message.
pub type Refusal = (Seq<char>, Seq<char>);

/// The rules, then the structure rules, are the candidates a query is matched against.
pub open spec fn cand_count(s: LookupSpace) -> int {
    (s.rules@.len() + s.structure@.len()) as int
}

pub open spec fn cand_id(s: LookupSpace, c: int) -> Seq<char> {
    if c < s.rules@.len() {
        s.rules@[c].id@
    } else {
        s.structure@[c - s.rules@.len()].id@
    }
}

pub open spec fn cand_label(s: LookupSpace, c: int) -> Seq<char> {
    if c < s.rules@.len() {
        s.rules@[c].label@
    } else {
        s.structure@[c - s.rules@.len()].label@
    }
}

pub open spec fn cand_lookup(s: LookupSpace, c: int) -> LookupV {
    if c < s.rules@.len() {
        LookupV::Rule(c)
    } else {
        LookupV::Structure(c - s.rules@.len())
    }
}

/// The id of what a lookup names: a contract as `contract::<group>`.
pub open spec fn lookup_id(s: LookupSpace, l: LookupV) -> Seq<char> {
    match l {
        LookupV::Rule(i) => s.rules@[i].id@,
        LookupV::Structure(i) => s.structure@[i].id@,
        LookupV::Contract(i) => "contract::"@ + s.groups@[i].name@,
        LookupV::Action(n) => n,
    }
}

/// The first candidate from `c` on whose id is `id`.
pub open spec fn first_cand(s: LookupSpace, id: Seq<char>, c: int) -> Option<int>
    decreases cand_count(s) - c,
{
    if c < 0 || c >= cand_count(s) {
        None
    } else if cand_id(s, c) == id {
        Some(c)
    } else {
        first_cand(s, id, c + 1)
    }
}

/// The first group from `i` on called `name`.
pub open spec fn first_group(groups: Seq<Group>, name: Seq<char>, i: int) -> Option<int>
    decreases groups.len() - i,
{
    if i < 0 || i >= groups.len() {
        None
    } else if groups[i].name@ == name {
        Some(i)
    } else {
        first_group(groups, name, i + 1)
    }
}

/// The candidates among the first `n` whose label is `q` (`by_label`), or whose id holds `q`.
pub open spec fn matching(s: LookupSpace, q: Seq<char>, n: int, by_label: bool) -> Seq<int>
    decreases n,
{
    if n <= 0 {
        Seq::empty()
    } else {
        let c = n - 1;
        let hit = if by_label {
            cand_label(s, c) == q
        } else {
            contains_text(cand_id(s, c), q)
        };
        if hit {
            matching(s, q, n - 1, by_label).push(c)
        } else {
            matching(s, q, n - 1, by_label)
        }
    }
}

/// The candidates a partial query narrows to: those labelled so, else those whose id holds it.
pub open spec fn narrowed(s: LookupSpace, q: Seq<char>) -> Seq<int> {
    let labelled = matching(s, q, cand_count(s), true);
    if labelled.len() > 0 {
        labelled
    } else {
        matching(s, q, cand_count(s), false)
    }
}

/// A query up to its first `/root`.
pub open spec fn root_cut(q: Seq<char>) -> Seq<char> {
    match first_at(q, "/root"@, 0) {
        Some(k) => q.take(k),
        None => q,
    }
}

pub open spec fn unknown_rule_message(q: Seq<char>, project: Seq<char>) -> Seq<char> {
    "no rule matches '"@ + q + "' in project "@ + project + "; run `blabla status` for the current rule ids"@
}

pub open spec fn coarse_message(q: Seq<char>, group: Seq<char>) -> Seq<char> {
    "'"@ + q + "' is the group of a contract, not an identity; run: blabla explain contract::"@ + group
}

pub open spec fn ambiguous_message(q: Seq<char>, ids: Seq<Seq<char>>) -> Seq<char> {
    "'"@ + q + "' is not a canonical identity and matches "@ + decimal(ids.len()) + " rules; run one of: "@
        + offer_spec(ids)
}

pub open spec fn ids_of(s: LookupSpace, cs: Seq<int>) -> Seq<Seq<char>> {
    cs.map_values(|c: int| cand_id(s, c))
}

/// What `q` names in the project, or why it names nothing: `action/<name>` names an action of
/// the contract; `contract::<group>` a group; otherwise (up to any `/root`) the rule or
/// structure rule with that id, else the one that the label or a part of the id narrows to.
pub open spec fn lookup_spec(s: LookupSpace, q: Seq<char>) -> Result<LookupV, Refusal> {
    let unknown = Err(("E_UNKNOWN_RULE"@, unknown_rule_message(q, s.project@)));
    if starts_with(q, "action/"@) {
        let name = q.skip(7);
        if s.actions matches Some(a) && strings_view(a@).contains(name) {
            Ok(LookupV::Action(name))
        } else {
            unknown
        }
    } else {
        let cand = root_cut(q);
        if starts_with(cand, "contract::"@) {
            match first_group(s.groups@, cand.skip(10), 0) {
                Some(k) => Ok(LookupV::Contract(k)),
                None => unknown,
            }
        } else {
            match first_cand(s, cand, 0) {
                Some(c) => Ok(cand_lookup(s, c)),
                None => match first_group(s.groups@, cand, 0) {
                    Some(k) => Err(("E_COARSE_IDENTITY"@, coarse_message(q, s.groups@[k].name@))),
                    None => {
                        let n = narrowed(s, cand);
                        if n.len() == 1 {
                            Ok(cand_lookup(s, n[0]))
                        } else if n.len() == 0 {
                            unknown
                        } else {
                            Err(("E_AMBIGUOUS_RULE"@, ambiguous_message(q, ids_of(s, n))))
                        }
                    },
                },
            }
        }
    }
}

/// Whether `d` is the refusal `r`, placed at the head of the manifest.
pub open spec fn refuses(d: Diagnostic, s: LookupSpace, r: Refusal) -> bool {
    manifest_refusal(d, s.manifest@, r.0, r.1)
}

proof fn lemma_first_cand_range(s: LookupSpace, id: Seq<char>, c: int)
    ensures
        first_cand(s, id, c) matches Some(k) ==> c <= k < cand_count(s) && cand_id(s, k) == id,
    decreases cand_count(s) - c,
{
    if 0 <= c < cand_count(s) && cand_id(s, c) != id {
        lemma_first_cand_range(s, id, c + 1);
    }
}

proof fn lemma_first_group_range(groups: Seq<Group>, name: Seq<char>, i: int)
    ensures
        first_group(groups, name, i) matches Some(k) ==> i <= k < groups.len() && groups[k].name@ == name,
    decreases groups.len() - i,
{
    if 0 <= i < groups.len() && groups[i].name@ != name {
        lemma_first_group_range(groups, name, i + 1);
    }
}

proof fn lemma_matching_range(s: LookupSpace, q: Seq<char>, n: int, by_label: bool)
    ensures
        forall|j: int| 0 <= j < matching(s, q, n, by_label).len() ==> 0 <= #[trigger] matching(s, q, n, by_label)[j] < n,
        matching(s, q, n, by_label).len() <= if n < 0 { 0 } else { n },
    decreases n,
{
    if n > 0 {
        lemma_matching_range(s, q, n - 1, by_label);
    }
}

fn cand_id_of(s: &LookupSpace, c: usize) -> (id: &String)
    requires
        c < cand_count(*s),
    ensures
        id@ == cand_id(*s, c as int),
{
    if c < s.rules.len() {
        &s.rules[c].id
    } else {
        &s.structure[c - s.rules.len()].id
    }
}

fn cand_label_of(s: &LookupSpace, c: usize) -> (l: &String)
    requires
        c < cand_count(*s),
    ensures
        l@ == cand_label(*s, c as int),
{
    if c < s.rules.len() {
        &s.rules[c].label
    } else {
        &s.structure[c - s.rules.len()].label
    }
}

fn cand_lookup_of(s: &LookupSpace, c: usize) -> (l: Lookup)
    requires
        c < cand_count(*s),
    ensures
        l@ == cand_lookup(*s, c as int),
{
    if c < s.rules.len() {
        Lookup::Rule(c)
    } else {
        Lookup::Structure(c - s.rules.len())
    }
}

fn find_group(groups: &Vec<Group>, name: &str) -> (r: Option<usize>)
    ensures
        r matches Some(k) ==> k < groups@.len() && first_group(groups@, name@, 0) == Some(k as int),
        r is None ==> first_group(groups@, name@, 0) is None,
{
    let mut i: usize = 0;
    while i < groups.len()
        invariant
            i <= groups.len(),
            first_group(groups@, name@, 0) == first_group(groups@, name@, i as int),
        decreases groups.len() - i,
    {
        if str_eq(groups[i].name.as_str(), name) {
            return Some(i);
        }
        i += 1;
    }
    None
}

fn find_cand(s: &LookupSpace, id: &str) -> (r: Option<usize>)
    requires
        cand_count(*s) <= usize::MAX,
    ensures
        r matches Some(k) ==> k < cand_count(*s) && first_cand(*s, id@, 0) == Some(k as int),
        r is None ==> first_cand(*s, id@, 0) is None,
{
    let n = s.rules.len() + s.structure.len();
    let mut c: usize = 0;
    while c < n
        invariant
            c <= n,
            n == cand_count(*s),
            first_cand(*s, id@, 0) == first_cand(*s, id@, c as int),
        decreases n - c,
    {
        if str_eq(cand_id_of(s, c).as_str(), id) {
            return Some(c);
        }
        c += 1;
    }
    None
}

fn matching_of(s: &LookupSpace, q: &str, by_label: bool) -> (out: Vec<usize>)
    requires
        cand_count(*s) <= usize::MAX,
    ensures
        out@.map_values(|c: usize| c as int) == matching(*s, q@, cand_count(*s), by_label),
{
    let n = s.rules.len() + s.structure.len();
    let mut out: Vec<usize> = Vec::new();
    let mut c: usize = 0;
    assert(out@.map_values(|x: usize| x as int) =~= matching(*s, q@, 0, by_label));
    while c < n
        invariant
            c <= n,
            n == cand_count(*s),
            out@.map_values(|x: usize| x as int) == matching(*s, q@, c as int, by_label),
        decreases n - c,
    {
        let hit = if by_label {
            str_eq(cand_label_of(s, c).as_str(), q)
        } else {
            contains(cand_id_of(s, c).as_str(), q)
        };
        let ghost before = out@.map_values(|x: usize| x as int);
        if hit {
            out.push(c);
            assert(out@.map_values(|x: usize| x as int) =~= before.push(c as int));
        }
        c += 1;
    }
    out
}

fn narrowed_of(s: &LookupSpace, q: &str) -> (out: Vec<usize>)
    requires
        cand_count(*s) <= usize::MAX,
    ensures
        out@.map_values(|c: usize| c as int) == narrowed(*s, q@),
{
    let labelled = matching_of(s, q, true);
    if labelled.len() > 0 {
        labelled
    } else {
        matching_of(s, q, false)
    }
}

fn ids_of_cands(s: &LookupSpace, cs: &Vec<usize>) -> (ids: Vec<String>)
    requires
        forall|j: int| 0 <= j < cs@.len() ==> (#[trigger] cs@[j]) < cand_count(*s),
    ensures
        strings_view(ids@) == ids_of(*s, cs@.map_values(|c: usize| c as int)),
{
    let mut ids: Vec<String> = Vec::new();
    let mut j: usize = 0;
    while j < cs.len()
        invariant
            j <= cs.len(),
            forall|k: int| 0 <= k < cs@.len() ==> (#[trigger] cs@[k]) < cand_count(*s),
            ids@.len() == j,
            forall|k: int| 0 <= k < j ==> (#[trigger] ids@[k])@ == cand_id(*s, cs@[k] as int),
        decreases cs.len() - j,
    {
        ids.push(cand_id_of(s, cs[j]).clone());
        j += 1;
    }
    assert(strings_view(ids@) =~= ids_of(*s, cs@.map_values(|c: usize| c as int)));
    ids
}

fn refusal(s: &LookupSpace, code: &str, message: String) -> (d: Diagnostic)
    ensures
        refuses(d, *s, (code@, message@)),
{
    Diagnostic::new(s.manifest.as_str(), Span { start: 0, end: 0, line: 1, column: 1 }, code, message)
}

fn unknown_rule(s: &LookupSpace, q: &str) -> (d: Diagnostic)
    ensures
        refuses(d, *s, ("E_UNKNOWN_RULE"@, unknown_rule_message(q@, s.project@))),
{
    let mut m = joined("no rule matches '", q);
    append(&mut m, "' in project ");
    append(&mut m, s.project.as_str());
    append(&mut m, "; run `blabla status` for the current rule ids");
    refusal(s, "E_UNKNOWN_RULE", m)
}

/// A query up to its first `/root`.
fn cut_at_root(q: &str) -> (c: String)
    ensures
        c@ == root_cut(q@),
{
    let cs = chars_of(q);
    let p = chars_of("/root");
    let mut i: usize = 0;
    while i < cs.len()
        invariant
            i <= cs.len(),
            cs@ == q@,
            p@ == "/root"@,
            first_at(q@, "/root"@, 0) == first_at(q@, "/root"@, i as int),
        decreases cs.len() - i,
    {
        if occurs(&cs, &p, i) {
            assert(cs@.take(i as int) =~= cs@.subrange(0, i as int));
            return string_of_prefix(&cs, i);
        }
        i += 1;
    }
    string_of(cs.as_slice())
}

fn string_of_prefix(cs: &Vec<char>, n: usize) -> (s: String)
    requires
        n <= cs.len(),
    ensures
        s@ == cs@.take(n as int),
{
    let mut v: Vec<char> = Vec::new();
    let mut i: usize = 0;
    while i < n
        invariant
            i <= n <= cs.len(),
            v@ == cs@.take(i as int),
        decreases n - i,
    {
        v.push(cs[i]);
        assert(cs@.take(i + 1) =~= cs@.take(i as int).push(cs@[i as int]));
        i += 1;
    }
    string_of(v.as_slice())
}

fn contains_name(names: &Vec<String>, name: &str) -> (b: bool)
    ensures
        b == strings_view(names@).contains(name@),
{
    let mut i: usize = 0;
    while i < names.len()
        invariant
            i <= names.len(),
            forall|k: int| 0 <= k < i ==> names@[k]@ != name@,
        decreases names.len() - i,
    {
        if str_eq(names[i].as_str(), name) {
            assert(strings_view(names@)[i as int] == name@);
            return true;
        }
        i += 1;
    }
    proof {
        if strings_view(names@).contains(name@) {
            let k = choose|k: int| 0 <= k < strings_view(names@).len() && strings_view(names@)[k] == name@;
            assert(names@[k]@ == name@);
        }
    }
    false
}

impl LookupSpace {
    /// What `query` names in the project, or the refusal that it names nothing, or more than
    /// one thing.
    pub fn lookup(&self, query: &str) -> (r: Result<Lookup, Diagnostic>)
        requires
            cand_count(*self) <= usize::MAX,
        ensures
            match lookup_spec(*self, query@) {
                Ok(l) => r matches Ok(x) && x@ == l,
                Err(f) => r matches Err(d) && refuses(d, *self, f),
            },
            r matches Ok(x) ==> names_one(*self, x@),
    {
        match strip_prefix_text(query, "action/") {
            Some(name) => {
                proof {
                    reveal_strlit("action/");
                }
                let known = match &self.actions {
                    Some(a) => contains_name(a, name.as_str()),
                    None => false,
                };
                if known {
                    return Ok(Lookup::Action(name));
                }
                return Err(unknown_rule(self, query));
            },
            None => {},
        }
        let cand = cut_at_root(query);
        match strip_prefix_text(cand.as_str(), "contract::") {
            Some(name) => {
                proof {
                    reveal_strlit("contract::");
                }
                return match find_group(&self.groups, name.as_str()) {
                    Some(k) => Ok(Lookup::Contract(k)),
                    None => Err(unknown_rule(self, query)),
                };
            },
            None => {},
        }
        match find_cand(self, cand.as_str()) {
            Some(c) => {
                proof {
                    lemma_first_cand_range(*self, cand@, 0);
                }
                return Ok(cand_lookup_of(self, c));
            },
            None => {},
        }
        match find_group(&self.groups, cand.as_str()) {
            Some(k) => {
                proof {
                    lemma_first_group_range(self.groups@, cand@, 0);
                }
                let mut m = joined("'", query);
                append(&mut m, "' is the group of a contract, not an identity; run: blabla explain contract::");
                append(&mut m, self.groups[k].name.as_str());
                return Err(refusal(self, "E_COARSE_IDENTITY", m));
            },
            None => {},
        }
        let n = narrowed_of(self, cand.as_str());
        proof {
            lemma_matching_range(*self, cand@, cand_count(*self), true);
            lemma_matching_range(*self, cand@, cand_count(*self), false);
            assert forall|j: int| 0 <= j < n@.len() implies (#[trigger] n@[j]) < cand_count(*self) by {
                assert(n@.map_values(|c: usize| c as int)[j] == n@[j] as int);
            }
        }
        if n.len() == 1 {
            assert(n@.map_values(|c: usize| c as int)[0] == n@[0] as int);
            Ok(cand_lookup_of(self, n[0]))
        } else if n.len() == 0 {
            Err(unknown_rule(self, query))
        } else {
            let ids = ids_of_cands(self, &n);
            let mut m = joined("'", query);
            append(&mut m, "' is not a canonical identity and matches ");
            append(&mut m, decimal_text(ids.len() as u64).as_str());
            append(&mut m, " rules; run one of: ");
            append(&mut m, offer(&ids).as_str());
            Err(refusal(self, "E_AMBIGUOUS_RULE", m))
        }
    }
}

/// Whether a lookup names something the project has.
pub open spec fn names_one(s: LookupSpace, l: LookupV) -> bool {
    match l {
        LookupV::Rule(i) => 0 <= i < s.rules@.len(),
        LookupV::Structure(i) => 0 <= i < s.structure@.len(),
        LookupV::Contract(i) => 0 <= i < s.groups@.len(),
        LookupV::Action(_) => true,
    }
}

/// What a query resolves to: something the project names, or an entry of project memory.
pub enum Resolution {
    Project(Lookup),
    Memory(String),
}

pub enum ResolutionV {
    Project(LookupV),
    Memory(Seq<char>),
}

impl View for Resolution {
    type V = ResolutionV;

    open spec fn view(&self) -> ResolutionV {
        match self {
            Resolution::Project(l) => ResolutionV::Project(l@),
            Resolution::Memory(n) => ResolutionV::Memory(n@),
        }
    }
}

/// The refusal of a query that names several objects: the memory entries `names`, then the
/// rule ids `rules`.
pub open spec fn collision_message(q: Seq<char>, rules: Seq<Seq<char>>, names: Seq<Seq<char>>) -> Seq<char> {
    "'"@ + q + "' is not a canonical identity and names "@ + decimal((names + rules).len()) + " objects "@ + (if rules.len()
        == 0 {
        "in project memory"@
    } else {
        "across rules and project memory"@
    }) + "; run one of: "@ + offer_spec(names + rules)
}

pub open spec fn collide(q: Seq<char>, rules: Seq<Seq<char>>, names: Seq<Seq<char>>) -> Result<ResolutionV, Refusal> {
    Err(("E_AMBIGUOUS_IDENTITY"@, collision_message(q, rules, names)))
}

/// What `q` resolves to, given `names`, the canonical identities that project memory gives
/// for it: the project's own object when memory names nothing, the one memory entry when the
/// project names nothing, and a refusal when both, or several, match.
pub open spec fn resolve_spec(s: LookupSpace, q: Seq<char>, names: Seq<Seq<char>>) -> Result<ResolutionV, Refusal> {
    let found = lookup_spec(s, q);
    if names.len() == 0 {
        match found {
            Ok(l) => Ok(ResolutionV::Project(l)),
            Err(f) => if f.0 == "E_UNKNOWN_RULE"@ {
                Err(("E_UNKNOWN_RULE"@, unknown_identity_message(q, s.project@)))
            } else {
                Err(f)
            },
        }
    } else {
        match found {
            Ok(l) => collide(q, seq![lookup_id(s, l)], names),
            Err(f) => if f.0 == "E_AMBIGUOUS_RULE"@ {
                collide(q, ids_of(s, narrowed(s, q)), names)
            } else if f.0 == "E_COARSE_IDENTITY"@ {
                collide(q, seq!["contract::"@ + q], names)
            } else if names.len() > 1 {
                collide(q, Seq::empty(), names)
            } else {
                Ok(ResolutionV::Memory(names[0]))
            },
        }
    }
}

fn collision(s: &LookupSpace, query: &str, rules: Vec<String>, names: &Vec<String>) -> (d: Diagnostic)
    ensures
        refuses(d, *s, ("E_AMBIGUOUS_IDENTITY"@, collision_message(query@, strings_view(rules@), strings_view(names@)))),
{
    let mut ids: Vec<String> = Vec::new();
    let mut i: usize = 0;
    while i < names.len()
        invariant
            i <= names.len(),
            strings_view(ids@) == strings_view(names@).take(i as int),
        decreases names.len() - i,
    {
        let ghost before = strings_view(ids@);
        ids.push(names[i].clone());
        assert(strings_view(ids@) =~= before.push(names@[i as int]@));
        assert(strings_view(names@).take(i + 1) =~= strings_view(names@).take(i as int).push(names@[i as int]@));
        i += 1;
    }
    let mut j: usize = 0;
    while j < rules.len()
        invariant
            i == names.len(),
            j <= rules.len(),
            strings_view(ids@) == strings_view(names@).take(i as int) + strings_view(rules@).take(j as int),
        decreases rules.len() - j,
    {
        let ghost before = strings_view(ids@);
        ids.push(rules[j].clone());
        assert(strings_view(ids@) =~= before.push(rules@[j as int]@));
        assert(strings_view(rules@).take(j + 1) =~= strings_view(rules@).take(j as int).push(rules@[j as int]@));
        assert(strings_view(ids@) =~= strings_view(names@).take(i as int) + strings_view(rules@).take(j + 1));
        j += 1;
    }
    assert(strings_view(names@).take(i as int) =~= strings_view(names@));
    assert(strings_view(rules@).take(j as int) =~= strings_view(rules@));
    assert(strings_view(ids@) =~= strings_view(names@) + strings_view(rules@));
    let mut m = joined("'", query);
    append(&mut m, "' is not a canonical identity and names ");
    append(&mut m, decimal_text(ids.len() as u64).as_str());
    append(&mut m, " objects ");
    append(&mut m, if rules.len() == 0 { "in project memory" } else { "across rules and project memory" });
    append(&mut m, "; run one of: ");
    append(&mut m, offer(&ids).as_str());
    refusal(s, "E_AMBIGUOUS_IDENTITY", m)
}

impl LookupSpace {
    /// The id of what `l` names.
    pub fn id_of(&self, l: &Lookup) -> (id: String)
        requires
            names_one(*self, l@),
        ensures
            id@ == lookup_id(*self, l@),
    {
        match l {
            Lookup::Rule(i) => self.rules[*i].id.clone(),
            Lookup::Structure(i) => self.structure[*i].id.clone(),
            Lookup::Contract(i) => joined("contract::", self.groups[*i].name.as_str()),
            Lookup::Action(n) => n.clone(),
        }
    }

    /// The ids of the rules and structure rules that a partial query narrows to.
    pub fn candidate_ids(&self, query: &str) -> (ids: Vec<String>)
        requires
            cand_count(*self) <= usize::MAX,
        ensures
            strings_view(ids@) == ids_of(*self, narrowed(*self, query@)),
    {
        let n = narrowed_of(self, query);
        proof {
            lemma_matching_range(*self, query@, cand_count(*self), true);
            lemma_matching_range(*self, query@, cand_count(*self), false);
            assert forall|j: int| 0 <= j < n@.len() implies (#[trigger] n@[j]) < cand_count(*self) by {
                assert(n@.map_values(|c: usize| c as int)[j] == n@[j] as int);
            }
        }
        ids_of_cands(self, &n)
    }

    /// What `query` resolves to, given the canonical identities that project memory gives
    /// for it, or the refusal that it names nothing or more than one object.
    pub fn resolve(&self, query: &str, names: &Vec<String>) -> (r: Result<Resolution, Diagnostic>)
        requires
            cand_count(*self) <= usize::MAX,
        ensures
            match resolve_spec(*self, query@, strings_view(names@)) {
                Ok(x) => r matches Ok(y) && y@ == x,
                Err(f) => r matches Err(d) && refuses(d, *self, f),
            },
    {
        let found = self.lookup(query);
        if names.len() == 0 {
            return match found {
                Ok(l) => Ok(Resolution::Project(l)),
                Err(d) => {
                    if str_eq(d.code.as_str(), "E_UNKNOWN_RULE") {
                        let mut m = joined("no object matches '", query);
                        append(&mut m, "' in project ");
                        append(&mut m, self.project.as_str());
                        append(
                            &mut m,
                            "; blabla status lists every contract::<group>, mission::<name>, knowledge::<pack>, system::<name> and role::<name> this project has",
                        );
                        Err(refusal(self, "E_UNKNOWN_RULE", m))
                    } else {
                        Err(d)
                    }
                },
            };
        }
        match found {
            Ok(l) => {
                let id = self.id_of(&l);
                let rules = vec![id];
                assert(strings_view(rules@) =~= seq![lookup_id(*self, l@)]);
                Err(collision(self, query, rules, names))
            },
            Err(d) => {
                if str_eq(d.code.as_str(), "E_AMBIGUOUS_RULE") {
                    let rules = self.candidate_ids(query);
                    Err(collision(self, query, rules, names))
                } else if str_eq(d.code.as_str(), "E_COARSE_IDENTITY") {
                    let rules = vec![joined("contract::", query)];
                    assert(strings_view(rules@) =~= seq!["contract::"@ + query@]);
                    Err(collision(self, query, rules, names))
                } else if names.len() > 1 {
                    let rules: Vec<String> = Vec::new();
                    assert(strings_view(rules@) =~= Seq::<Seq<char>>::empty());
                    Err(collision(self, query, rules, names))
                } else {
                    Ok(Resolution::Memory(names[0].clone()))
                }
            },
        }
    }
}

proof fn lemma_first_cand_found(s: LookupSpace, id: Seq<char>, i: int, c: int)
    requires
        0 <= i <= c < cand_count(s),
        cand_id(s, c) == id,
    ensures
        first_cand(s, id, i) is Some,
    decreases c - i,
{
    if cand_id(s, i) != id {
        lemma_first_cand_found(s, id, i + 1, c);
    }
}

/// Every rule and structure rule is found by its own id: the lookup names the first one with
/// that id, for any id that does not itself begin with `action/` or `contract::` or hold
/// `/root`.
pub proof fn law_an_id_looks_up_its_rule(s: LookupSpace, c: int)
    requires
        0 <= c < cand_count(s),
        !starts_with(cand_id(s, c), "action/"@),
        !starts_with(cand_id(s, c), "contract::"@),
        first_at(cand_id(s, c), "/root"@, 0) is None,
    ensures
        lookup_spec(s, cand_id(s, c)) matches Ok(l) && lookup_id(s, l) == cand_id(s, c),
{
    let id = cand_id(s, c);
    lemma_first_cand_found(s, id, 0, c);
    lemma_first_cand_range(s, id, 0);
    let k = first_cand(s, id, 0)->0;
    assert(cand_id(s, k) == id);
}

/// What `explain` shows of a structure rule: its layer, its result, its text, and what
/// evaluates it.
pub struct StructureExplainView {
    pub layer: &'static str,
    pub result: RuleResult,
    pub source: String,
    pub verification: &'static str,
}

/// The first result of `results` for the rule `id`.
pub open spec fn first_result(results: Seq<RuleResult>, id: Seq<char>, i: int) -> Option<int>
    decreases results.len() - i,
{
    if i < 0 || i >= results.len() {
        None
    } else if results[i].id@ == id {
        Some(i)
    } else {
        first_result(results, id, i + 1)
    }
}

/// Whether `a` is a copy of `b`.
pub open spec fn same_result(a: RuleResult, b: RuleResult) -> bool {
    &&& a.id@ == b.id@
    &&& option_text(a.group) == option_text(b.group)
    &&& a.label@ == b.label@
    &&& a.file@ == b.file@
    &&& a.line == b.line
    &&& a.status == b.status
}

pub open spec fn option_text(o: Option<String>) -> Option<Seq<char>> {
    match o {
        Some(s) => Some(s@),
        None => None,
    }
}

/// What `explain` shows of the structure rule `query` names: nothing when it names no
/// structure rule; its result, text and evaluator when the report holds a result for it;
/// and an internal refusal at the rule when the report does not.
pub open spec fn explain_structure_ok(
    s: LookupSpace,
    report: StructureReport,
    q: Seq<char>,
    r: Result<Option<StructureExplainView>, Diagnostic>,
) -> bool {
    match lookup_spec(s, q) {
        Err(f) => r matches Err(d) && refuses(d, s, f),
        Ok(LookupV::Structure(i)) => {
            let rule = s.structure@[i];
            match first_result(report.rules@, rule.id@, 0) {
                Some(k) => r matches Ok(Some(v)) && v.layer@ == "structure"@ && same_result(v.result, report.rules@[k])
                    && v.source@ == rule.source@ && v.verification@ == "blabla status"@,
                None => r matches Err(d) && d.location.file@ == rule.location.file@ && d.location.line
                    == rule.location.line && d.location.column == rule.location.column && d.code@ == "E_INTERNAL"@
                    && d.message@ == "structure rule "@ + rule.id@ + " was not evaluated"@,
            }
        },
        Ok(_) => r matches Ok(None),
    }
}

fn copy_text(o: &Option<String>) -> (c: Option<String>)
    ensures
        option_text(c) == option_text(*o),
{
    match o {
        Some(t) => Some(t.clone()),
        None => None,
    }
}

impl LookupSpace {
    /// What `explain` shows of the structure rule `query` names, with its result in `report`.
    pub fn explain_structure(&self, report: &StructureReport, query: &str) -> (r: Result<
        Option<StructureExplainView>,
        Diagnostic,
    >)
        requires
            cand_count(*self) <= usize::MAX,
        ensures
            explain_structure_ok(*self, *report, query@, r),
    {
        let i = match self.lookup(query) {
            Err(d) => {
                return Err(d);
            },
            Ok(Lookup::Structure(i)) => i,
            Ok(_) => {
                return Ok(None);
            },
        };
        let rule = &self.structure[i];
        let ghost found = lookup_spec(*self, query@);
        assert(found == Ok::<LookupV, Refusal>(LookupV::Structure(i as int)));
        let mut k: usize = 0;
        while k < report.rules.len()
            invariant
                i < self.structure@.len(),
                *rule == self.structure@[i as int],
                found == lookup_spec(*self, query@),
                found == Ok::<LookupV, Refusal>(LookupV::Structure(i as int)),
                k <= report.rules.len(),
                first_result(report.rules@, rule.id@, 0) == first_result(report.rules@, rule.id@, k as int),
            decreases report.rules.len() - k,
        {
            let x = &report.rules[k];
            if str_eq(x.id.as_str(), rule.id.as_str()) {
                let result = RuleResult {
                    id: x.id.clone(),
                    group: copy_text(&x.group),
                    label: x.label.clone(),
                    file: x.file.clone(),
                    line: x.line,
                    status: x.status,
                };
                proof {
                    assert(first_result(report.rules@, rule.id@, k as int) == Some(k as int));
                    assert(same_result(result, report.rules@[k as int]));
                }
                let v = StructureExplainView {
                    layer: "structure",
                    result,
                    source: rule.source.clone(),
                    verification: "blabla status",
                };
                assert(v.layer@ == "structure"@);
                return Ok(Some(v));
            }
            k += 1;
        }
        let mut m = joined("structure rule ", rule.id.as_str());
        append(&mut m, " was not evaluated");
        Err(
            Diagnostic {
                location: Location {
                    file: rule.location.file.clone(),
                    line: rule.location.line,
                    column: rule.location.column,
                },
                code: "E_INTERNAL".to_owned(),
                message: m,
            },
        )
    }
}

} // verus!
