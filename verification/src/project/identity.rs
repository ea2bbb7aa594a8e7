use vstd::prelude::*;
use crate::project::{
    Entry, FNV_OFFSET, Fnv, Group, Layer, Manifest, Rule, fnv_text, normal_form, normal_form_of, normal_text, normalize_text, strings_view,
};
use crate::text::{chars_eq, chars_of, hex_fixed, join, join_chars, str_eq, string_of};
use crate::tree::{Tree, key_less, lemma_lookup, lemma_lookup_at, lookup};

verus! {

// ---------------------------------------------------------------------------------------
// The identity of the contracts.
// ---------------------------------------------------------------------------------------

/// The active behavior contracts, each as its group, how it is shown and its text, folded in
/// order into an FNV-1a state.
pub open spec fn identity_fold(h: u64, loaded: Seq<(Seq<char>, Seq<char>, Seq<char>)>) -> u64
    decreases loaded.len(),
{
    if loaded.len() == 0 {
        h
    } else {
        let (g, d, s) = loaded.last();
        fnv_text(fnv_text(fnv_text(identity_fold(h, loaded.drop_last()), g), d), s)
    }
}

/// The identity of a project's contracts: the project name, then each active behavior
/// contract's group, display and text, hashed, as sixteen hex digits.
pub open spec fn identity_spec(name: Seq<char>, loaded: Seq<(Seq<char>, Seq<char>, Seq<char>)>) -> Seq<char> {
    hex_fixed(identity_fold(fnv_text(FNV_OFFSET, name), loaded) as nat, 16)
}

pub open spec fn loaded_view(loaded: Seq<(String, String, String)>) -> Seq<(Seq<char>, Seq<char>, Seq<char>)> {
    loaded.map_values(|t: (String, String, String)| (t.0@, t.1@, t.2@))
}

/// The identity of a project's contracts, from its name and its active behavior contracts
/// (group, display, text), in the order the manifest uses them.
pub fn project_identity(name: &str, loaded: &Vec<(String, String, String)>) -> (id: String)
    ensures
        id@ == identity_spec(name@, loaded_view(loaded@)),
{
    let ghost lv = loaded_view(loaded@);
    let mut hasher = Fnv::new();
    hasher.write_str(name);
    let ghost start = hasher@;
    let mut i: usize = 0;
    assert(lv.take(0) =~= Seq::<(Seq<char>, Seq<char>, Seq<char>)>::empty());
    while i < loaded.len()
        invariant
            i <= loaded.len(),
            lv == loaded_view(loaded@),
            start == fnv_text(FNV_OFFSET, name@),
            hasher@ == identity_fold(start, lv.take(i as int)),
        decreases loaded.len() - i,
    {
        assert(lv.take(i + 1).drop_last() =~= lv.take(i as int));
        assert(lv.take(i + 1).last() == (loaded@[i as int].0@, loaded@[i as int].1@, loaded@[i as int].2@));
        let entry = &loaded[i];
        hasher.write_str(entry.0.as_str());
        hasher.write_str(entry.1.as_str());
        hasher.write_str(entry.2.as_str());
        i += 1;
    }
    assert(lv.take(loaded@.len() as int) =~= lv);
    hasher.finish()
}

// ---------------------------------------------------------------------------------------
// The files that are always tracked.
// ---------------------------------------------------------------------------------------

/// `s` with each backslash written as a slash.
pub open spec fn slashed(s: Seq<char>) -> Seq<char> {
    s.map_values(|c: char|
        if c == '\\' {
            '/'
        } else {
            c
        })
}

/// Whether the components `p` begin with the components `r`, both absolute or both relative.
pub open spec fn under(r: (bool, Seq<Seq<char>>), p: (bool, Seq<Seq<char>>)) -> bool {
    r.0 == p.0 && r.1.len() <= p.1.len() && p.1.take(r.1.len() as int) == r.1
}

/// `path`, normalized, relative to the normalized `root` where it lies under it, written with
/// slashes.
pub open spec fn relative_text(root: Seq<char>, path: Seq<char>) -> Seq<char> {
    let r = normal_form(root);
    let p = normal_form(path);
    slashed(
        if under(r, p) {
            join(p.1.skip(r.1.len() as int), seq!['/'])
        } else {
            normal_text(path)
        },
    )
}

/// The paths a project always tracks: the manifest, its contract files, and its registered
/// memory files.
pub open spec fn tracked_paths(m: Manifest) -> Seq<Seq<char>> {
    let memory = |o: Option<crate::project::MemoryEntry>|
        match o {
            Some(e) => seq![e.path@],
            None => Seq::<Seq<char>>::empty(),
        };
    seq![m.path@] + m.entries@.map_values(|e: crate::project::Entry| e.path@) + memory(m.mission) + memory(m.system)
        + memory(m.process) + m.knowledge@.map_values(|e: crate::project::MemoryEntry| e.path@)
}

/// Each distinct text of `texts`, once, in ascending order.
pub open spec fn sorted_set_of(ids: Seq<Seq<char>>, texts: Seq<Seq<char>>) -> bool {
    &&& forall|i: int, j: int| 0 <= i < j < ids.len() ==> key_less(#[trigger] ids[i], #[trigger] ids[j])
    &&& forall|i: int| 0 <= i < ids.len() ==> texts.contains(#[trigger] ids[i])
    &&& forall|t: Seq<char>| texts.contains(t) ==> ids.contains(t)
}

/// Each distinct text of `texts`, once, in ascending order.
pub fn sorted_set(texts: Vec<String>) -> (ids: Vec<String>)
    ensures
        sorted_set_of(strings_view(ids@), strings_view(texts@)),
{
    let ghost tv = strings_view(texts@);
    let mut t = Tree::new();
    let mut i: usize = 0;
    while i < texts.len()
        invariant
            i <= texts.len(),
            tv == strings_view(texts@),
            forall|k: Seq<char>| (lookup(t@, k) is Some) <==> tv.take(i as int).contains(k),
        decreases texts.len() - i,
    {
        t.insert(texts[i].clone(), String::new());
        proof {
            let a = tv.take(i + 1);
            let b = tv.take(i as int);
            assert(a =~= b.push(tv[i as int]));
            assert forall|k: Seq<char>| (lookup(t@, k) is Some) <==> a.contains(k) by {
                if a.contains(k) && k != tv[i as int] {
                    let j = choose|j: int| 0 <= j < a.len() && a[j] == k;
                    assert(b[j] == k);
                }
                if b.contains(k) {
                    let j = choose|j: int| 0 <= j < b.len() && b[j] == k;
                    assert(a[j] == k);
                }
                if k == tv[i as int] {
                    assert(a[i as int] == k);
                }
            }
        }
        i += 1;
    }
    assert(tv.take(texts@.len() as int) =~= tv);
    let n = t.len();
    let mut ids: Vec<String> = Vec::new();
    let mut j: usize = 0;
    while j < n
        invariant
            j <= n,
            n == t@.len(),
            t.sorted(),
            forall|k: Seq<char>| (lookup(t@, k) is Some) <==> tv.contains(k),
            ids@.len() == j,
            forall|m: int| 0 <= m < j ==> (#[trigger] ids@[m])@ == t@[m].0,
        decreases n - j,
    {
        let (key, _) = t.entry(j);
        ids.push(key.to_owned());
        j += 1;
    }
    proof {
        let v = strings_view(ids@);
        assert forall|m: int| 0 <= m < v.len() implies #[trigger] v[m] == t@[m].0 by {}
        assert forall|m: int| 0 <= m < v.len() implies tv.contains(#[trigger] v[m]) by {
            lemma_lookup_at(t@, m);
        }
        assert forall|k: Seq<char>| tv.contains(k) implies v.contains(k) by {
            lemma_lookup(t@, k);
            let m = choose|m: int| 0 <= m < t@.len() && t@[m] == (k, lookup(t@, k)->0);
            assert(v[m] == k);
        }
    }
    ids
}

/// `path`, normalized, relative to the normalized `root`, written with slashes.
pub fn relative_path(root: &str, path: &str) -> (s: String)
    ensures
        s@ == relative_text(root@, path@),
{
    let (r_abs, r) = normal_form_of(root);
    let (p_abs, p) = normal_form_of(path);
    let ghost rv = r@.map_values(|x: Vec<char>| x@);
    let ghost pv = p@.map_values(|x: Vec<char>| x@);
    let mut lies_under = r_abs == p_abs && r.len() <= p.len();
    if lies_under {
        let mut i: usize = 0;
        while i < r.len()
            invariant
                r.len() <= p.len(),
                i <= r.len(),
                rv == r@.map_values(|x: Vec<char>| x@),
                pv == p@.map_values(|x: Vec<char>| x@),
                lies_under == (forall|k: int| 0 <= k < i ==> rv[k] == pv[k]),
            decreases r.len() - i,
        {
            let same = chars_eq(&r[i], &p[i]);
            let ghost before = lies_under;
            lies_under = lies_under && same;
            proof {
                assert(rv[i as int] == r@[i as int]@);
                assert(pv[i as int] == p@[i as int]@);
                if lies_under {
                    assert forall|k: int| 0 <= k < i + 1 implies rv[k] == pv[k] by {
                        if k < i {
                            assert(before);
                        }
                    }
                } else if !same {
                    assert(!(rv[i as int] == pv[i as int]));
                } else {
                    assert(!before);
                    let k = choose|k: int| !(0 <= k < i ==> rv[k] == pv[k]);
                    assert(0 <= k < i + 1 && rv[k] != pv[k]);
                }
            }
            i += 1;
        }
        proof {
            if lies_under {
                assert(pv.take(rv.len() as int) =~= rv);
            } else {
                let k = choose|k: int| 0 <= k < r.len() && rv[k] != pv[k];
                assert(pv.take(rv.len() as int)[k] != rv[k]);
            }
        }
    }
    assert(lies_under == under(normal_form(root@), normal_form(path@)));
    let shown: Vec<char> = if lies_under {
        let mut rest: Vec<Vec<char>> = Vec::new();
        let mut i: usize = r.len();
        let ghost start = r.len() as int;
        while i < p.len()
            invariant
                start <= i <= p.len(),
                start == rv.len(),
                pv == p@.map_values(|x: Vec<char>| x@),
                rest@.map_values(|x: Vec<char>| x@) == pv.subrange(start, i as int),
            decreases p.len() - i,
        {
            let ghost before = rest@.map_values(|x: Vec<char>| x@);
            rest.push(p[i].clone());
            assert(rest@.map_values(|x: Vec<char>| x@) =~= before.push(pv[i as int]));
            assert(pv.subrange(start, i + 1) =~= pv.subrange(start, i as int).push(pv[i as int]));
            i += 1;
        }
        assert(pv.subrange(start, pv.len() as int) =~= pv.skip(start));
        join_chars(&rest, '/')
    } else {
        chars_of(normalize_text(path).as_str())
    };
    let mut out: Vec<char> = Vec::new();
    let mut i: usize = 0;
    while i < shown.len()
        invariant
            i <= shown.len(),
            out@ == slashed(shown@.take(i as int)),
        decreases shown.len() - i,
    {
        let c = shown[i];
        out.push(if c == '\\' { '/' } else { c });
        assert(slashed(shown@.take(i + 1)) =~= slashed(shown@.take(i as int)).push(if c == '\\' { '/' } else { c }));
        i += 1;
    }
    assert(shown@.take(shown@.len() as int) =~= shown@);
    string_of(out.as_slice())
}

fn push_path(paths: &mut Vec<String>, p: &String)
    ensures
        strings_view(final(paths)@) == strings_view(old(paths)@).push(p@),
{
    paths.push(p.clone());
    assert(strings_view(paths@) =~= strings_view(old(paths)@).push(p@));
}

/// The files a project always tracks, whatever it ignores: its manifest, its contract files
/// and its registered memory files, each relative to the project root, once, in ascending
/// order.
pub fn always_tracked(m: &Manifest) -> (ids: Vec<String>)
    ensures
        sorted_set_of(strings_view(ids@), tracked_paths(*m).map_values(|p: Seq<char>| relative_text(m.root@, p))),
{
    let mut paths: Vec<String> = Vec::new();
    push_path(&mut paths, &m.path);
    let mut i: usize = 0;
    while i < m.entries.len()
        invariant
            i <= m.entries.len(),
            strings_view(paths@) == seq![m.path@] + m.entries@.take(i as int).map_values(
                |e: crate::project::Entry| e.path@,
            ),
        decreases m.entries.len() - i,
    {
        push_path(&mut paths, &m.entries[i].path);
        assert(m.entries@.take(i + 1).map_values(|e: crate::project::Entry| e.path@) =~= m.entries@.take(
            i as int,
        ).map_values(|e: crate::project::Entry| e.path@).push(m.entries@[i as int].path@));
        i += 1;
    }
    assert(m.entries@.take(m.entries@.len() as int) =~= m.entries@);
    let ghost base = strings_view(paths@);
    match &m.mission {
        Some(e) => push_path(&mut paths, &e.path),
        None => {},
    }
    match &m.system {
        Some(e) => push_path(&mut paths, &e.path),
        None => {},
    }
    match &m.process {
        Some(e) => push_path(&mut paths, &e.path),
        None => {},
    }
    let ghost memory = |o: Option<crate::project::MemoryEntry>|
        match o {
            Some(e) => seq![e.path@],
            None => Seq::<Seq<char>>::empty(),
        };
    assert(strings_view(paths@) =~= base + memory(m.mission) + memory(m.system) + memory(m.process));
    let ghost with_memory = strings_view(paths@);
    let mut k: usize = 0;
    while k < m.knowledge.len()
        invariant
            k <= m.knowledge.len(),
            strings_view(paths@) == with_memory + m.knowledge@.take(k as int).map_values(
                |e: crate::project::MemoryEntry| e.path@,
            ),
        decreases m.knowledge.len() - k,
    {
        push_path(&mut paths, &m.knowledge[k].path);
        assert(m.knowledge@.take(k + 1).map_values(|e: crate::project::MemoryEntry| e.path@) =~= m.knowledge@.take(
            k as int,
        ).map_values(|e: crate::project::MemoryEntry| e.path@).push(m.knowledge@[k as int].path@));
        k += 1;
    }
    assert(m.knowledge@.take(m.knowledge@.len() as int) =~= m.knowledge@);
    let ghost all = strings_view(paths@);
    assert(all =~= tracked_paths(*m));
    let mut shown: Vec<String> = Vec::new();
    let mut j: usize = 0;
    while j < paths.len()
        invariant
            j <= paths.len(),
            all == strings_view(paths@),
            strings_view(shown@) == all.take(j as int).map_values(|p: Seq<char>| relative_text(m.root@, p)),
        decreases paths.len() - j,
    {
        let r = relative_path(m.root.as_str(), paths[j].as_str());
        let ghost before = strings_view(shown@);
        shown.push(r);
        assert(strings_view(shown@) =~= before.push(r@));
        assert(all.take(j + 1).map_values(|p: Seq<char>| relative_text(m.root@, p)) =~= all.take(j as int).map_values(
            |p: Seq<char>| relative_text(m.root@, p),
        ).push(relative_text(m.root@, all[j as int])));
        j += 1;
    }
    assert(all.take(paths@.len() as int) =~= all);
    sorted_set(shown)
}

// ---------------------------------------------------------------------------------------
// The contract groups of the active set.
// ---------------------------------------------------------------------------------------

/// The entries of the manifest that are in use, not drafts, in order.
pub open spec fn active_entries(entries: Seq<Entry>) -> Seq<Entry>
    decreases entries.len(),
{
    if entries.len() == 0 {
        Seq::empty()
    } else if entries.last().draft {
        active_entries(entries.drop_last())
    } else {
        active_entries(entries.drop_last()).push(entries.last())
    }
}

/// How many of `rules` belong to `group`.
pub open spec fn rules_in(rules: Seq<Rule>, group: Seq<char>) -> nat
    decreases rules.len(),
{
    if rules.len() == 0 {
        0
    } else {
        rules_in(rules.drop_last(), group) + if rules.last().group@ == group {
            1nat
        } else {
            0nat
        }
    }
}

/// How many rules the structure contracts of `group` hold, from each contract's group and
/// number of rules.
pub open spec fn structure_rules_in(contracts: Seq<(Option<String>, usize)>, group: Seq<char>) -> nat
    decreases contracts.len(),
{
    if contracts.len() == 0 {
        0
    } else {
        structure_rules_in(contracts.drop_last(), group) + match contracts.last().0 {
            Some(g) => if g@ == group {
                contracts.last().1 as nat
            } else {
                0nat
            },
            None => 0nat,
        }
    }
}

/// All the rules of the structure contracts.
pub open spec fn structure_rules(contracts: Seq<(Option<String>, usize)>) -> nat
    decreases contracts.len(),
{
    if contracts.len() == 0 {
        0
    } else {
        structure_rules(contracts.drop_last()) + contracts.last().1 as nat
    }
}

/// The group an active entry makes: its name, display and layer, and how many rules it has.
pub open spec fn group_of(g: Group, e: Entry, rules: Seq<Rule>, contracts: Seq<(Option<String>, usize)>) -> bool {
    &&& g.name@ == e.group@
    &&& g.display@ == e.display@
    &&& g.layer == e.layer
    &&& g.rules == match e.layer {
        Layer::Behavior => rules_in(rules, e.group@),
        Layer::Structure => structure_rules_in(contracts, e.group@),
    }
}

proof fn lemma_rules_in_bounded(rules: Seq<Rule>, group: Seq<char>)
    ensures
        rules_in(rules, group) <= rules.len(),
    decreases rules.len(),
{
    if rules.len() > 0 {
        lemma_rules_in_bounded(rules.drop_last(), group);
    }
}

proof fn lemma_structure_bounded(contracts: Seq<(Option<String>, usize)>, group: Seq<char>)
    ensures
        structure_rules_in(contracts, group) <= structure_rules(contracts),
    decreases contracts.len(),
{
    if contracts.len() > 0 {
        lemma_structure_bounded(contracts.drop_last(), group);
    }
}

fn count_rules(rules: &Vec<Rule>, group: &str) -> (n: usize)
    ensures
        n == rules_in(rules@, group@),
{
    let mut n: usize = 0;
    let mut i: usize = 0;
    while i < rules.len()
        invariant
            i <= rules.len(),
            n == rules_in(rules@.take(i as int), group@),
            n <= i,
        decreases rules.len() - i,
    {
        assert(rules@.take(i + 1).drop_last() =~= rules@.take(i as int));
        if str_eq(rules[i].group.as_str(), group) {
            n += 1;
        }
        i += 1;
    }
    assert(rules@.take(rules@.len() as int) =~= rules@);
    n
}

fn count_structure_rules(contracts: &Vec<(Option<String>, usize)>, group: &str) -> (n: usize)
    requires
        structure_rules(contracts@) <= usize::MAX,
    ensures
        n == structure_rules_in(contracts@, group@),
{
    let mut n: usize = 0;
    let mut i: usize = 0;
    while i < contracts.len()
        invariant
            i <= contracts.len(),
            structure_rules(contracts@) <= usize::MAX,
            n == structure_rules_in(contracts@.take(i as int), group@),
        decreases contracts.len() - i,
    {
        let ghost c = contracts@.take(i + 1);
        assert(c.drop_last() =~= contracts@.take(i as int));
        proof {
            lemma_structure_bounded(c, group@);
            lemma_structure_prefix(contracts@, i + 1);
        }
        let ours = match &contracts[i].0 {
            Some(g) => str_eq(g.as_str(), group),
            None => false,
        };
        if ours {
            n += contracts[i].1;
        }
        i += 1;
    }
    assert(contracts@.take(contracts@.len() as int) =~= contracts@);
    n
}

proof fn lemma_structure_prefix(contracts: Seq<(Option<String>, usize)>, i: int)
    requires
        0 <= i <= contracts.len(),
    ensures
        structure_rules(contracts.take(i)) <= structure_rules(contracts),
    decreases contracts.len() - i,
{
    if i < contracts.len() {
        lemma_structure_prefix(contracts, i + 1);
        assert(contracts.take(i + 1).drop_last() =~= contracts.take(i));
    } else {
        assert(contracts.take(i) =~= contracts);
    }
}

/// The groups of the active set: one for each entry in use, with how many rules it has,
/// counted from the compiled behavior rules or from each structure contract's group and
/// number of rules.
pub fn project_groups(entries: &Vec<Entry>, rules: &Vec<Rule>, contracts: &Vec<(Option<String>, usize)>) -> (gs: Vec<Group>)
    requires
        structure_rules(contracts@) <= usize::MAX,
    ensures
        gs@.len() == active_entries(entries@).len(),
        forall|k: int| 0 <= k < gs@.len() ==> group_of(#[trigger] gs@[k], active_entries(entries@)[k], rules@, contracts@),
{
    let mut gs: Vec<Group> = Vec::new();
    let mut i: usize = 0;
    while i < entries.len()
        invariant
            i <= entries.len(),
            structure_rules(contracts@) <= usize::MAX,
            gs@.len() == active_entries(entries@.take(i as int)).len(),
            forall|k: int| 0 <= k < gs@.len() ==> group_of(#[trigger] gs@[k], active_entries(entries@.take(i as int))[k], rules@, contracts@),
        decreases entries.len() - i,
    {
        assert(entries@.take(i + 1).drop_last() =~= entries@.take(i as int));
        let e = &entries[i];
        if !e.draft {
            let count = match e.layer {
                Layer::Behavior => count_rules(rules, e.group.as_str()),
                Layer::Structure => count_structure_rules(contracts, e.group.as_str()),
            };
            gs.push(Group { name: e.group.clone(), display: e.display.clone(), rules: count, layer: e.layer });
        }
        i += 1;
    }
    assert(entries@.take(entries@.len() as int) =~= entries@);
    gs
}

} // verus!
