use crate::text::chars_of;
use vstd::prelude::*;

verus! {

/// Whether `a` comes before `b` in the order of their characters' code points, the order in
/// which a sorted map of strings holds its keys.
pub open spec fn key_less(a: Seq<char>, b: Seq<char>) -> bool
    decreases a.len(),
{
    if a.len() == 0 {
        b.len() > 0
    } else if b.len() == 0 {
        false
    } else if a[0] != b[0] {
        (a[0] as u32) < (b[0] as u32)
    } else {
        key_less(a.skip(1), b.skip(1))
    }
}

proof fn lemma_char_codes(c: char, d: char)
    requires
        c != d,
    ensures
        (c as u32) != (d as u32),
{
}

proof fn lemma_heads(a: Seq<char>, b: Seq<char>)
    requires
        a.len() > 0,
        b.len() > 0,
        a[0] == b[0],
        a.skip(1) == b.skip(1),
    ensures
        a == b,
{
    assert(a.skip(1).len() == a.len() - 1);
    assert(b.skip(1).len() == b.len() - 1);
    assert forall|i: int| 0 <= i < a.len() implies a[i] == b[i] by {
        if i > 0 {
            assert(a.skip(1)[i - 1] == a[i]);
            assert(b.skip(1)[i - 1] == b[i]);
        }
    }
    assert(a =~= b);
}

pub proof fn lemma_key_less_irreflexive(a: Seq<char>)
    ensures
        !key_less(a, a),
    decreases a.len(),
{
    if a.len() > 0 {
        lemma_key_less_irreflexive(a.skip(1));
    }
}

pub proof fn lemma_key_less_transitive(a: Seq<char>, b: Seq<char>, c: Seq<char>)
    requires
        key_less(a, b),
        key_less(b, c),
    ensures
        key_less(a, c),
    decreases a.len(),
{
    if a.len() > 0 && b.len() > 0 && c.len() > 0 {
        if a[0] == b[0] && b[0] == c[0] {
            lemma_key_less_transitive(a.skip(1), b.skip(1), c.skip(1));
        }
    }
}

pub proof fn lemma_key_less_total(a: Seq<char>, b: Seq<char>)
    ensures
        a == b || key_less(a, b) || key_less(b, a),
    decreases a.len(),
{
    if a.len() > 0 && b.len() > 0 && a[0] == b[0] {
        lemma_key_less_total(a.skip(1), b.skip(1));
        if a.skip(1) == b.skip(1) {
            lemma_heads(a, b);
        }
    } else if a.len() == 0 && b.len() == 0 {
        assert(a =~= b);
    } else if a.len() > 0 && b.len() > 0 {
        lemma_char_codes(a[0], b[0]);
    }
}

proof fn lemma_key_less_skip(a: Seq<char>, b: Seq<char>, i: int)
    requires
        0 <= i <= a.len(),
        i <= b.len(),
        a.take(i) == b.take(i),
    ensures
        key_less(a, b) == key_less(a.skip(i), b.skip(i)),
    decreases i,
{
    if i > 0 {
        assert(a[0] == a.take(i)[0]);
        assert(b[0] == b.take(i)[0]);
        assert(a.skip(1).take(i - 1) =~= a.take(i).skip(1));
        assert(b.skip(1).take(i - 1) =~= b.take(i).skip(1));
        lemma_key_less_skip(a.skip(1), b.skip(1), i - 1);
        assert(a.skip(1).skip(i - 1) =~= a.skip(i));
        assert(b.skip(1).skip(i - 1) =~= b.skip(i));
    } else {
        assert(a.skip(0) =~= a);
        assert(b.skip(0) =~= b);
    }
}

/// How two keys are ordered: below zero, zero or above zero as `a` comes before, equals or
/// comes after `b`.
pub fn key_compare(a: &str, b: &str) -> (r: i8)
    ensures
        r < 0 <==> key_less(a@, b@),
        r == 0 <==> a@ == b@,
        r > 0 <==> key_less(b@, a@),
{
    let x = chars_of(a);
    let y = chars_of(b);
    let mut i: usize = 0;
    proof {
        lemma_key_less_irreflexive(a@);
        lemma_key_less_irreflexive(b@);
    }
    while i < x.len() && i < y.len()
        invariant
            i <= x.len(),
            i <= y.len(),
            x@ == a@,
            y@ == b@,
            x@.take(i as int) == y@.take(i as int),
        decreases x.len() - i,
    {
        if x[i] != y[i] {
            proof {
                lemma_key_less_skip(x@, y@, i as int);
                lemma_key_less_skip(y@, x@, i as int);
                assert(x@.skip(i as int)[0] == x@[i as int]);
                assert(y@.skip(i as int)[0] == y@[i as int]);
                assert(x@[i as int] != y@[i as int]);
                assert(x@ != y@);
                lemma_char_codes(x@[i as int], y@[i as int]);
            }
            if (x[i] as u32) < (y[i] as u32) {
                return -1;
            } else {
                return 1;
            }
        }
        assert(x@.take(i + 1) =~= x@.take(i as int).push(x@[i as int]));
        assert(y@.take(i + 1) =~= y@.take(i as int).push(y@[i as int]));
        i += 1;
    }
    proof {
        lemma_key_less_skip(x@, y@, i as int);
        lemma_key_less_skip(y@, x@, i as int);
    }
    if x.len() == y.len() {
        assert(x@ =~= x@.take(i as int));
        assert(y@ =~= y@.take(i as int));
        0
    } else if i == x.len() {
        assert(x@.skip(i as int).len() == 0);
        assert(x@ != y@);
        -1
    } else {
        assert(y@.skip(i as int).len() == 0);
        assert(x@ != y@);
        1
    }
}

/// The keys of `entries`, in order.
pub open spec fn sorted_keys(entries: Seq<(Seq<char>, Seq<char>)>) -> bool {
    forall|i: int, j: int| 0 <= i < j < entries.len() ==> key_less(#[trigger] entries[i].0, #[trigger] entries[j].0)
}

/// A map from paths to digests, its keys in ascending order.
#[derive(Debug)]
pub struct Tree {
    entries: Vec<(String, String)>,
}

impl View for Tree {
    type V = Seq<(Seq<char>, Seq<char>)>;

    closed spec fn view(&self) -> Seq<(Seq<char>, Seq<char>)> {
        self.entries@.map_values(|e: (String, String)| (e.0@, e.1@))
    }
}

/// The value stored under `key`, if any.
pub open spec fn lookup(entries: Seq<(Seq<char>, Seq<char>)>, key: Seq<char>) -> Option<Seq<char>>
    decreases entries.len(),
{
    if entries.len() == 0 {
        None
    } else if entries.last().0 == key {
        Some(entries.last().1)
    } else {
        lookup(entries.drop_last(), key)
    }
}

pub proof fn lemma_lookup(entries: Seq<(Seq<char>, Seq<char>)>, key: Seq<char>)
    ensures
        match lookup(entries, key) {
            Some(v) => exists|i: int| 0 <= i < entries.len() && entries[i] == (key, v),
            None => forall|i: int| 0 <= i < entries.len() ==> entries[i].0 != key,
        },
    decreases entries.len(),
{
    if entries.len() > 0 && entries.last().0 != key {
        lemma_lookup(entries.drop_last(), key);
        match lookup(entries.drop_last(), key) {
            Some(v) => {
                let i = choose|i: int| 0 <= i < entries.drop_last().len() && entries.drop_last()[i] == (key, v);
                assert(entries[i] == (key, v));
            },
            None => {
                assert forall|i: int| 0 <= i < entries.len() implies entries[i].0 != key by {
                    if i < entries.len() - 1 {
                        assert(entries[i] == entries.drop_last()[i]);
                    }
                }
            },
        }
    } else if entries.len() > 0 {
        assert(entries[entries.len() - 1] == (key, entries.last().1));
    }
}

/// With sorted keys, the entry whose key is `key` is the value `lookup` finds.
pub proof fn lemma_lookup_at(entries: Seq<(Seq<char>, Seq<char>)>, i: int)
    requires
        sorted_keys(entries),
        0 <= i < entries.len(),
    ensures
        lookup(entries, entries[i].0) == Some(entries[i].1),
    decreases entries.len(),
{
    if i < entries.len() - 1 {
        assert(key_less(entries[i].0, entries[entries.len() - 1].0));
        lemma_key_less_irreflexive(entries[i].0);
        let d = entries.drop_last();
        assert(sorted_keys(d)) by {
            assert forall|a: int, b: int| 0 <= a < b < d.len() implies key_less(#[trigger] d[a].0, #[trigger] d[b].0) by {
                assert(d[a] == entries[a] && d[b] == entries[b]);
            }
        }
        assert(d[i] == entries[i]);
        lemma_lookup_at(d, i);
    }
}

impl Tree {
    #[verifier::type_invariant]
    spec fn ordered(self) -> bool {
        sorted_keys(self@)
    }

    /// The keys and values, in ascending order of keys.
    pub open spec fn sorted(&self) -> bool {
        sorted_keys(self@)
    }

    /// A copy of the tree.
    pub fn copy(&self) -> (t: Tree)
        ensures
            t@ == self@,
    {
        proof {
            use_type_invariant(self);
        }
        let mut entries: Vec<(String, String)> = Vec::new();
        let mut i: usize = 0;
        while i < self.entries.len()
            invariant
                i <= self.entries.len(),
                entries@.map_values(|e: (String, String)| (e.0@, e.1@)) == self@.take(i as int),
            decreases self.entries.len() - i,
        {
            let pair = &self.entries[i];
            let ghost before = entries@.map_values(|e: (String, String)| (e.0@, e.1@));
            entries.push((pair.0.clone(), pair.1.clone()));
            assert(entries@.map_values(|e: (String, String)| (e.0@, e.1@)) =~= before.push((pair.0@, pair.1@)));
            assert(self@.take(i + 1) =~= self@.take(i as int).push(self@[i as int]));
            i += 1;
        }
        assert(self@.take(self@.len() as int) =~= self@);
        Tree { entries }
    }

    /// An empty tree.
    pub fn new() -> (t: Tree)
        ensures
            t@ == Seq::<(Seq<char>, Seq<char>)>::empty(),
    {
        let t = Tree { entries: Vec::new() };
        assert(t@ =~= Seq::<(Seq<char>, Seq<char>)>::empty());
        t
    }

    /// The number of entries; the keys are always in ascending order.
    pub fn len(&self) -> (n: usize)
        ensures
            n == self@.len(),
            self.sorted(),
    {
        proof {
            use_type_invariant(self);
        }
        self.entries.len()
    }

    /// The key and value of entry `i`.
    pub fn entry(&self, i: usize) -> (e: (&str, &str))
        requires
            i < self@.len(),
        ensures
            e.0@ == self@[i as int].0,
            e.1@ == self@[i as int].1,
    {
        let pair = &self.entries[i];
        (pair.0.as_str(), pair.1.as_str())
    }

    /// The value stored under `key`.
    pub fn get(&self, key: &str) -> (r: Option<&str>)
        ensures
            match lookup(self@, key@) {
                Some(v) => r matches Some(x) && x@ == v,
                None => r is None,
            },
    {
        proof {
            use_type_invariant(self);
        }
        let mut i: usize = 0;
        while i < self.entries.len()
            invariant
                i <= self.entries.len(),
                sorted_keys(self@),
                forall|k: int| 0 <= k < i ==> self@[k].0 != key@,
            decreases self.entries.len() - i,
        {
            let pair = &self.entries[i];
            assert(self@[i as int] == (pair.0@, pair.1@));
            if key_compare(pair.0.as_str(), key) == 0 {
                proof {
                    lemma_lookup_at(self@, i as int);
                }
                return Some(pair.1.as_str());
            }
            i += 1;
        }
        proof {
            lemma_lookup(self@, key@);
            match lookup(self@, key@) {
                Some(v) => {
                    let k = choose|k: int| 0 <= k < self@.len() && self@[k] == (key@, v);
                    assert(self@[k].0 == key@);
                },
                None => {},
            }
        }
        None
    }

    /// Whether some entry has the key `key`.
    pub fn contains_key(&self, key: &str) -> (b: bool)
        ensures
            b == (lookup(self@, key@) is Some),
    {
        self.get(key).is_some()
    }

    /// Stores `value` under `key`, in place of any value stored there before.
    pub fn insert(&mut self, key: String, value: String)
        ensures
            lookup(final(self)@, key@) == Some(value@),
            forall|k: Seq<char>| k != key@ ==> lookup(final(self)@, k) == lookup(old(self)@, k),
    {
        proof {
            use_type_invariant(&*self);
        }
        let ghost before = self@;
        let mut i: usize = 0;
        while i < self.entries.len() && key_compare(self.entries[i].0.as_str(), key.as_str()) < 0
            invariant
                i <= self.entries.len(),
                before == self@,
                sorted_keys(before),
                forall|k: int| 0 <= k < i ==> key_less(before[k].0, key@),
            decreases self.entries.len() - i,
        {
            assert(before[i as int] == (self.entries@[i as int].0@, self.entries@[i as int].1@));
            i += 1;
        }
        if i < self.entries.len() && key_compare(self.entries[i].0.as_str(), key.as_str()) == 0 {
            let mut entries = Vec::new();
            std::mem::swap(&mut entries, &mut self.entries);
            assert(entries@.map_values(|e: (String, String)| (e.0@, e.1@)) == before);
            let ghost old_entries = entries@;
            entries.set(i, (key, value));
            let ghost after = entries@.map_values(|e: (String, String)| (e.0@, e.1@));
            assert(after =~= before.update(i as int, (key@, value@)));
            proof {
                assert(before[i as int].0 == key@);
                assert(sorted_keys(after)) by {
                    assert forall|a: int, b: int| 0 <= a < b < after.len() implies key_less(#[trigger] after[a].0, #[trigger] after[b].0) by {
                        assert(after[a].0 == before[a].0);
                        assert(after[b].0 == before[b].0);
                    }
                }
                lemma_lookup_at(after, i as int);
                assert forall|k: Seq<char>| k != key@ implies lookup(after, k) == lookup(before, k) by {
                    lemma_lookup(after, k);
                    lemma_lookup(before, k);
                    match lookup(before, k) {
                        Some(v) => {
                            let m = choose|m: int| 0 <= m < before.len() && before[m] == (k, v);
                            assert(after[m] == before[m]);
                            lemma_lookup_at(after, m);
                        },
                        None => {
                            match lookup(after, k) {
                                Some(v) => {
                                    let m = choose|m: int| 0 <= m < after.len() && after[m] == (k, v);
                                    assert(before[m].0 == k);
                                },
                                None => {},
                            }
                        },
                    }
                }
            }
            self.entries = entries;
        } else {
            let ghost n = i as int;
            proof {
                if n < before.len() {
                    lemma_key_less_total(before[n].0, key@);
                }
            }
            let mut entries = Vec::new();
            std::mem::swap(&mut entries, &mut self.entries);
            assert(entries@.map_values(|e: (String, String)| (e.0@, e.1@)) == before);
            entries.insert(i, (key, value));
            let ghost after = entries@.map_values(|e: (String, String)| (e.0@, e.1@));
            assert(after =~= before.insert(n, (key@, value@)));
            proof {
                assert(sorted_keys(after)) by {
                    assert forall|a: int, b: int| 0 <= a < b < after.len() implies key_less(#[trigger] after[a].0, #[trigger] after[b].0) by {
                        if b < n {
                            assert(after[a] == before[a] && after[b] == before[b]);
                        } else if b == n {
                            assert(after[a] == before[a]);
                        } else if a == n {
                            assert(after[b] == before[b - 1]);
                            if b - 1 > n {
                                assert(key_less(before[n].0, before[b - 1].0));
                                lemma_key_less_transitive(key@, before[n].0, before[b - 1].0);
                            }
                        } else if a < n {
                            assert(after[a] == before[a] && after[b] == before[b - 1]);
                        } else {
                            assert(after[a] == before[a - 1] && after[b] == before[b - 1]);
                        }
                    }
                }
                assert(after[n] == (key@, value@));
                lemma_lookup_at(after, n);
                assert forall|k: Seq<char>| k != key@ implies lookup(after, k) == lookup(before, k) by {
                    lemma_lookup(after, k);
                    lemma_lookup(before, k);
                    match lookup(before, k) {
                        Some(v) => {
                            let m = choose|m: int| 0 <= m < before.len() && before[m] == (k, v);
                            if m < n {
                                assert(after[m] == before[m]);
                                lemma_lookup_at(after, m);
                            } else {
                                assert(after[m + 1] == before[m]);
                                lemma_lookup_at(after, m + 1);
                            }
                        },
                        None => {
                            match lookup(after, k) {
                                Some(v) => {
                                    let m = choose|m: int| 0 <= m < after.len() && after[m] == (k, v);
                                    if m < n {
                                        assert(before[m] == after[m]);
                                    } else if m > n {
                                        assert(before[m - 1] == after[m]);
                                    }
                                },
                                None => {},
                            }
                        },
                    }
                }
            }
            self.entries = entries;
        }
    }
}

} // verus!
