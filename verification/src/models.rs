//! The model allowlist: bridge model id to Cursor `--model` value, kept
//! sorted by id the way an ordered map keeps its keys.

use vstd::prelude::*;
use crate::text::{chars_of, pair_views, string_views};

verus! {

// ---------------------------------------------------------------------------
// Order on texts

/// `a` sorts before `b`: character codes compared left to right, a proper
/// prefix first (the order of `str`'s `<`).
pub open spec fn text_lt(a: Seq<char>, b: Seq<char>) -> bool
    decreases a.len(),
{
    if a.len() == 0 {
        b.len() > 0
    } else if b.len() == 0 {
        false
    } else if a[0] != b[0] {
        a[0] < b[0]
    } else {
        text_lt(a.drop_first(), b.drop_first())
    }
}

pub proof fn lemma_text_lt_irreflexive(a: Seq<char>)
    ensures
        !text_lt(a, a),
    decreases a.len(),
{
    if a.len() > 0 {
        lemma_text_lt_irreflexive(a.drop_first());
    }
}

pub proof fn lemma_text_lt_transitive(a: Seq<char>, b: Seq<char>, c: Seq<char>)
    requires
        text_lt(a, b),
        text_lt(b, c),
    ensures
        text_lt(a, c),
    decreases a.len(),
{
    if a.len() > 0 && b.len() > 0 && c.len() > 0 {
        if a[0] == b[0] && b[0] == c[0] {
            lemma_text_lt_transitive(a.drop_first(), b.drop_first(), c.drop_first());
        }
    }
}

/// Where `a` stands relative to `b`.
#[derive(Debug, Clone, Copy, PartialEq, Eq)]
pub enum Placement {
    Before,
    Same,
    After,
}

/// Where `a` stands relative to `b` in the order `text_lt`.
pub fn place(a: &str, b: &str) -> (res: Placement)
    ensures
        res == Placement::Before <==> text_lt(a@, b@),
        res == Placement::Same <==> a@ == b@,
        res == Placement::After <==> text_lt(b@, a@),
{
    let x = chars_of(a);
    let y = chars_of(b);
    let mut i: usize = 0;
    proof {
        lemma_text_lt_irreflexive(a@);
        lemma_text_lt_irreflexive(b@);
        assert(x@.skip(0) =~= x@);
        assert(y@.skip(0) =~= y@);
    }
    while i < x.len() && i < y.len()
        invariant
            i <= x@.len(),
            i <= y@.len(),
            x@ == a@,
            y@ == b@,
            x@.take(i as int) == y@.take(i as int),
            text_lt(a@, b@) == text_lt(x@.skip(i as int), y@.skip(i as int)),
            text_lt(b@, a@) == text_lt(y@.skip(i as int), x@.skip(i as int)),
        decreases x@.len() - i,
    {
        if x[i] != y[i] {
            proof {
                assert(x@.skip(i as int)[0] == x@[i as int]);
                assert(y@.skip(i as int)[0] == y@[i as int]);
                if a@ == b@ {
                    assert(x@[i as int] == y@[i as int]);
                }
            }
            if x[i] < y[i] {
                return Placement::Before;
            } else {
                return Placement::After;
            }
        }
        proof {
            assert(x@.skip(i as int).drop_first() =~= x@.skip(i + 1));
            assert(y@.skip(i as int).drop_first() =~= y@.skip(i + 1));
            assert(x@.take(i + 1) =~= x@.take(i as int).push(x@[i as int]));
            assert(y@.take(i + 1) =~= y@.take(i as int).push(y@[i as int]));
        }
        i = i + 1;
    }
    proof {
        assert(x@.take(x@.len() as int) =~= x@);
        assert(y@.take(y@.len() as int) =~= y@);
    }
    if i == x.len() && i == y.len() {
        assert(a@ =~= b@);
        Placement::Same
    } else if i == x.len() {
        proof {
            if a@ == b@ {
                assert(x@.len() == y@.len());
            }
        }
        Placement::Before
    } else {
        proof {
            if a@ == b@ {
                assert(x@.len() == y@.len());
            }
        }
        Placement::After
    }
}

// ---------------------------------------------------------------------------
// The map

/// The value stored under `k` in an association list (its first entry).
pub open spec fn lookup(entries: Seq<(Seq<char>, Seq<char>)>, k: Seq<char>) -> Option<Seq<char>>
    decreases entries.len(),
{
    if entries.len() == 0 {
        None
    } else if entries[0].0 == k {
        Some(entries[0].1)
    } else {
        lookup(entries.drop_first(), k)
    }
}

/// The keys of `entries` strictly increase.
pub open spec fn strictly_sorted(entries: Seq<(Seq<char>, Seq<char>)>) -> bool {
    forall|i: int, j: int| 0 <= i < j < entries.len() ==> text_lt(#[trigger] entries[i].0, #[trigger] entries[j].0)
}

/// The keys of an association list, in order.
pub open spec fn keys_of(entries: Seq<(Seq<char>, Seq<char>)>) -> Seq<Seq<char>> {
    entries.map_values(|e: (Seq<char>, Seq<char>)| e.0)
}

/// Bridge model ids mapped to Cursor `--model` values, sorted by id.
pub struct ModelMap {
    entries: Vec<(String, String)>,
}

impl View for ModelMap {
    type V = Seq<(Seq<char>, Seq<char>)>;

    /// The entries, sorted by id.
    closed spec fn view(&self) -> Seq<(Seq<char>, Seq<char>)> {
        pair_views(self.entries@)
    }
}

proof fn lemma_lookup_at(entries: Seq<(Seq<char>, Seq<char>)>, k: Seq<char>, i: int)
    requires
        strictly_sorted(entries),
        0 <= i < entries.len(),
        entries[i].0 == k,
    ensures
        lookup(entries, k) == Some(entries[i].1),
    decreases i,
{
    if i > 0 {
        lemma_text_lt_irreflexive(k);
        assert(entries[0].0 != k) by {
            assert(text_lt(entries[0].0, entries[i].0));
        }
        let rest = entries.drop_first();
        assert(strictly_sorted(rest)) by {
            assert forall|a: int, b: int| 0 <= a < b < rest.len() implies text_lt(#[trigger] rest[a].0, #[trigger] rest[b].0) by {
                assert(rest[a] == entries[a + 1]);
                assert(rest[b] == entries[b + 1]);
            }
        }
        lemma_lookup_at(rest, k, i - 1);
    }
}

proof fn lemma_lookup_absent(entries: Seq<(Seq<char>, Seq<char>)>, k: Seq<char>)
    requires
        forall|i: int| 0 <= i < entries.len() ==> (#[trigger] entries[i]).0 != k,
    ensures
        lookup(entries, k) is None,
    decreases entries.len(),
{
    if entries.len() > 0 {
        assert(entries[0].0 != k);
        let rest = entries.drop_first();
        assert forall|i: int| 0 <= i < rest.len() implies (#[trigger] rest[i]).0 != k by {
            assert(rest[i] == entries[i + 1]);
        }
        lemma_lookup_absent(rest, k);
    }
}

/// `lookup` in a sorted list is the one entry with that key, if any.
pub proof fn lemma_lookup(entries: Seq<(Seq<char>, Seq<char>)>, k: Seq<char>)
    requires
        strictly_sorted(entries),
    ensures
        lookup(entries, k) is Some <==> exists|i: int| 0 <= i < entries.len() && (#[trigger] entries[i]).0 == k,
        forall|i: int| 0 <= i < entries.len() && (#[trigger] entries[i]).0 == k ==> lookup(entries, k) == Some(entries[i].1),
{
    assert forall|i: int| 0 <= i < entries.len() && (#[trigger] entries[i]).0 == k implies lookup(entries, k) == Some(entries[i].1) by {
        lemma_lookup_at(entries, k, i);
    }
    if !(exists|i: int| 0 <= i < entries.len() && (#[trigger] entries[i]).0 == k) {
        lemma_lookup_absent(entries, k);
    }
}

impl ModelMap {
    #[verifier::type_invariant]
    spec fn sorted(self) -> bool {
        strictly_sorted(self@)
    }

    /// The map as a mathematical map.
    pub open spec fn as_map(self) -> Map<Seq<char>, Seq<char>> {
        Map::new(|k: Seq<char>| lookup(self@, k) is Some, |k: Seq<char>| lookup(self@, k)->0)
    }

    /// An empty map.
    pub fn new() -> (res: ModelMap)
        ensures
            res@ == Seq::<(Seq<char>, Seq<char>)>::empty(),
    {
        let res = ModelMap { entries: Vec::new() };
        assert(res@ =~= Seq::<(Seq<char>, Seq<char>)>::empty());
        res
    }

    /// The number of entries.
    pub fn len(&self) -> (res: usize)
        ensures
            res == self@.len(),
    {
        self.entries.len()
    }

    /// The value stored under `key`.
    pub fn get(&self, key: &str) -> (res: Option<&String>)
        ensures
            match res {
                Some(v) => lookup(self@, key@) == Some(v@),
                None => lookup(self@, key@) is None,
            },
    {
        proof {
            use_type_invariant(self);
            lemma_lookup(self@, key@);
        }
        let mut i: usize = 0;
        while i < self.entries.len()
            invariant
                i <= self@.len(),
                self@.len() == self.entries@.len(),
                forall|j: int| 0 <= j < i ==> (#[trigger] self@[j]).0 != key@,
            decreases self@.len() - i,
        {
            assert(self@[i as int] == (self.entries@[i as int].0@, self.entries@[i as int].1@));
            if crate::json::str_eq(self.entries[i].0.as_str(), key) {
                proof {
                    use_type_invariant(self);
                    lemma_lookup(self@, key@);
                }
                return Some(&self.entries[i].1);
            }
            i = i + 1;
        }
        None
    }

    /// The ids, in order.
    pub fn ids(&self) -> (res: Vec<String>)
        ensures
            string_views(res@) == keys_of(self@),
            strictly_sorted(self@),
    {
        proof {
            use_type_invariant(self);
        }
        let mut out: Vec<String> = Vec::new();
        let mut i: usize = 0;
        while i < self.entries.len()
            invariant
                i <= self@.len(),
                self@.len() == self.entries@.len(),
                string_views(out@) == keys_of(self@).take(i as int),
            decreases self@.len() - i,
        {
            let ghost prev = out@;
            let id = self.entries[i].0.clone();
            out.push(id);
            assert(out@ == prev.push(id));
            assert(string_views(out@) =~= string_views(prev).push(id@));
            assert(id@ == self.entries@[i as int].0@);
            assert(keys_of(self@)[i as int] == self.entries@[i as int].0@);
            i = i + 1;
            assert(string_views(out@) =~= keys_of(self@).take(i as int));
        }
        assert(keys_of(self@).take(i as int) =~= keys_of(self@));
        out
    }

    /// The entries, in order.
    pub fn pairs(&self) -> (res: Vec<(String, String)>)
        ensures
            pair_views(res@) == self@,
            strictly_sorted(self@),
    {
        proof {
            use_type_invariant(self);
        }
        let mut out: Vec<(String, String)> = Vec::new();
        let mut i: usize = 0;
        while i < self.entries.len()
            invariant
                i <= self@.len(),
                self@.len() == self.entries@.len(),
                pair_views(out@) == self@.take(i as int),
            decreases self@.len() - i,
        {
            let ghost prev = out@;
            let e = (self.entries[i].0.clone(), self.entries[i].1.clone());
            out.push(e);
            assert(out@ == prev.push(e));
            assert(pair_views(out@) =~= pair_views(prev).push((e.0@, e.1@)));
            assert(self@[i as int] == (self.entries@[i as int].0@, self.entries@[i as int].1@));
            i = i + 1;
            assert(pair_views(out@) =~= self@.take(i as int));
        }
        assert(self@.take(i as int) =~= self@);
        out
    }

    /// A copy of the map.
    pub fn copy(&self) -> (res: ModelMap)
        ensures
            res@ == self@,
    {
        proof {
            use_type_invariant(self);
        }
        let res = ModelMap { entries: self.pairs() };
        assert(res@ =~= self@);
        res
    }

    /// The position at which `key` stands or belongs, and whether it is there.
    fn position(&self, key: &str) -> (res: (usize, bool))
        ensures
            res.0 <= self@.len(),
            forall|j: int| 0 <= j < res.0 ==> text_lt(#[trigger] self@[j].0, key@),
            res.1 ==> res.0 < self@.len() && self@[res.0 as int].0 == key@,
            !res.1 && res.0 < self@.len() ==> text_lt(key@, self@[res.0 as int].0),
    {
        proof {
            use_type_invariant(self);
        }
        let mut i: usize = 0;
        while i < self.entries.len()
            invariant
                i <= self@.len(),
                self@.len() == self.entries@.len(),
                forall|j: int| 0 <= j < i ==> text_lt(#[trigger] self@[j].0, key@),
            decreases self@.len() - i,
        {
            assert(self@[i as int].0 == self.entries@[i as int].0@);
            match place(self.entries[i].0.as_str(), key) {
                Placement::Before => {},
                Placement::Same => {
                    return (i, true);
                },
                Placement::After => {
                    return (i, false);
                },
            }
            i = i + 1;
        }
        (i, false)
    }

    /// Stores `value` under `key`, replacing what was there.
    pub fn insert(&mut self, key: String, value: String)
        ensures
            final(self).as_map() == old(self).as_map().insert(key@, value@),
    {
        proof {
            use_type_invariant(&*self);
        }
        let ghost k = key@;
        let ghost v = value@;
        let ghost before = self@;
        let (i, found) = self.position(key.as_str());
        let mut entries = Vec::new();
        std::mem::swap(&mut entries, &mut self.entries);
        assert(pair_views(entries@) == before);
        if found {
            entries.set(i, (key, value));
        } else {
            entries.insert(i, (key, value));
        }
        let ghost after = pair_views(entries@);
        proof {
            if found {
                assert(after =~= before.update(i as int, (k, v)));
            } else {
                assert(after =~= before.insert(i as int, (k, v)));
            }
            assert forall|a: int, b: int| 0 <= a < b < after.len() implies text_lt(#[trigger] after[a].0, #[trigger] after[b].0) by {
                if found {
                    if a == i {
                        assert(after[a].0 == before[a].0);
                    } else if b == i {
                        assert(after[b].0 == before[b].0);
                    }
                } else {
                    if a < i && b == i {
                    } else if a < i && b > i {
                        assert(after[b] == before[b - 1]);
                    } else if a == i {
                        assert(after[b] == before[b - 1]);
                        if b - 1 > i {
                            lemma_text_lt_transitive(k, before[i as int].0, before[b - 1].0);
                        }
                    } else if a > i {
                        assert(after[a] == before[a - 1]);
                        assert(after[b] == before[b - 1]);
                    }
                }
            }
        }
        self.entries = entries;
        proof {
            assert(self@ == after);
            lemma_lookup(before, k);
            lemma_lookup(after, k);
            assert(lookup(after, k) == Some(v)) by {
                assert(after[i as int].0 == k);
            }
            assert forall|q: Seq<char>| q != k implies #[trigger] lookup(after, q) == lookup(before, q) by {
                lemma_lookup(before, q);
                lemma_lookup(after, q);
                if lookup(before, q) is Some {
                    let j = choose|j: int| 0 <= j < before.len() && (#[trigger] before[j]).0 == q;
                    if found {
                        assert(after[j] == before[j]);
                    } else if j < i {
                        assert(after[j] == before[j]);
                    } else {
                        assert(after[j + 1] == before[j]);
                    }
                }
                if lookup(after, q) is Some {
                    let j = choose|j: int| 0 <= j < after.len() && (#[trigger] after[j]).0 == q;
                    if found {
                        assert(after[j] == before[j]);
                    } else if j < i {
                        assert(after[j] == before[j]);
                    } else {
                        assert(j != i);
                        assert(after[j] == before[j - 1]);
                    }
                }
            }
            assert(final(self).as_map() =~= old(self).as_map().insert(k, v));
        }
    }

    /// Stores `value` under `key` unless `key` is already there.
    pub fn insert_if_absent(&mut self, key: String, value: String)
        ensures
            old(self).as_map().contains_key(key@) ==> final(self).as_map() == old(self).as_map(),
            !old(self).as_map().contains_key(key@) ==> final(self).as_map() == old(self).as_map().insert(key@, value@),
    {
        let present = self.get(key.as_str()).is_some();
        if !present {
            self.insert(key, value);
        }
    }
}


/// A read gives back what a write stored: after `insert(k, v)` (whose
/// contract is this relation between the maps), `get(k)` finds `v`, and
/// every other id reads as before.
pub proof fn law_read_after_insert(before: ModelMap, after: ModelMap, k: Seq<char>, v: Seq<char>)
    requires
        after.as_map() == before.as_map().insert(k, v),
    ensures
        lookup(after@, k) == Some(v),
        forall|q: Seq<char>| q != k ==> #[trigger] lookup(after@, q) == lookup(before@, q),
{
    assert(after.as_map().contains_key(k));
    assert(after.as_map()[k] == v);
    assert forall|q: Seq<char>| q != k implies #[trigger] lookup(after@, q) == lookup(before@, q) by {
        assert(after.as_map().contains_key(q) == before.as_map().contains_key(q));
        if before.as_map().contains_key(q) {
            assert(after.as_map()[q] == before.as_map()[q]);
        }
    }
}

} // verus!
