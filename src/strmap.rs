use vstd::prelude::*;

verus! {

/// The abstract contents of a map: its entries, in order.
pub type Entries = Seq<(Seq<char>, Seq<char>)>;

/// No key occurs twice among the entries.
pub open spec fn keys_distinct(e: Entries) -> bool {
    forall|i: int, j: int| 0 <= i < e.len() && 0 <= j < e.len() && i != j ==> e[i].0 != e[j].0
}

/// Some entry has the key `k`.
pub open spec fn has_key(e: Entries, k: Seq<char>) -> bool {
    exists|i: int| 0 <= i < e.len() && e[i].0 == k
}

/// The position of the entry with key `k`, where there is one.
pub open spec fn index_of(e: Entries, k: Seq<char>) -> int {
    choose|i: int| 0 <= i < e.len() && e[i].0 == k
}

/// The entries read as a mathematical map from keys to values.
pub open spec fn map_of(e: Entries) -> Map<Seq<char>, Seq<char>> {
    Map::new(|k: Seq<char>| has_key(e, k), |k: Seq<char>| e[index_of(e, k)].1)
}

/// The entries after setting `k` to `v`: an existing entry keeps its place, a new one goes last.
pub open spec fn with_entry(e: Entries, k: Seq<char>, v: Seq<char>) -> Entries {
    if has_key(e, k) {
        e.update(index_of(e, k), (k, v))
    } else {
        e.push((k, v))
    }
}

/// The entries after dropping the one with key `k`, if any.
pub open spec fn without_key(e: Entries, k: Seq<char>) -> Entries {
    if has_key(e, k) {
        e.remove(index_of(e, k))
    } else {
        e
    }
}

/// The keys of the entries, in order.
pub open spec fn keys_of(e: Entries) -> Seq<Seq<char>> {
    e.map_values(|p: (Seq<char>, Seq<char>)| p.0)
}

/// The values of the entries, in order.
pub open spec fn values_of(e: Entries) -> Seq<Seq<char>> {
    e.map_values(|p: (Seq<char>, Seq<char>)| p.1)
}

/// The entries that setting each pair in turn gives, starting from no entry.
pub open spec fn collected(pairs: Entries) -> Entries
    decreases pairs.len(),
{
    if pairs.len() == 0 {
        pairs
    } else {
        with_entry(collected(pairs.drop_last()), pairs.last().0, pairs.last().1)
    }
}

/// With distinct keys, the entry at `i` is the one that its key finds.
pub proof fn lemma_index_of(e: Entries, i: int)
    requires
        keys_distinct(e),
        0 <= i < e.len(),
    ensures
        has_key(e, e[i].0),
        index_of(e, e[i].0) == i,
        map_of(e).contains_key(e[i].0),
        map_of(e)[e[i].0] == e[i].1,
{
    assert(has_key(e, e[i].0));
    let j = index_of(e, e[i].0);
    assert(e[j].0 == e[i].0);
}

/// A map from strings to strings that keeps its entries in order, each key once.
#[derive(Debug)]
pub struct StrMap {
    entries: Vec<(String, String)>,
}

impl View for StrMap {
    type V = Entries;

    closed spec fn view(&self) -> Entries {
        self.entries@.map_values(|p: (String, String)| (p.0@, p.1@))
    }
}

impl StrMap {
    /// Well-formed: each key occurs once.
    pub open spec fn wf(&self) -> bool {
        keys_distinct(self@)
    }

    /// An empty map.
    pub fn new() -> (r: StrMap)
        ensures
            r.wf(),
            r@ == Seq::<(Seq<char>, Seq<char>)>::empty(),
    {
        let r = StrMap { entries: Vec::new() };
        assert(r@ =~= Seq::<(Seq<char>, Seq<char>)>::empty());
        r
    }

    /// The map that setting each pair in turn gives: a repeated key keeps its first place
    /// and its last value.
    pub fn from_pairs(pairs: Vec<(String, String)>) -> (r: StrMap)
        ensures
            r.wf(),
            r@ == collected(pairs@.map_values(|p: (String, String)| (p.0@, p.1@))),
    {
        let ghost pv = pairs@.map_values(|p: (String, String)| (p.0@, p.1@));
        let mut out = StrMap::new();
        let n = pairs.len();
        let mut i: usize = 0;
        assert(pv.take(0) =~= Seq::<(Seq<char>, Seq<char>)>::empty());
        while i < n
            invariant
                out.wf(),
                n == pairs@.len(),
                pv == pairs@.map_values(|p: (String, String)| (p.0@, p.1@)),
                i <= n,
                out@ == collected(pv.take(i as int)),
            decreases n - i,
        {
            assert(pv.take(i + 1).drop_last() =~= pv.take(i as int));
            out.insert(pairs[i].0.clone(), pairs[i].1.clone());
            i = i + 1;
        }
        assert(pv.take(n as int) =~= pv);
        out
    }

    /// The entries, in order.
    pub fn pairs(&self) -> (r: &Vec<(String, String)>)
        ensures
            r@.map_values(|p: (String, String)| (p.0@, p.1@)) == self@,
    {
        &self.entries
    }

    /// The number of entries.
    pub fn len(&self) -> (r: usize)
        ensures
            r == self@.len(),
    {
        self.entries.len()
    }

    /// Whether the map has no entry.
    pub fn is_empty(&self) -> (r: bool)
        ensures
            r == (self@.len() == 0),
    {
        self.entries.len() == 0
    }

    /// The key of the entry at position `i`.
    pub fn key_at(&self, i: usize) -> (r: &String)
        requires
            i < self@.len(),
        ensures
            r@ == self@[i as int].0,
    {
        &self.entries[i].0
    }

    /// The value of the entry at position `i`.
    pub fn value_at(&self, i: usize) -> (r: &String)
        requires
            i < self@.len(),
        ensures
            r@ == self@[i as int].1,
    {
        &self.entries[i].1
    }

    /// The position of the entry with key `key`, if there is one.
    pub fn position(&self, key: &String) -> (r: Option<usize>)
        requires
            self.wf(),
        ensures
            r is None <==> !has_key(self@, key@),
            r matches Some(i) ==> i < self@.len() && self@[i as int].0 == key@ && i == index_of(
                self@,
                key@,
            ),
    {
        let n = self.entries.len();
        let mut i: usize = 0;
        while i < n
            invariant
                self.wf(),
                n == self@.len(),
                i <= n,
                forall|j: int| 0 <= j < i ==> self@[j].0 != key@,
            decreases n - i,
        {
            if self.entries[i].0 == *key {
                proof {
                    lemma_index_of(self@, i as int);
                }
                return Some(i);
            }
            i = i + 1;
        }
        None
    }

    /// Whether some entry has the key `key`.
    pub fn contains_key(&self, key: &String) -> (r: bool)
        requires
            self.wf(),
        ensures
            r == has_key(self@, key@),
            r == map_of(self@).contains_key(key@),
    {
        self.position(key).is_some()
    }

    /// The value stored under `key`, if any.
    pub fn get(&self, key: &String) -> (r: Option<&String>)
        requires
            self.wf(),
        ensures
            r is None <==> !map_of(self@).contains_key(key@),
            r matches Some(v) ==> v@ == map_of(self@)[key@],
    {
        match self.position(key) {
            Some(i) => Some(&self.entries[i].1),
            None => None,
        }
    }

    /// Appends an entry under a key that the map does not hold yet.
    pub(crate) fn push_new(&mut self, key: String, value: String)
        requires
            old(self).wf(),
            !has_key(old(self)@, key@),
        ensures
            final(self).wf(),
            final(self)@ == old(self)@.push((key@, value@)),
            map_of(final(self)@) == map_of(old(self)@).insert(key@, value@),
    {
        let ghost e = self@;
        proof {
            assert(self.entries@.push((key, value)).map_values(|p: (String, String)| (p.0@, p.1@))
                =~= e.push((key@, value@)));
            lemma_map_of_push(e, key@, value@);
        }
        self.entries.push((key, value));
    }

    /// Sets `key` to `value`: an existing entry keeps its place, a new one goes last.
    /// Returns the value that was replaced, if any.
    pub fn insert(&mut self, key: String, value: String) -> (r: Option<String>)
        requires
            old(self).wf(),
        ensures
            final(self).wf(),
            final(self)@ == with_entry(old(self)@, key@, value@),
            map_of(final(self)@) == map_of(old(self)@).insert(key@, value@),
            r is None <==> !has_key(old(self)@, key@),
            r matches Some(v) ==> v@ == map_of(old(self)@)[key@],
    {
        let ghost e = self@;
        let ghost k = key@;
        let ghost v = value@;
        match self.position(&key) {
            Some(i) => {
                let old_value = self.entries[i].1.clone();
                proof {
                    lemma_index_of(e, i as int);
                    assert(self.entries@.update(i as int, (key, value)).map_values(
                        |p: (String, String)| (p.0@, p.1@),
                    ) =~= e.update(i as int, (k, v)));
                }
                self.entries.set(i, (key, value));
                proof {
                    lemma_map_of_update(e, i as int, v);
                }
                Some(old_value)
            },
            None => {
                proof {
                    assert(self.entries@.push((key, value)).map_values(
                        |p: (String, String)| (p.0@, p.1@),
                    ) =~= e.push((k, v)));
                    lemma_map_of_push(e, k, v);
                }
                self.entries.push((key, value));
                None
            },
        }
    }

    /// Removes the entry with key `key`, keeping the order of the others.
    /// Returns its value, or `None` where there was no such entry.
    pub fn remove(&mut self, key: &String) -> (r: Option<String>)
        requires
            old(self).wf(),
        ensures
            final(self).wf(),
            final(self)@ == without_key(old(self)@, key@),
            map_of(final(self)@) == map_of(old(self)@).remove(key@),
            r is None <==> !has_key(old(self)@, key@),
            r matches Some(v) ==> v@ == map_of(old(self)@)[key@],
    {
        let ghost e = self@;
        match self.position(key) {
            Some(i) => {
                proof {
                    lemma_index_of(e, i as int);
                    assert(self.entries@.remove(i as int).map_values(
                        |p: (String, String)| (p.0@, p.1@),
                    ) =~= e.remove(i as int));
                    lemma_map_of_remove(e, i as int);
                }
                let (_, v) = self.entries.remove(i);
                Some(v)
            },
            None => {
                proof {
                    assert(map_of(e).remove(key@) =~= map_of(e));
                }
                None
            },
        }
    }

    /// The keys, in order.
    pub fn keys(&self) -> (r: Vec<String>)
        ensures
            r@.map_values(|s: String| s@) == keys_of(self@),
    {
        let n = self.entries.len();
        let mut out: Vec<String> = Vec::new();
        let mut i: usize = 0;
        while i < n
            invariant
                n == self@.len(),
                i <= n,
                out@.map_values(|s: String| s@) =~= keys_of(self@).take(i as int),
            decreases n - i,
        {
            let ghost before = out@;
            out.push(self.entries[i].0.clone());
            proof {
                assert(keys_of(self@).take(i + 1) =~= keys_of(self@).take(i as int).push(self@[i as int].0));
                assert(out@.map_values(|s: String| s@) =~= before.map_values(|s: String| s@).push(self@[i as int].0));
            }
            i = i + 1;
        }
        assert(keys_of(self@).take(n as int) =~= keys_of(self@));
        out
    }

    /// The values, in order.
    pub fn values(&self) -> (r: Vec<String>)
        ensures
            r@.map_values(|s: String| s@) == values_of(self@),
    {
        let n = self.entries.len();
        let mut out: Vec<String> = Vec::new();
        let mut i: usize = 0;
        while i < n
            invariant
                n == self@.len(),
                i <= n,
                out@.map_values(|s: String| s@) =~= values_of(self@).take(i as int),
            decreases n - i,
        {
            let ghost before = out@;
            out.push(self.entries[i].1.clone());
            proof {
                assert(values_of(self@).take(i + 1) =~= values_of(self@).take(i as int).push(self@[i as int].1));
                assert(out@.map_values(|s: String| s@) =~= before.map_values(|s: String| s@).push(self@[i as int].1));
            }
            i = i + 1;
        }
        assert(values_of(self@).take(n as int) =~= values_of(self@));
        out
    }

    /// Whether both maps hold the same entries in the same order.
    pub fn same_entries(&self, other: &StrMap) -> (r: bool)
        ensures
            r == (self@ == other@),
    {
        let n = self.entries.len();
        if n != other.entries.len() {
            return false;
        }
        let mut i: usize = 0;
        while i < n
            invariant
                n == self@.len(),
                n == other@.len(),
                i <= n,
                forall|j: int| 0 <= j < i ==> self@[j] == other@[j],
            decreases n - i,
        {
            if !(self.entries[i].0 == other.entries[i].0) || !(self.entries[i].1
                == other.entries[i].1) {
                assert(self@[i as int] != other@[i as int]);
                return false;
            }
            i = i + 1;
        }
        assert(self@ =~= other@);
        true
    }
}

/// Entries whose keys are distinct collect to themselves.
pub proof fn lemma_collected_distinct(e: Entries)
    requires
        keys_distinct(e),
    ensures
        collected(e) == e,
    decreases e.len(),
{
    if e.len() > 0 {
        let rest = e.drop_last();
        assert(keys_distinct(rest));
        lemma_collected_distinct(rest);
        assert(!has_key(rest, e.last().0)) by {
            if has_key(rest, e.last().0) {
                let j = index_of(rest, e.last().0);
                assert(e[j].0 == e[e.len() - 1].0);
            }
        }
        assert(rest.push(e.last()) =~= e);
    }
}

/// A key found among the kept entries was among all the entries.
pub proof fn lemma_filter_has_key(e: Entries, p: spec_fn((Seq<char>, Seq<char>)) -> bool, k: Seq<char>)
    requires
        has_key(e.filter(p), k),
    ensures
        has_key(e, k),
{
    let f = e.filter(p);
    let j = index_of(f, k);
    assert(f.contains(f[j]));
    e.lemma_filter_contains_rev(p, f[j]);
    let m = choose|m: int| 0 <= m < e.len() && e[m] == f[j];
    assert(e[m].0 == k);
}

/// Keeping the entries that satisfy `p` keeps the keys distinct, and gives the map restricted
/// to the keys whose entry satisfies `p`.
pub proof fn lemma_map_of_filter(e: Entries, p: spec_fn((Seq<char>, Seq<char>)) -> bool)
    requires
        keys_distinct(e),
    ensures
        keys_distinct(e.filter(p)),
        map_of(e.filter(p)) == Map::new(
            |k: Seq<char>| map_of(e).contains_key(k) && p((k, map_of(e)[k])),
            |k: Seq<char>| map_of(e)[k],
        ),
    decreases e.len(),
{
    let target = Map::new(
        |k: Seq<char>| map_of(e).contains_key(k) && p((k, map_of(e)[k])),
        |k: Seq<char>| map_of(e)[k],
    );
    if e.len() == 0 {
        reveal(Seq::filter);
        assert(map_of(e.filter(p)) =~= target);
    } else {
        let d = e.drop_last();
        let last = e.last();
        assert(e =~= d.push(last));
        assert(keys_distinct(d));
        assert(!has_key(d, last.0)) by {
            if has_key(d, last.0) {
                let j = index_of(d, last.0);
                assert(e[j].0 == e[e.len() - 1].0);
            }
        }
        lemma_map_of_filter(d, p);
        lemma_map_of_push(d, last.0, last.1);
        d.lemma_filter_push(last, p);
        if p(last) {
            assert(!has_key(d.filter(p), last.0)) by {
                if has_key(d.filter(p), last.0) {
                    lemma_filter_has_key(d, p, last.0);
                }
            }
            lemma_map_of_push(d.filter(p), last.0, last.1);
        }
        assert(map_of(e.filter(p)) =~= target);
    }
}

/// Replacing the value at `i` changes only that key in the map.
pub proof fn lemma_map_of_update(e: Entries, i: int, v: Seq<char>)
    requires
        keys_distinct(e),
        0 <= i < e.len(),
    ensures
        keys_distinct(e.update(i, (e[i].0, v))),
        map_of(e.update(i, (e[i].0, v))) == map_of(e).insert(e[i].0, v),
{
    let f = e.update(i, (e[i].0, v));
    assert(keys_distinct(f));
    assert forall|k: Seq<char>| has_key(f, k) == map_of(e).insert(e[i].0, v).contains_key(k) by {
        if has_key(e, k) {
            let j = index_of(e, k);
            assert(f[j].0 == k);
        }
        if has_key(f, k) {
            let j = index_of(f, k);
            assert(e[j].0 == k);
        }
    }
    assert forall|k: Seq<char>| #[trigger]
        map_of(f).contains_key(k) implies map_of(f)[k] == map_of(e).insert(e[i].0, v)[k] by {
        let j = index_of(f, k);
        lemma_index_of(f, j);
        if j != i {
            lemma_index_of(e, j);
        }
    }
    assert(map_of(f) =~= map_of(e).insert(e[i].0, v));
}

/// Appending an entry with a new key adds that key to the map.
pub proof fn lemma_map_of_push(e: Entries, k: Seq<char>, v: Seq<char>)
    requires
        keys_distinct(e),
        !has_key(e, k),
    ensures
        keys_distinct(e.push((k, v))),
        map_of(e.push((k, v))) == map_of(e).insert(k, v),
{
    let f = e.push((k, v));
    assert(keys_distinct(f)) by {
        assert forall|i: int, j: int|
            0 <= i < f.len() && 0 <= j < f.len() && i != j implies f[i].0 != f[j].0 by {
            if i == e.len() {
                assert(e[j].0 != k);
            }
            if j == e.len() {
                assert(e[i].0 != k);
            }
        }
    }
    assert forall|q: Seq<char>| has_key(f, q) == map_of(e).insert(k, v).contains_key(q) by {
        if has_key(e, q) {
            let j = index_of(e, q);
            assert(f[j].0 == q);
        }
        if has_key(f, q) && q != k {
            let j = index_of(f, q);
            assert(e[j].0 == q);
        }
        if q == k {
            assert(f[e.len() as int].0 == q);
        }
    }
    assert forall|q: Seq<char>| #[trigger]
        map_of(f).contains_key(q) implies map_of(f)[q] == map_of(e).insert(k, v)[q] by {
        let j = index_of(f, q);
        lemma_index_of(f, j);
        if j < e.len() {
            lemma_index_of(e, j);
        }
    }
    assert(map_of(f) =~= map_of(e).insert(k, v));
}

/// Removing the entry at `i` removes its key from the map.
pub proof fn lemma_map_of_remove(e: Entries, i: int)
    requires
        keys_distinct(e),
        0 <= i < e.len(),
    ensures
        keys_distinct(e.remove(i)),
        map_of(e.remove(i)) == map_of(e).remove(e[i].0),
{
    let f = e.remove(i);
    let k = e[i].0;
    assert forall|a: int| 0 <= a < f.len() implies #[trigger] f[a] == e[if a < i {
        a
    } else {
        a + 1
    }] by {}
    assert(keys_distinct(f)) by {
        assert forall|a: int, b: int|
            0 <= a < f.len() && 0 <= b < f.len() && a != b implies f[a].0 != f[b].0 by {
            let ia = if a < i {
                a
            } else {
                a + 1
            };
            let ib = if b < i {
                b
            } else {
                b + 1
            };
            assert(f[a] == e[ia]);
            assert(f[b] == e[ib]);
        }
    }
    assert forall|q: Seq<char>| has_key(f, q) == map_of(e).remove(k).contains_key(q) by {
        if has_key(e, q) && q != k {
            let j = index_of(e, q);
            if j < i {
                assert(f[j].0 == q);
            } else {
                assert(j != i);
                assert(f[j - 1] == e[j]);
            }
        }
        if has_key(f, q) {
            let j = index_of(f, q);
            let ij = if j < i {
                j
            } else {
                j + 1
            };
            assert(f[j] == e[ij]);
            assert(ij != i);
        }
    }
    assert forall|q: Seq<char>| #[trigger]
        map_of(f).contains_key(q) implies map_of(f)[q] == map_of(e).remove(k)[q] by {
        let j = index_of(f, q);
        lemma_index_of(f, j);
        let ij = if j < i {
            j
        } else {
            j + 1
        };
        assert(f[j] == e[ij]);
        lemma_index_of(e, ij);
    }
    assert(map_of(f) =~= map_of(e).remove(k));
}

} // verus!
