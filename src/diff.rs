use vstd::prelude::*;

use crate::strmap::{
    has_key, index_of, keys_distinct, lemma_filter_has_key, lemma_index_of, lemma_map_of_filter,
    map_of, Entries, StrMap,
};

verus! {

/// A flat document: keys mapped to plain text.
pub type LocaleData = StrMap;

/// An entry of `current` is changed or added when `original` lacks its key or holds
/// another value under it.
pub open spec fn changed_from(original: Entries) -> spec_fn((Seq<char>, Seq<char>)) -> bool {
    |p: (Seq<char>, Seq<char>)| !map_of(original).contains_key(p.0) || map_of(original)[p.0] != p.1
}

/// An entry of `original` is removed when `current` lacks its key.
pub open spec fn absent_from(current: Entries) -> spec_fn((Seq<char>, Seq<char>)) -> bool {
    |p: (Seq<char>, Seq<char>)| !map_of(current).contains_key(p.0)
}

/// The entries of `current` that are new or changed, in the order of `current`.
pub open spec fn changed_or_added_of(original: Entries, current: Entries) -> Entries {
    current.filter(changed_from(original))
}

/// The entries of `original` whose key `current` lacks, in the order of `original`.
pub open spec fn removed_of(original: Entries, current: Entries) -> Entries {
    original.filter(absent_from(current))
}

/// Nothing changed, was added or was removed.
pub open spec fn diff_is_empty(original: Entries, current: Entries) -> bool {
    changed_or_added_of(original, current).len() == 0 && removed_of(original, current).len() == 0
}

/// What changed between two states of a document.
pub struct LocaleDataDiff {
    /// Entries of the newer state that are new or hold another value.
    pub changed_or_added: LocaleData,
    /// Entries of the older state whose key is gone.
    pub removed: LocaleData,
}

impl LocaleDataDiff {
    /// Both parts are well-formed maps.
    pub open spec fn wf(&self) -> bool {
        self.changed_or_added.wf() && self.removed.wf()
    }

    /// The difference from `original` to `current`, or `None` where there is none.
    pub fn diff(original: &LocaleData, current: &LocaleData) -> (r: Option<LocaleDataDiff>)
        requires
            original.wf(),
            current.wf(),
        ensures
            r is None <==> diff_is_empty(original@, current@),
            r matches Some(d) ==> {
                &&& d.wf()
                &&& d.changed_or_added@ == changed_or_added_of(original@, current@)
                &&& d.removed@ == removed_of(original@, current@)
            },
    {
        if original.same_entries(current) {
            proof {
                lemma_diff_self_empty(original@);
            }
            return None;
        }
        let changed_or_added = kept_entries(current, original, true);
        let removed = kept_entries(original, current, false);
        if changed_or_added.is_empty() && removed.is_empty() {
            return None;
        }
        Some(LocaleDataDiff { changed_or_added, removed })
    }
}

/// The entries of `source` measured against `other`: with `changed` those that `other` lacks
/// or holds with another value, else those whose key `other` lacks.
fn kept_entries(source: &LocaleData, other: &LocaleData, changed: bool) -> (r: LocaleData)
    requires
        source.wf(),
        other.wf(),
    ensures
        r.wf(),
        changed ==> r@ == source@.filter(changed_from(other@)),
        !changed ==> r@ == source@.filter(absent_from(other@)),
{
    let ghost pred = if changed {
        changed_from(other@)
    } else {
        absent_from(other@)
    };
    let mut out = StrMap::new();
    let n = source.len();
    let mut i: usize = 0;
    proof {
        reveal(Seq::filter);
        assert(source@.take(0) =~= Seq::<(Seq<char>, Seq<char>)>::empty());
    }
    while i < n
        invariant
            source.wf(),
            other.wf(),
            out.wf(),
            n == source@.len(),
            i <= n,
            pred == (if changed {
                changed_from(other@)
            } else {
                absent_from(other@)
            }),
            out@ == source@.take(i as int).filter(pred),
        decreases n - i,
    {
        let k = source.key_at(i);
        let v = source.value_at(i);
        let keep = match other.get(k) {
            None => true,
            Some(ov) => changed && !(*ov == *v),
        };
        proof {
            source@.lemma_take_succ_push(i as int);
            source@.take(i as int).lemma_filter_push(source@[i as int], pred);
        }
        if keep {
            proof {
                if has_key(out@, k@) {
                    lemma_filter_has_key(source@.take(i as int), pred, k@);
                    let m = index_of(source@.take(i as int), k@);
                    assert(source@[m].0 == source@[i as int].0);
                }
            }
            out.push_new(k.clone(), v.clone());
        }
        i = i + 1;
    }
    proof {
        assert(source@.take(n as int) =~= source@);
    }
    out
}

/// A document compared with itself shows no difference.
pub proof fn lemma_diff_self_empty(a: Entries)
    requires
        keys_distinct(a),
    ensures
        diff_is_empty(a, a),
{
    assert forall|i: int| 0 <= i < a.len() implies !changed_from(a)(a[i]) && !absent_from(a)(
        a[i],
    ) by {
        lemma_index_of(a, i);
    }
    a.lemma_all_neg_filter_empty(changed_from(a));
    a.lemma_all_neg_filter_empty(absent_from(a));
}

/// The diff read as maps: `diff(a, a)` is empty; the changed-or-added part maps each key of `b`
/// that `a` lacks or holds with another value to its value in `b`; the removed part maps each
/// key of `a` that `b` lacks to its value in `a`.
pub proof fn lemma_diff_correct(a: Entries, b: Entries)
    requires
        keys_distinct(a),
        keys_distinct(b),
    ensures
        diff_is_empty(a, a),
        map_of(changed_or_added_of(a, b)) == Map::new(
            |k: Seq<char>|
                map_of(b).contains_key(k) && (!map_of(a).contains_key(k) || map_of(a)[k]
                    != map_of(b)[k]),
            |k: Seq<char>| map_of(b)[k],
        ),
        map_of(removed_of(a, b)) == Map::new(
            |k: Seq<char>| map_of(a).contains_key(k) && !map_of(b).contains_key(k),
            |k: Seq<char>| map_of(a)[k],
        ),
{
    lemma_diff_self_empty(a);
    lemma_map_of_filter(b, changed_from(a));
    lemma_map_of_filter(a, absent_from(b));
    assert(map_of(changed_or_added_of(a, b)) =~= Map::new(
        |k: Seq<char>|
            map_of(b).contains_key(k) && (!map_of(a).contains_key(k) || map_of(a)[k]
                != map_of(b)[k]),
        |k: Seq<char>| map_of(b)[k],
    ));
    assert(map_of(removed_of(a, b)) =~= Map::new(
        |k: Seq<char>| map_of(a).contains_key(k) && !map_of(b).contains_key(k),
        |k: Seq<char>| map_of(a)[k],
    ));
}

} // verus!
