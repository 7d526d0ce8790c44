//! Lists of keyed entries and the finite map they carry.
//!
//! The directory registry is an entry list with pairwise distinct keys
//! (one advertisement per address); its map semantics and the lemmas
//! connecting list edits to map edits are stated here, for any key and
//! value type, so that other keyed lists can reuse them.

use vstd::prelude::*;

verus! {

/// The map carried by a list of keyed entries; a later entry shadows an
/// earlier one with the same key (well-formed lists have none).
pub open spec fn spec_entries_map<K, T>(s: Seq<(K, T)>) -> Map<K, T>
    decreases s.len(),
{
    if s.len() == 0 {
        Map::<K, T>::empty()
    } else {
        spec_entries_map(s.drop_last()).insert(s.last().0, s.last().1)
    }
}

/// No key occurs twice.
pub open spec fn spec_keys_unique<K, T>(s: Seq<(K, T)>) -> bool {
    forall|i: int, j: int| 0 <= i < j < s.len() ==> (#[trigger] s[i]).0 != (#[trigger] s[j]).0
}

/// A key is in the map exactly when some entry carries it.
pub proof fn lemma_entries_map_dom<K, T>(s: Seq<(K, T)>, id: K)
    ensures
        spec_entries_map(s).dom().contains(id) <==> exists|i: int|
            0 <= i < s.len() && (#[trigger] s[i]).0 == id,
    decreases s.len(),
{
    if s.len() == 0 {
    } else {
        let n = s.len() as int;
        lemma_entries_map_dom(s.drop_last(), id);
        assert(forall|i: int| 0 <= i < n - 1 ==> #[trigger] s.drop_last()[i] == s[i]);
        if exists|i: int| 0 <= i < n && (#[trigger] s[i]).0 == id {
            let i = choose|i: int| 0 <= i < n && (#[trigger] s[i]).0 == id;
            if i < n - 1 {
                assert(s.drop_last()[i] == s[i]);
                assert(exists|j: int| 0 <= j < n - 1 && (#[trigger] s.drop_last()[j]).0 == id);
            } else {
                assert(s.last().0 == id);
            }
        }
        if spec_entries_map(s).dom().contains(id) {
            if s.last().0 == id {
                assert(s[n - 1].0 == id);
            } else {
                assert(spec_entries_map(s.drop_last()).dom().contains(id));
                let i = choose|i: int| 0 <= i < n - 1 && (#[trigger] s.drop_last()[i]).0 == id;
                assert(s[i].0 == id);
            }
        }
    }
}

/// Dropping the last entry keeps the remaining keys unique.
pub proof fn lemma_keys_unique_drop_last<K, T>(s: Seq<(K, T)>)
    requires
        spec_keys_unique(s),
        s.len() >= 1,
    ensures
        spec_keys_unique(s.drop_last()),
{
    assert(forall|i: int| 0 <= i < s.len() - 1 ==> #[trigger] s.drop_last()[i] == s[i]);
}

/// In a well-formed list, each entry is what the map holds at its key.
pub proof fn lemma_entries_map_at<K, T>(s: Seq<(K, T)>, i: int)
    requires
        spec_keys_unique(s),
        0 <= i < s.len(),
    ensures
        spec_entries_map(s).dom().contains(s[i].0),
        spec_entries_map(s)[s[i].0] == s[i].1,
    decreases s.len(),
{
    let n = s.len() as int;
    if i == n - 1 {
    } else {
        lemma_keys_unique_drop_last(s);
        assert(s.drop_last()[i] == s[i]);
        lemma_entries_map_at(s.drop_last(), i);
        assert(s[i].0 != s.last().0);
    }
}

/// Removing the entry at `i` removes exactly its key from the map.
pub proof fn lemma_entries_map_remove<K, T>(s: Seq<(K, T)>, i: int)
    requires
        spec_keys_unique(s),
        0 <= i < s.len(),
    ensures
        spec_keys_unique(s.remove(i)),
        spec_entries_map(s.remove(i)) == spec_entries_map(s).remove(s[i].0),
    decreases s.len(),
{
    let n = s.len() as int;
    let r = s.remove(i);
    assert(forall|k: int| 0 <= k < i ==> #[trigger] r[k] == s[k]);
    assert(forall|k: int| i <= k < n - 1 ==> #[trigger] r[k] == s[k + 1]);
    assert(spec_keys_unique(r)) by {
        assert(forall|a: int|
            0 <= a < r.len() ==> #[trigger] r[a] == (if a < i {
                s[a]
            } else {
                s[a + 1]
            }));
    }
    if i == n - 1 {
        assert(r =~= s.drop_last());
        lemma_keys_unique_drop_last(s);
        lemma_entries_map_dom(s.drop_last(), s[i].0);
        assert(forall|k: int| 0 <= k < n - 1 ==> #[trigger] s.drop_last()[k] == s[k]);
        assert(!spec_entries_map(s.drop_last()).dom().contains(s[i].0));
        assert(spec_entries_map(r) =~= spec_entries_map(s).remove(s[i].0));
    } else {
        lemma_keys_unique_drop_last(s);
        assert(s.drop_last()[i] == s[i]);
        lemma_entries_map_remove(s.drop_last(), i);
        assert(r.drop_last() =~= s.drop_last().remove(i));
        assert(r.last() == s.last());
        assert(spec_entries_map(r) == spec_entries_map(s.drop_last().remove(i)).insert(
            s.last().0,
            s.last().1,
        ));
        assert(s[i].0 != s.last().0);
        assert(spec_entries_map(r) =~= spec_entries_map(s).remove(s[i].0));
    }
}

} // verus!
