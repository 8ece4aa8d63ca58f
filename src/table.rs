use vstd::prelude::*;

verus! {

/// Looks a key up in a sequence of key/value entries: the last entry with that
/// key decides, so appending an entry overrides earlier ones.
pub open spec fn find<K, V>(s: Seq<(K, V)>, k: K) -> Option<V>
    decreases s.len(),
{
    if s.len() == 0 {
        None
    } else if s.last().0 == k {
        Some(s.last().1)
    } else {
        find(s.drop_last(), k)
    }
}

/// The map that a sequence of entries stands for.
pub open spec fn to_map<K, V>(s: Seq<(K, V)>) -> Map<K, V> {
    Map::new(|k: K| find(s, k) is Some, |k: K| find(s, k)->0)
}

pub proof fn lemma_find_push<K, V>(s: Seq<(K, V)>, e: (K, V), k: K)
    ensures
        find(s.push(e), k) == if e.0 == k {
            Some(e.1)
        } else {
            find(s, k)
        },
{
    assert(s.push(e).drop_last() =~= s);
}

pub proof fn lemma_find_take<K, V>(s: Seq<(K, V)>, i: int, k: K)
    requires
        0 < i <= s.len(),
    ensures
        find(s.take(i), k) == if s[i - 1].0 == k {
            Some(s[i - 1].1)
        } else {
            find(s.take(i - 1), k)
        },
{
    assert(s.take(i).drop_last() =~= s.take(i - 1));
}

/// An entry that no later entry overrides is what the lookup finds.
pub proof fn lemma_find_last<K, V>(s: Seq<(K, V)>, i: int)
    requires
        0 <= i < s.len(),
        forall|j: int| i < j < s.len() ==> s[j].0 != s[i].0,
    ensures
        find(s, s[i].0) == Some(s[i].1),
    decreases s.len(),
{
    if i < s.len() - 1 {
        lemma_find_last(s.drop_last(), i);
    }
}

/// What the lookup finds comes from an entry that no later entry overrides.
pub proof fn lemma_find_some<K, V>(s: Seq<(K, V)>, k: K) -> (i: int)
    requires
        find(s, k) is Some,
    ensures
        0 <= i < s.len(),
        s[i].0 == k,
        find(s, k) == Some(s[i].1),
        forall|j: int| i < j < s.len() ==> s[j].0 != k,
    decreases s.len(),
{
    if s.last().0 == k {
        s.len() - 1
    } else {
        let i = lemma_find_some(s.drop_last(), k);
        assert forall|j: int| i < j < s.len() implies s[j].0 != k by {
            if j < s.len() - 1 {
                assert(s[j] == s.drop_last()[j]);
            }
        }
        i
    }
}

/// A key that some entry holds is found.
pub proof fn lemma_find_key_present<K, V>(s: Seq<(K, V)>, i: int)
    requires
        0 <= i < s.len(),
    ensures
        find(s, s[i].0) is Some,
    decreases s.len(),
{
    if s.last().0 != s[i].0 {
        lemma_find_key_present(s.drop_last(), i);
    }
}

} // verus!
