//! The mathematical model of the container: the index as a `Map`, the order
//! log as a `Seq`, and the sequence of pairs an iterator walking them yields.

use vstd::prelude::*;

verus! {

/// Holds when every clone of a `K` is spec-equal to the value it was cloned
/// from. Verus places no constraint on what a `Clone` implementation returns,
/// so contracts that push a cloned key into the order log can promise the key
/// itself only under this premise. It is provable for types whose `clone` is
/// specified to preserve the value (integers, `&str`, `Copy` types).
pub open spec fn clone_respects_eq<K: Clone>() -> bool {
    forall|a: K, b: K| #[trigger] vstd::pervasive::cloned::<K>(a, b) ==> b == a
}

/// Well-formedness of the dual structure: every key currently present in the
/// index appears somewhere in the order log, so iteration can reach it.
pub open spec fn wf_state<K, V>(index: Map<K, V>, log: Seq<K>) -> bool {
    forall|k: K| #[trigger] index.contains_key(k) ==> log.contains(k)
}

/// The pairs a cursor yields when it walks `log` front to back over `index`:
/// each slot whose key is live contributes the pair `(key, index[key])`, in
/// log order; tombstone slots (keys absent from `index`) contribute nothing.
pub open spec fn live_entries<K, V>(log: Seq<K>, index: Map<K, V>) -> Seq<(K, V)>
    decreases log.len(),
{
    if log.len() == 0 {
        Seq::empty()
    } else if index.contains_key(log[0]) {
        seq![(log[0], index[log[0]])] + live_entries(log.drop_first(), index)
    } else {
        live_entries(log.drop_first(), index)
    }
}

/// `entries` with every pair whose key is `k` replaced by `(k, v)`; pairs
/// under other keys, and all positions, are untouched.
pub open spec fn update_key<K, V>(entries: Seq<(K, V)>, k: K, v: V) -> Seq<(K, V)>
    decreases entries.len(),
{
    if entries.len() == 0 {
        Seq::empty()
    } else if entries[0].0 == k {
        seq![(k, v)] + update_key(entries.drop_first(), k, v)
    } else {
        seq![entries[0]] + update_key(entries.drop_first(), k, v)
    }
}

/// `entries` with every pair whose key is `k` dropped; the order of the
/// remaining pairs is untouched.
pub open spec fn drop_key<K, V>(entries: Seq<(K, V)>, k: K) -> Seq<(K, V)>
    decreases entries.len(),
{
    if entries.len() == 0 {
        Seq::empty()
    } else if entries[0].0 == k {
        drop_key(entries.drop_first(), k)
    } else {
        seq![entries[0]] + drop_key(entries.drop_first(), k)
    }
}

/// Unfolds `live_entries` at slot `i` of the log: a live slot contributes its
/// pair in front of the rest, a tombstone slot contributes nothing.
pub proof fn lemma_live_entries_step<K, V>(log: Seq<K>, index: Map<K, V>, i: int)
    requires
        0 <= i < log.len(),
    ensures
        live_entries(log.skip(i), index) == (if index.contains_key(log[i]) {
            seq![(log[i], index[log[i]])] + live_entries(log.skip(i + 1), index)
        } else {
            live_entries(log.skip(i + 1), index)
        }),
{
    assert(log.skip(i)[0] == log[i]);
    assert(log.skip(i).drop_first() =~= log.skip(i + 1));
}

} // verus!
