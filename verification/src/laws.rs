//! Laws of the container model: how inserting into and removing from the
//! index, and appending to the order log, shape the sequence of pairs that
//! iteration yields.
//!
//! The laws are stated over the model alone — the index as a `Map`, the
//! order log as a `Seq` — exactly the values the contracts of
//! [`crate::OrderedMap`] speak about, so they compose directly with those
//! contracts.

use vstd::prelude::*;

use crate::model::drop_key;
use crate::model::live_entries;
use crate::model::update_key;
use crate::model::wf_state;

verus! {

/// Iterating an empty order log yields nothing: with no slots there is no
/// pair to yield, whatever the index holds.
pub proof fn lemma_iteration_of_empty_log<K, V>(index: Map<K, V>)
    ensures
        live_entries(Seq::<K>::empty(), index) == Seq::<(K, V)>::empty(),
{
}

/// Removing a key that is not present leaves the index — and with it the
/// sequence iteration yields — exactly as it was.
pub proof fn lemma_remove_absent_is_noop<K, V>(log: Seq<K>, index: Map<K, V>, k: K)
    requires
        !index.contains_key(k),
    ensures
        index.remove(k) == index,
        live_entries(log, index.remove(k)) == live_entries(log, index),
{
    assert(index.remove(k) =~= index);
}

/// First insertion of a key appends its pair at the end of the iteration
/// sequence and leaves every earlier pair in place: insertion order is
/// preserved. The hypothesis says the key has no order-log slot yet, which
/// is what first insertion means.
pub proof fn lemma_insert_new_key_appends<K, V>(log: Seq<K>, index: Map<K, V>, k: K, v: V)
    requires
        !log.contains(k),
    ensures
        live_entries(log.push(k), index.insert(k, v)) == live_entries(log, index).push((k, v)),
    decreases log.len(),
{
    let index2 = index.insert(k, v);
    if log.len() == 0 {
        assert(log.push(k) =~= seq![k]);
        assert(seq![k].drop_first() =~= Seq::<K>::empty());
        assert(index2.contains_key(k) && index2[k] == v);
        assert(live_entries(seq![k], index2) == seq![(k, v)] + live_entries(
            Seq::<K>::empty(),
            index2,
        ));
        assert(live_entries(seq![k], index2) =~= seq![(k, v)]);
        assert(live_entries(log, index).push((k, v)) =~= seq![(k, v)]);
    } else {
        assert(log[0] != k);
        assert(!log.drop_first().contains(k)) by {
            if log.drop_first().contains(k) {
                let i = choose|i: int|
                    0 <= i < log.drop_first().len() && log.drop_first()[i] == k;
                assert(log[i + 1] == k);
            }
        };
        lemma_insert_new_key_appends(log.drop_first(), index, k, v);
        assert(log.push(k).drop_first() =~= log.drop_first().push(k));
        assert(log.push(k)[0] == log[0]);
        if index.contains_key(log[0]) {
            let head = (log[0], index[log[0]]);
            assert(live_entries(log.push(k), index2) == seq![head] + live_entries(
                log.drop_first(),
                index,
            ).push((k, v)));
            assert(seq![head] + live_entries(log.drop_first(), index).push((k, v)) =~= (
            seq![head] + live_entries(log.drop_first(), index)).push((k, v)));
        }
    }
}

/// Re-insertion of a live key updates the value, not the position: every
/// pair of the iteration sequence under that key carries the new value, and
/// every other pair, and every position, is untouched.
pub proof fn lemma_reinsert_updates_values<K, V>(log: Seq<K>, index: Map<K, V>, k: K, v: V)
    requires
        index.contains_key(k),
    ensures
        live_entries(log, index.insert(k, v)) == update_key(live_entries(log, index), k, v),
    decreases log.len(),
{
    let index2 = index.insert(k, v);
    if log.len() == 0 {
    } else {
        lemma_reinsert_updates_values(log.drop_first(), index, k, v);
        let j = log[0];
        let old_tail = live_entries(log.drop_first(), index);
        if index.contains_key(j) {
            let head = (j, index[j]);
            assert((seq![head] + old_tail)[0] == head);
            assert((seq![head] + old_tail).drop_first() =~= old_tail);
            if j == k {
                assert(live_entries(log, index2) =~= seq![(k, v)] + update_key(
                    old_tail,
                    k,
                    v,
                ));
                assert(update_key(live_entries(log, index), k, v) =~= seq![(k, v)]
                    + update_key(old_tail, k, v));
            } else {
                assert(live_entries(log, index2) =~= seq![head] + update_key(old_tail, k, v));
                assert(update_key(live_entries(log, index), k, v) =~= seq![head] + update_key(
                    old_tail,
                    k,
                    v,
                ));
            }
        }
    }
}

/// What updating a key means pair by pair: the sequence keeps its length,
/// every pair under the key carries the new value at its old position, and
/// every pair under another key is exactly as it was.
pub proof fn lemma_update_key_pointwise<K, V>(entries: Seq<(K, V)>, k: K, v: V)
    ensures
        update_key(entries, k, v).len() == entries.len(),
        forall|i: int|
            0 <= i < entries.len() ==> update_key(entries, k, v)[i] == (if entries[i].0 == k {
                (k, v)
            } else {
                entries[i]
            }),
    decreases entries.len(),
{
    if entries.len() == 0 {
    } else {
        lemma_update_key_pointwise(entries.drop_first(), k, v);
        let tail = update_key(entries.drop_first(), k, v);
        let head = if entries[0].0 == k {
            (k, v)
        } else {
            entries[0]
        };
        assert(update_key(entries, k, v) == seq![head] + tail);
        assert(forall|i: int|
            1 <= i < entries.len() ==> (seq![head] + tail)[i] == tail[i - 1]);
        assert(forall|i: int|
            1 <= i < entries.len() ==> entries.drop_first()[i - 1] == #[trigger] entries[i]);
    }
}

/// Removal of a key drops exactly the pairs under that key from the
/// iteration sequence and leaves the remaining pairs in their order: the
/// key's slots become tombstones that iteration skips transparently.
pub proof fn lemma_remove_drops_key<K, V>(log: Seq<K>, index: Map<K, V>, k: K)
    ensures
        live_entries(log, index.remove(k)) == drop_key(live_entries(log, index), k),
    decreases log.len(),
{
    let index2 = index.remove(k);
    if log.len() == 0 {
    } else {
        lemma_remove_drops_key(log.drop_first(), index, k);
        let j = log[0];
        let old_tail = live_entries(log.drop_first(), index);
        if index.contains_key(j) {
            let head = (j, index[j]);
            assert((seq![head] + old_tail)[0] == head);
            assert((seq![head] + old_tail).drop_first() =~= old_tail);
            if j == k {
                assert(live_entries(log, index2) == drop_key(old_tail, k));
            } else {
                assert(live_entries(log, index2) =~= seq![head] + drop_key(old_tail, k));
                assert(drop_key(live_entries(log, index), k) =~= seq![head] + drop_key(
                    old_tail,
                    k,
                ));
            }
        }
    }
}

/// Iteration yields live entries only: every pair it yields is a key
/// currently in the index together with the value the index stores for it.
pub proof fn lemma_iteration_yields_live_entries_only<K, V>(log: Seq<K>, index: Map<K, V>)
    ensures
        forall|i: int|
            0 <= i < live_entries(log, index).len() ==> {
                &&& index.contains_key(#[trigger] live_entries(log, index)[i].0)
                &&& live_entries(log, index)[i].1 == index[live_entries(log, index)[i].0]
            },
    decreases log.len(),
{
    if log.len() == 0 {
    } else {
        lemma_iteration_yields_live_entries_only(log.drop_first(), index);
        let tail = live_entries(log.drop_first(), index);
        if index.contains_key(log[0]) {
            let head = (log[0], index[log[0]]);
            assert(forall|i: int|
                1 <= i < (seq![head] + tail).len() ==> (seq![head] + tail)[i] == tail[i - 1]);
        }
    }
}

/// Iteration misses no live entry: in a well-formed state every key of the
/// index appears in the iteration sequence, paired with its stored value.
pub proof fn lemma_iteration_is_complete<K, V>(log: Seq<K>, index: Map<K, V>)
    requires
        wf_state(index, log),
    ensures
        forall|k: K| #[trigger]
            index.contains_key(k) ==> live_entries(log, index).contains((k, index[k])),
{
    assert forall|k: K| #[trigger] index.contains_key(k) implies live_entries(
        log,
        index,
    ).contains((k, index[k])) by {
        lemma_live_entries_has_key(log, index, k);
    };
}

/// A single live key of the log shows up in the iteration sequence.
proof fn lemma_live_entries_has_key<K, V>(log: Seq<K>, index: Map<K, V>, k: K)
    requires
        index.contains_key(k),
        log.contains(k),
    ensures
        live_entries(log, index).contains((k, index[k])),
    decreases log.len(),
{
    let live = live_entries(log, index);
    if log[0] == k {
        let tail = live_entries(log.drop_first(), index);
        assert(live == seq![(k, index[k])] + tail);
        assert(live[0] == (k, index[k]));
    } else {
        assert(log.drop_first().contains(k)) by {
            let i = choose|i: int| 0 <= i < log.len() && log[i] == k;
            assert(log.drop_first()[i - 1] == k);
        };
        lemma_live_entries_has_key(log.drop_first(), index, k);
        let tail = live_entries(log.drop_first(), index);
        let i = choose|i: int| 0 <= i < tail.len() && tail[i] == (k, index[k]);
        if index.contains_key(log[0]) {
            let head = (log[0], index[log[0]]);
            assert((seq![head] + tail)[i + 1] == (k, index[k]));
        }
    }
}

/// Insertion preserves well-formedness: the freshly inserted key gets a log
/// slot if it had none, every other key keeps the slot it had.
pub proof fn lemma_insert_preserves_wf<K, V>(log: Seq<K>, index: Map<K, V>, k: K, v: V)
    requires
        wf_state(index, log),
    ensures
        wf_state(
            index.insert(k, v),
            if index.contains_key(k) {
                log
            } else {
                log.push(k)
            },
        ),
{
    if !index.contains_key(k) {
        assert(log.push(k)[log.len() as int] == k);
        assert(forall|j: K| log.contains(j) ==> #[trigger] log.push(k).contains(j)) by {
            assert(forall|i: int| 0 <= i < log.len() ==> log.push(k)[i] == #[trigger] log[i]);
        };
    }
}

/// Removal preserves well-formedness: the order log is untouched and still
/// covers every key the index retains.
pub proof fn lemma_remove_preserves_wf<K, V>(log: Seq<K>, index: Map<K, V>, k: K)
    requires
        wf_state(index, log),
    ensures
        wf_state(index.remove(k), log),
{
}

/// The order log is never shorter than the number of live keys: every live
/// key has at least one slot.
pub proof fn lemma_log_covers_live_keys<K, V>(log: Seq<K>, index: Map<K, V>)
    requires
        wf_state(index, log),
    ensures
        index.dom().len() <= log.len(),
{
    assert(index.dom() <= log.to_set());
    log.lemma_cardinality_of_set();
    broadcast use vstd::seq_lib::seq_to_set_is_finite;

    vstd::set_lib::lemma_len_subset(index.dom(), log.to_set());
}

} // verus!
