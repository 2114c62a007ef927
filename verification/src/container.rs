//! The container itself: the hash index plus the append-only order log, and
//! the lazy cursor that yields live entries in first-insertion order.

use std::collections::HashMap;
use std::hash::Hash;

use vstd::prelude::*;

use vstd::std_specs::hash::borrowed_key_removed;
use vstd::std_specs::hash::contains_borrowed_key;
use vstd::std_specs::hash::maps_borrowed_key_to_value;
use vstd::std_specs::hash::obeys_key_model;

use crate::model::clone_respects_eq;
use crate::model::lemma_live_entries_step;
use crate::model::live_entries;
use crate::model::wf_state;

verus! {

/// An associative container that looks keys up through a hash index while
/// guaranteeing that iteration visits entries in the order their keys were
/// first inserted.
///
/// Each key is stored twice, once as the index's map key and once as a slot
/// in the order log: the log cannot borrow from the index without making the
/// container self-referential, so first insertion clones the key.
pub struct OrderedMap<K, V> where K: Eq + Hash + Clone {
    inner: HashMap<K, V>,
    ordered_keys: Vec<K>,
}

/// A lazy, forward-only cursor over an [`OrderedMap`]: it walks the order
/// log from the front, consults the index at each slot, skips tombstones and
/// yields the live `(key, value)` pairs in first-insertion order.
///
/// The cursor holds a shared borrow of the container for its whole lifetime,
/// so no mutation can happen while it is alive; a fresh cursor from
/// [`OrderedMap::iter`] always reflects the container's current state.
pub struct OrderedMapIter<'a, K, V> where K: Eq + Hash + Clone {
    map: &'a OrderedMap<K, V>,
    pos: usize,
}

impl<K, V> View for OrderedMap<K, V> where K: Eq + Hash + Clone {
    type V = Map<K, V>;

    /// The index: the map from each live key to its stored value.
    closed spec fn view(&self) -> Map<K, V> {
        self.inner@
    }
}

impl<K, V> OrderedMap<K, V> where K: Eq + Hash + Clone {
    /// The order log: the keys in first-insertion order, removed keys
    /// included (their slots are tombstones until re-inserted).
    pub closed spec fn log(&self) -> Seq<K> {
        self.ordered_keys@
    }

    /// Every key of the index has a slot in the order log.
    pub open spec fn wf(&self) -> bool {
        wf_state(self@, self.log())
    }

    /// The sequence of pairs a full iteration of the container yields, in
    /// first-insertion order: the live entries of the whole order log.
    pub open spec fn iteration(&self) -> Seq<(K, V)> {
        live_entries(self.log(), self@)
    }

    /// Constructs an empty container: empty index, empty order log.
    pub fn new() -> (m: Self)
        ensures
            m@ == Map::<K, V>::empty(),
            m.log() == Seq::<K>::empty(),
            m.wf(),
    {
        OrderedMap { inner: HashMap::new(), ordered_keys: Vec::new() }
    }

    /// Writes `key -> value` into the index and returns the previously stored
    /// value, if any. If the key was absent, its first insertion is recorded
    /// by appending it to the order log; a re-insertion leaves the log — and
    /// so the key's iteration position — untouched.
    ///
    /// The index and log clauses hold under the premises Verus itself needs
    /// to reason about a hash index over an arbitrary key type: that `K`
    /// obeys the hash-table key model, and (for the log, whose slot is a
    /// clone of the key) that cloning a `K` preserves its value. The order
    /// log never shrinks, whatever the key type.
    pub fn insert(&mut self, key: K, value: V) -> (prev: Option<V>)
        ensures
            old(self).log().is_prefix_of(final(self).log()),
            obeys_key_model::<K>() ==> {
                &&& final(self)@ == old(self)@.insert(key, value)
                &&& match prev {
                    Some(v) => old(self)@.contains_key(key) && v == old(self)@[key],
                    None => !old(self)@.contains_key(key),
                }
            },
            obeys_key_model::<K>() && clone_respects_eq::<K>() ==> final(self).log() == (
                if old(self)@.contains_key(key) {
                    old(self).log()
                } else {
                    old(self).log().push(key)
                }),
    {
        if !self.inner.contains_key(&key) {
            let logged_key = key.clone();
            proof {
                assert(vstd::pervasive::cloned::<K>(key, logged_key));
            }
            self.ordered_keys.push(logged_key);
        }
        self.inner.insert(key, value)
    }

    /// Deletes `key` from the index if present and returns its value;
    /// returns `None` if the key was not present. The order log is never
    /// touched: the key's slot, if it has one, simply becomes a tombstone
    /// that iteration will skip.
    ///
    /// Like the underlying hash-table operations, the index clauses are
    /// phrased over vstd's borrowed-key predicates, which coincide with plain
    /// map removal and lookup when the lookup type `Q` is `K` itself.
    pub fn remove<Q>(&mut self, key: &Q) -> (removed: Option<V>) where
        K: std::borrow::Borrow<Q>,
        Q: Eq + Hash + ?Sized,

        ensures
            final(self).log() == old(self).log(),
            obeys_key_model::<K>() ==> {
                &&& borrowed_key_removed(old(self)@, final(self)@, key)
                &&& match removed {
                    Some(v) => maps_borrowed_key_to_value(old(self)@, key, v),
                    None => !contains_borrowed_key(old(self)@, key),
                }
            },
    {
        self.inner.remove(key)
    }

    /// Pure lookup delegating to the index: returns the value stored under
    /// `key`, if any. No ordering semantics are involved.
    pub fn get<'b, Q>(&'b self, key: &Q) -> (r: Option<&'b V>) where
        K: std::borrow::Borrow<Q>,
        Q: Eq + Hash + ?Sized,

        ensures
            obeys_key_model::<K>() ==> match r {
                Some(v) => maps_borrowed_key_to_value(self@, key, *v),
                None => !contains_borrowed_key(self@, key),
            },
    {
        self.inner.get(key)
    }

    /// Pure membership test delegating to the index: whether `key` is
    /// currently live.
    pub fn contains_key<Q>(&self, key: &Q) -> (r: bool) where
        K: std::borrow::Borrow<Q>,
        Q: Eq + Hash + ?Sized,

        ensures
            obeys_key_model::<K>() ==> r == contains_borrowed_key(self@, key),
    {
        self.inner.contains_key(key)
    }

    /// Returns an independent cursor positioned at the front of the current
    /// order log, reading the container's current index.
    pub fn iter<'b>(&'b self) -> (it: OrderedMapIter<'b, K, V>)
        ensures
            it.index_view() == self@,
            it.remaining() == self.log(),
            it.live_remaining() == self.iteration(),
    {
        let it = OrderedMapIter { map: self, pos: 0 };
        proof {
            assert(it.remaining() =~= self.log());
        }
        it
    }
}

impl<'a, K, V> OrderedMapIter<'a, K, V> where K: Eq + Hash + Clone {
    /// The cursor never runs past the end of the order log.
    #[verifier::type_invariant]
    spec fn cursor_in_bounds(self) -> bool {
        self.pos <= self.map.ordered_keys@.len()
    }

    /// The index of the container the cursor reads.
    pub closed spec fn index_view(self) -> Map<K, V> {
        self.map.inner@
    }

    /// The order-log slots the cursor has not yet consumed.
    pub closed spec fn remaining(self) -> Seq<K> {
        self.map.ordered_keys@.skip(self.pos as int)
    }

    /// The pairs the cursor has still to yield: the live entries among its
    /// remaining slots.
    pub open spec fn live_remaining(self) -> Seq<(K, V)> {
        live_entries(self.remaining(), self.index_view())
    }

    /// Consumes slots from the front of the remaining log until one holds a
    /// live key, and yields that key's pair; yields `None` once no remaining
    /// slot is live, and from then on keeps yielding `None` — the remaining
    /// log is exhausted and the cursor never rewinds.
    pub fn next(&mut self) -> (r: Option<(&'a K, &'a V)>)
        ensures
            final(self).index_view() == old(self).index_view(),
            obeys_key_model::<K>() ==> match r {
                Some(p) => {
                    &&& old(self).live_remaining().len() > 0
                    &&& *p.0 == old(self).live_remaining()[0].0
                    &&& *p.1 == old(self).live_remaining()[0].1
                    &&& final(self).live_remaining() == old(self).live_remaining().drop_first()
                },
                None => {
                    &&& old(self).live_remaining().len() == 0
                    &&& final(self).remaining().len() == 0
                    &&& final(self).live_remaining().len() == 0
                },
            },
    {
        proof {
            use_type_invariant(&*self);
        }
        let ghost entry_state = *self;
        #[verifier::loop_isolation(false)]
        while self.pos < self.map.ordered_keys.len()
            invariant
                self.map == entry_state.map,
                entry_state.pos <= self.pos <= self.map.ordered_keys@.len(),
                obeys_key_model::<K>() ==> self.live_remaining()
                    == entry_state.live_remaining(),
            decreases self.map.ordered_keys@.len() - self.pos,
        {
            let key = &self.map.ordered_keys[self.pos];
            let ghost scan_pos = self.pos as int;
            self.pos = self.pos + 1;
            proof {
                lemma_live_entries_step(self.map.ordered_keys@, self.map.inner@, scan_pos);
            }
            match self.map.inner.get(key) {
                Some(value) => {
                    proof {
                        let head = (self.map.ordered_keys@[scan_pos], self.map.inner@[*key]);
                        assert((seq![head] + self.live_remaining())[0] == head);
                        assert((seq![head] + self.live_remaining()).drop_first()
                            =~= self.live_remaining());
                    }
                    return Some((key, value));
                },
                None => {},
            }
        }
        proof {
            assert(self.remaining() =~= Seq::<K>::empty());
        }
        None
    }
}

} // verus!
