//! A generational arena whose values are kept densely packed.
//!
//! Values live in one contiguous vector (`values`), next to a parallel vector
//! of the keys that name them (`keys`). A slot table maps the stable index
//! stored in a key to the value's current position in the dense vectors.
//! A slot whose version is odd is occupied; an even version marks a vacant
//! slot, and vacant slots are threaded into a free list through their
//! `idx_or_free` field.
use vstd::prelude::*;

verus! {

/// Handle to a value stored in an [`Arena`]: the slot it lives in, and the
/// version that slot had when the value was inserted. Versions handed out in
/// keys are always odd.
#[derive(Debug, Clone, Copy, Hash, PartialEq, Eq, Structural, PartialOrd, Ord)]
pub struct Key {
    idx: usize,
    // even = vacant, odd = occupied
    version: usize,
}

impl Key {
    #[verifier::type_invariant]
    spec fn version_is_odd(self) -> bool {
        self.version % 2 == 1
    }
}

impl View for Key {
    /// The slot index and the version of the key.
    type V = (usize, usize);

    closed spec fn view(&self) -> (usize, usize) {
        (self.idx, self.version)
    }
}

/// One entry of the slot table. While occupied, `idx_or_free` is the position
/// of the value in the dense vectors; while vacant, it links to the next
/// vacant slot.
#[derive(Debug)]
pub struct Slot {
    idx_or_free: usize,
    version: usize,
}

/// A generational arena with densely packed values.
pub struct Arena<V> {
    values: Vec<V>,
    keys: Vec<Key>,
    slots: Vec<Slot>,
    free: usize,
    /// The vacant slots, in the order the free list visits them.
    vacant: Ghost<Seq<usize>>,
}

/// Is the version one of an occupied slot?
pub open spec fn is_occupied(version: int) -> bool {
    version % 2 == 1
}

impl<V> Arena<V> {
    /// The keys of the live values, in dense order.
    pub closed spec fn dense_keys(&self) -> Seq<Key> {
        self.keys@
    }

    /// The live values, in dense order (parallel to `dense_keys`).
    pub closed spec fn dense_values(&self) -> Seq<V> {
        self.values@
    }

    /// The vacant slots in the order insertions will reuse them: the most
    /// recently vacated slot first.
    pub closed spec fn free_list(&self) -> Seq<usize> {
        self.vacant@
    }

    /// Number of slots in the slot table.
    pub closed spec fn slot_count(&self) -> nat {
        self.slots@.len()
    }

    /// Current version of slot `idx`; zero for a slot that does not exist yet.
    pub closed spec fn generation(&self, idx: int) -> int {
        if 0 <= idx < self.slots@.len() {
            self.slots@[idx].version as int
        } else {
            0
        }
    }

    /// Does the slot table hold a vacant slot that an insertion can reuse?
    pub open spec fn has_vacant_slot(&self) -> bool {
        exists|s: int| 0 <= s < self.slot_count() && !is_occupied(#[trigger] self.generation(s))
    }

    /// The slots that are vacant.
    pub open spec fn vacant_slots(&self) -> Set<int> {
        Set::new(|s: int| 0 <= s < self.slot_count() && !is_occupied(self.generation(s)))
    }

    /// Is `k` the key of a live value?
    pub open spec fn contains_key(&self, k: Key) -> bool {
        self.dense_keys().contains(k)
    }

    /// Dense position of the live key `k`.
    pub open spec fn position_of(&self, k: Key) -> int {
        self.dense_keys().index_of(k)
    }

    /// Value stored under the live key `k`.
    pub open spec fn value_of(&self, k: Key) -> V {
        self.dense_values()[self.position_of(k)]
    }

    /// Number of live values.
    pub open spec fn spec_len(&self) -> nat {
        self.dense_keys().len()
    }

    spec fn dense_wf(&self) -> bool {
        &&& self.values@.len() == self.keys@.len()
        &&& forall|i: int|
            0 <= i < self.keys@.len() ==> {
                let k = #[trigger] self.keys@[i];
                &&& k.idx < self.slots@.len()
                &&& self.slots@[k.idx as int].version == k.version
                &&& is_occupied(k.version as int)
                &&& self.slots@[k.idx as int].idx_or_free == i
            }
        &&& forall|s: int|
            0 <= s < self.slots@.len() && is_occupied(#[trigger] self.slots@[s].version as int)
                ==> {
                &&& self.slots@[s].idx_or_free < self.keys@.len()
                &&& self.keys@[self.slots@[s].idx_or_free as int].idx == s
            }
    }

    spec fn free_list_wf(&self) -> bool {
        let vacant = self.vacant@;
        &&& vacant.no_duplicates()
        &&& forall|j: int|
            0 <= j < vacant.len() ==> {
                &&& #[trigger] vacant[j] < self.slots@.len()
                &&& !is_occupied(self.slots@[vacant[j] as int].version as int)
            }
        &&& forall|s: int|
            0 <= s < self.slots@.len() && !is_occupied(#[trigger] self.slots@[s].version as int)
                ==> vacant.contains(s as usize)
        &&& vacant.len() > 0 ==> self.free == vacant[0]
        &&& forall|j: int|
            0 <= j < vacant.len() - 1 ==> self.slots@[#[trigger] vacant[j] as int].idx_or_free
                == vacant[j + 1]
        &&& vacant.len() == 0 ==> (self.free >= self.slots@.len() || is_occupied(
            self.slots@[self.free as int].version as int,
        ))
    }

    /// Internal consistency of the arena.
    pub closed spec fn wf(&self) -> bool {
        &&& self.dense_wf()
        &&& self.free_list_wf()
    }

    /// The dense vectors are parallel, their keys are pairwise distinct, and
    /// every live key carries its slot's current, odd version.
    pub proof fn lemma_dense_layout(&self)
        requires
            self.wf(),
        ensures
            self.dense_values().len() == self.dense_keys().len(),
            self.dense_keys().no_duplicates(),
            forall|i: int|
                0 <= i < self.dense_keys().len() ==> {
                    let k = #[trigger] self.dense_keys()[i];
                    &&& k@.0 < self.slot_count()
                    &&& is_occupied(k@.1 as int)
                    &&& self.generation(k@.0 as int) == k@.1
                },
    {
        assert forall|i: int, j: int|
            0 <= i < self.keys@.len() && 0 <= j < self.keys@.len() && i != j implies self.keys@[i]
            != self.keys@[j] by {
            let ki = self.keys@[i];
            let kj = self.keys@[j];
            assert(self.slots@[ki.idx as int].idx_or_free == i);
            assert(self.slots@[kj.idx as int].idx_or_free == j);
        }
    }

    /// A key is live exactly when its version is odd and equal to the current
    /// version of its slot.
    pub proof fn lemma_live_iff_current(&self, k: Key)
        requires
            self.wf(),
        ensures
            self.contains_key(k) <==> (is_occupied(k@.1 as int) && self.generation(k@.0 as int)
                == k@.1),
            self.contains_key(k) ==> {
                &&& 0 <= self.position_of(k) < self.dense_keys().len()
                &&& self.dense_keys()[self.position_of(k)] == k
            },
    {
        if is_occupied(k.version as int) && self.generation(k.idx as int) == k.version {
            let s = k.idx as int;
            assert(is_occupied(self.slots@[s].version as int));
            let i = self.slots@[s].idx_or_free as int;
            assert(self.keys@[i].idx == k.idx);
            assert(self.keys@[i] == k);
            assert(self.dense_keys()[i] == k);
        }
        if self.contains_key(k) {
            let i = choose|i: int| 0 <= i < self.keys@.len() && self.keys@[i] == k;
            assert(self.keys@[i] == k);
        }
    }
}

impl<V> Arena<V> {
    /// Stores `value` and returns a fresh key for it. The value is appended
    /// to the dense vectors; a vacant slot is reused when there is one, and
    /// only otherwise does the slot table grow.
    #[must_use]
    pub fn insert(&mut self, value: V) -> (key: Key)
        requires
            old(self).wf(),
        ensures
            final(self).wf(),
            !old(self).contains_key(key),
            final(self).dense_keys() == old(self).dense_keys().push(key),
            final(self).dense_values() == old(self).dense_values().push(value),
            final(self).contains_key(key),
            final(self).value_of(key) == value,
            forall|k: Key|
                k != key ==> (#[trigger] final(self).contains_key(k) == old(self).contains_key(k)),
            forall|k: Key|
                #[trigger] old(self).contains_key(k) ==> final(self).value_of(k) == old(
                    self,
                ).value_of(k),
            final(self).spec_len() == old(self).spec_len() + 1,
            final(self).generation(key@.0 as int) == key@.1,
            forall|s: int| #[trigger] old(self).generation(s) <= final(self).generation(s),
            forall|s: int| s != key@.0 ==> #[trigger] final(self).generation(s) == old(self).generation(s),
            old(self).free_list().len() > 0 ==> {
                let f = old(self).free_list()[0];
                &&& key@ == (f, (old(self).generation(f as int) + 1) as usize)
                &&& final(self).free_list() == old(self).free_list().drop_first()
                &&& final(self).slot_count() == old(self).slot_count()
            },
            old(self).free_list().len() == 0 ==> {
                &&& key@ == (old(self).slot_count() as usize, 1usize)
                &&& final(self).free_list() == old(self).free_list()
                &&& final(self).slot_count() == old(self).slot_count() + 1
            },
            final(self).slot_count() == old(self).slot_count() + (if old(
                self,
            ).has_vacant_slot() {
                0int
            } else {
                1int
            }),
    {
        let ghost pre = *self;
        let n = self.values.len();
        let key;
        if self.free < self.slots.len() && self.slots[self.free].version % 2 == 0 {
            let f = self.free;
            proof {
                assert(self.vacant@.contains(f));
                assert(self.vacant@.len() > 0);
            }
            let version = self.slots[f].version + 1;
            let next = self.slots[f].idx_or_free;
            self.slots.set(f, Slot { idx_or_free: n, version });
            self.free = next;
            proof {
                self.vacant@ = self.vacant@.drop_first();
                assert(pre.vacant@[0] == f);
                assert forall|j: int| 0 <= j < self.vacant@.len() implies self.vacant@[j] != f by {
                    assert(self.vacant@[j] == pre.vacant@[j + 1]);
                }
            }
            key = Key { idx: f, version };
        } else {
            proof {
                if pre.vacant@.len() > 0 {
                    assert(pre.vacant@[0] < pre.slots@.len());
                }
            }
            self.slots.push(Slot { version: 1, idx_or_free: n });
            key = Key { version: 1, idx: self.slots.len() - 1 };
        }
        self.values.push(value);
        self.keys.push(key);
        proof {
            pre.lemma_dense_layout();
            pre.lemma_live_iff_current(key);
            assert(self.keys@[n as int] == key);
            assert forall|i: int| 0 <= i < pre.keys@.len() implies pre.keys@[i].idx != key.idx by {
                let ki = pre.keys@[i];
                assert(is_occupied(pre.slots@[ki.idx as int].version as int));
            }
            assert forall|s: int|
                0 <= s < self.slots@.len() && !is_occupied(
                    #[trigger] self.slots@[s].version as int,
                ) implies self.vacant@.contains(s as usize) by {
                assert(pre.vacant@.contains(s as usize));
                let j = choose|j: int| 0 <= j < pre.vacant@.len() && pre.vacant@[j] == s as usize;
                if j > 0 {
                    assert(self.vacant@[j - 1] == s as usize);
                }
            }
            assert(self.dense_wf());
            assert(self.free_list_wf());
            self.lemma_dense_layout();
            self.lemma_live_iff_current(key);
            assert forall|k: Key| k != key implies #[trigger] self.contains_key(k)
                == pre.contains_key(k) by {
                if pre.contains_key(k) {
                    let i = choose|i: int| 0 <= i < pre.keys@.len() && pre.keys@[i] == k;
                    assert(self.keys@[i] == k);
                }
                if self.contains_key(k) {
                    let i = choose|i: int| 0 <= i < self.keys@.len() && self.keys@[i] == k;
                    assert(pre.keys@[i] == k);
                }
            }
            assert forall|k: Key| #[trigger] pre.contains_key(k) implies self.value_of(k)
                == pre.value_of(k) by {
                pre.lemma_live_iff_current(k);
                self.lemma_live_iff_current(k);
                let i = pre.position_of(k);
                assert(self.keys@[i] == k);
                Self::lemma_unique_position(self.dense_keys(), k, i);
            }
            Self::lemma_unique_position(self.dense_keys(), key, n as int);
            if pre.has_vacant_slot() {
                let s = choose|s: int|
                    0 <= s < pre.slot_count() && !is_occupied(#[trigger] pre.generation(s));
                assert(pre.vacant@.contains(s as usize));
            }
        }
        key
    }

    /// Takes the value stored under `key` out of the arena. The last dense
    /// value moves into the freed position, and the key's slot is retired to
    /// the free list with a bumped version, so `key` never matches again.
    /// A key that is not live yields `None` and leaves the arena untouched.
    pub fn remove(&mut self, key: Key) -> (r: Option<V>)
        requires
            old(self).wf(),
            old(self).contains_key(key) ==> key@.1 < usize::MAX,
        ensures
            final(self).wf(),
            forall|s: int| #[trigger] old(self).generation(s) <= final(self).generation(s),
            old(self).contains_key(key) ==> {
                let i = old(self).position_of(key);
                let keys = old(self).dense_keys();
                let values = old(self).dense_values();
                &&& r == Some(old(self).value_of(key))
                &&& final(self).dense_keys() == keys.update(i, keys.last()).drop_last()
                &&& final(self).dense_values() == values.update(i, values.last()).drop_last()
                &&& !final(self).contains_key(key)
                &&& forall|k: Key|
                    k != key ==> (#[trigger] final(self).contains_key(k) == old(
                        self,
                    ).contains_key(k))
                &&& forall|k: Key|
                    k != key && #[trigger] old(self).contains_key(k) ==> final(self).value_of(k)
                        == old(self).value_of(k)
                &&& final(self).generation(key@.0 as int) == key@.1 + 1
                &&& forall|s: int|
                    s != key@.0 ==> #[trigger] final(self).generation(s) == old(self).generation(
                        s,
                    )
                &&& final(self).slot_count() == old(self).slot_count()
                &&& final(self).spec_len() == old(self).spec_len() - 1
                &&& final(self).free_list() == seq![key@.0].add(old(self).free_list())
                &&& forall|j: int|
                    0 <= j < final(self).spec_len() ==> {
                        &&& final(self).contains_key(#[trigger] final(self).dense_keys()[j])
                        &&& final(self).position_of(final(self).dense_keys()[j]) == j
                        &&& final(self).value_of(final(self).dense_keys()[j])
                            == final(self).dense_values()[j]
                    }
            },
            !old(self).contains_key(key) ==> r is None && *final(self) == *old(self),
    {
        let ghost pre = *self;
        proof {
            use_type_invariant(&key);
            pre.lemma_live_iff_current(key);
            pre.lemma_dense_layout();
        }
        if key.idx >= self.slots.len() || self.slots[key.idx].version != key.version {
            return None;
        }
        let idx = self.slots[key.idx].idx_or_free;
        let version = self.slots[key.idx].version + 1;
        let free = self.free;
        self.slots.set(key.idx, Slot { idx_or_free: free, version });
        self.free = key.idx;
        proof {
            self.vacant@ = seq![key.idx].add(pre.vacant@);
        }
        let _ = self.keys.swap_remove(idx);
        let value = self.values.swap_remove(idx);
        if idx < self.values.len() {
            // the last key moved into `idx`: point its slot at the new position
            let moved = self.keys[idx].idx;
            let moved_version = self.slots[moved].version;
            self.slots.set(moved, Slot { idx_or_free: idx, version: moved_version });
        }
        proof {
            let last = pre.keys@.len() - 1;
            assert(pre.keys@[idx as int] == key);
            Self::lemma_unique_position(pre.dense_keys(), key, idx as int);
            assert forall|i: int| 0 <= i < self.keys@.len() implies {
                let k = #[trigger] self.keys@[i];
                &&& k.idx < self.slots@.len()
                &&& self.slots@[k.idx as int].version == k.version
                &&& is_occupied(k.version as int)
                &&& self.slots@[k.idx as int].idx_or_free == i
            } by {
                if i == idx {
                    assert(self.keys@[i] == pre.keys@[last]);
                } else {
                    assert(self.keys@[i] == pre.keys@[i]);
                    assert(pre.keys@[i] != pre.keys@[last]);
                    assert(pre.keys@[i] != key);
                    assert(pre.slots@[pre.keys@[last].idx as int].idx_or_free == last);
                }
            }
            assert forall|s: int|
                0 <= s < self.slots@.len() && is_occupied(
                    #[trigger] self.slots@[s].version as int,
                ) implies {
                &&& self.slots@[s].idx_or_free < self.keys@.len()
                &&& self.keys@[self.slots@[s].idx_or_free as int].idx == s
            } by {
                if idx < last && s == pre.keys@[last].idx {
                } else {
                    let i = pre.slots@[s].idx_or_free as int;
                    assert(pre.keys@[i].idx == s);
                    assert(i != idx);
                    if i == last {
                        assert(self.keys@[idx as int] == pre.keys@[last]);
                    }
                    assert(i != last);
                }
            }
            assert(self.dense_wf());
            assert forall|j: int| 0 <= j < self.vacant@.len() implies {
                &&& #[trigger] self.vacant@[j] < self.slots@.len()
                &&& !is_occupied(self.slots@[self.vacant@[j] as int].version as int)
            } by {
                if j > 0 {
                    assert(self.vacant@[j] == pre.vacant@[j - 1]);
                }
            }
            assert forall|s: int|
                0 <= s < self.slots@.len() && !is_occupied(
                    #[trigger] self.slots@[s].version as int,
                ) implies self.vacant@.contains(s as usize) by {
                if s == key.idx {
                    assert(self.vacant@[0] == s);
                } else {
                    assert(pre.vacant@.contains(s as usize));
                    let j = choose|j: int|
                        0 <= j < pre.vacant@.len() && pre.vacant@[j] == s as usize;
                    assert(self.vacant@[j + 1] == s as usize);
                }
            }
            assert forall|j: int| 0 <= j < self.vacant@.len() - 1 implies self.slots@[
                #[trigger] self.vacant@[j] as int
            ].idx_or_free == self.vacant@[j + 1] by {
                if j > 0 {
                    assert(self.vacant@[j] == pre.vacant@[j - 1]);
                }
            }
            assert(self.vacant@.no_duplicates()) by {
                assert forall|a: int, b: int|
                    0 <= a < self.vacant@.len() && 0 <= b < self.vacant@.len() && a != b implies self.vacant@[a]
                    != self.vacant@[b] by {
                    if a > 0 && b > 0 {
                        assert(self.vacant@[a] == pre.vacant@[a - 1]);
                        assert(self.vacant@[b] == pre.vacant@[b - 1]);
                    } else if a == 0 {
                        assert(self.vacant@[b] == pre.vacant@[b - 1]);
                    } else {
                        assert(self.vacant@[a] == pre.vacant@[a - 1]);
                    }
                }
            }
            assert(self.free_list_wf());
            self.lemma_dense_layout();
            self.lemma_live_iff_current(key);
            assert forall|k: Key| k != key implies #[trigger] self.contains_key(k)
                == pre.contains_key(k) by {
                pre.lemma_live_iff_current(k);
                self.lemma_live_iff_current(k);
            }
            assert forall|k: Key| k != key && #[trigger] pre.contains_key(k) implies self.value_of(
                k,
            ) == pre.value_of(k) by {
                pre.lemma_live_iff_current(k);
                self.lemma_live_iff_current(k);
                let i = pre.position_of(k);
                if i == last {
                    assert(self.keys@[idx as int] == k);
                    Self::lemma_unique_position(self.dense_keys(), k, idx as int);
                } else {
                    assert(self.keys@[i] == k);
                    Self::lemma_unique_position(self.dense_keys(), k, i);
                }
            }
            assert forall|j: int| 0 <= j < self.spec_len() implies {
                &&& self.contains_key(#[trigger] self.dense_keys()[j])
                &&& self.position_of(self.dense_keys()[j]) == j
                &&& self.value_of(self.dense_keys()[j]) == self.dense_values()[j]
            } by {
                self.lemma_position_round_trip(j);
            }
        }
        Some(value)
    }

    /// Dense position of `key`, provided it is live.
    pub fn get_dense_index(&self, key: Key) -> (r: Option<usize>)
        requires
            self.wf(),
        ensures
            r is Some <==> self.contains_key(key),
            r matches Some(i) ==> i == self.position_of(key),
    {
        proof {
            self.lemma_live_iff_current(key);
            self.lemma_dense_layout();
        }
        if key.idx >= self.slots.len() {
            return None;
        }
        let slot = &self.slots[key.idx];
        if slot.version == key.version && key.version % 2 != 0 {
            proof {
                assert(self.keys@[slot.idx_or_free as int] == key);
                Self::lemma_unique_position(self.dense_keys(), key, slot.idx_or_free as int);
            }
            Some(slot.idx_or_free)
        } else {
            None
        }
    }

    /// Dense position of the live key `key`.
    pub fn dense_index(&self, key: Key) -> (r: usize)
        requires
            self.wf(),
            self.contains_key(key),
        ensures
            r == self.position_of(key),
    {
        self.get_dense_index(key).unwrap()
    }

    /// Shared reference to the value stored under `key`, if it is live.
    pub fn get(&self, key: Key) -> (r: Option<&V>)
        requires
            self.wf(),
        ensures
            r is Some <==> self.contains_key(key),
            r matches Some(v) ==> *v == self.value_of(key),
    {
        match self.get_dense_index(key) {
            Some(i) => {
                proof {
                    self.lemma_live_iff_current(key);
                }
                Some(&self.values[i])
            },
            None => None,
        }
    }

    /// Mutable reference to the value stored under `key`, if it is live.
    /// Only that value can change through it.
    pub fn get_mut(&mut self, key: Key) -> (r: Option<&mut V>)
        requires
            old(self).wf(),
        ensures
            r is Some <==> old(self).contains_key(key),
            r matches Some(v) ==> {
                &&& *v == old(self).value_of(key)
                &&& final(self).dense_values() == old(self).dense_values().update(
                    old(self).position_of(key),
                    *final(v),
                )
                &&& final(self).dense_keys() == old(self).dense_keys()
                &&& final(self).free_list() == old(self).free_list()
                &&& forall|s: int| #[trigger] final(self).generation(s) == old(self).generation(s)
                &&& final(self).slot_count() == old(self).slot_count()
                &&& final(self).wf()
            },
            r is None ==> *final(self) == *old(self),
    {
        match self.get_dense_index(key) {
            Some(i) => {
                proof {
                    self.lemma_live_iff_current(key);
                }
                Some(&mut self.values[i])
            },
            None => None,
        }
    }

    /// The value stored under the live key `key`.
    pub fn index(&self, key: Key) -> (r: &V)
        requires
            self.wf(),
            self.contains_key(key),
        ensures
            *r == self.value_of(key),
    {
        let i = self.dense_index(key);
        proof {
            self.lemma_live_iff_current(key);
        }
        &self.values[i]
    }

    /// Mutable reference to the value stored under the live key `key`.
    pub fn index_mut(&mut self, key: Key) -> (r: &mut V)
        requires
            old(self).wf(),
            old(self).contains_key(key),
        ensures
            *r == old(self).value_of(key),
            final(self).dense_values() == old(self).dense_values().update(
                old(self).position_of(key),
                *final(r),
            ),
            final(self).dense_keys() == old(self).dense_keys(),
            final(self).free_list() == old(self).free_list(),
            forall|s: int| #[trigger] final(self).generation(s) == old(self).generation(s),
            final(self).slot_count() == old(self).slot_count(),
            final(self).wf(),
    {
        let i = self.dense_index(key);
        proof {
            self.lemma_live_iff_current(key);
        }
        &mut self.values[i]
    }

    /// The live keys and the live values, both in dense order.
    pub fn as_slice(&self) -> (r: (&[Key], &[V]))
        ensures
            r.0@ == self.dense_keys(),
            r.1@ == self.dense_values(),
    {
        (self.keys.as_slice(), self.values.as_slice())
    }

    /// The live values in dense order.
    pub fn values_as_slice(&self) -> (r: &[V])
        ensures
            r@ == self.dense_values(),
    {
        self.values.as_slice()
    }

    /// The live keys in dense order.
    pub fn keys_as_slice(&self) -> (r: &[Key])
        ensures
            r@ == self.dense_keys(),
    {
        self.keys.as_slice()
    }

    /// The key stored at dense position `dense_key`, if there is one.
    pub fn get_key(&self, dense_key: usize) -> (r: Option<Key>)
        ensures
            r is Some <==> dense_key < self.dense_keys().len(),
            r matches Some(k) ==> k == self.dense_keys()[dense_key as int],
    {
        if dense_key < self.keys.len() {
            Some(self.keys[dense_key])
        } else {
            None
        }
    }

    /// The key stored at dense position `dense_key`.
    pub fn key(&self, dense_key: usize) -> (r: Key)
        requires
            dense_key < self.dense_keys().len(),
        ensures
            r == self.dense_keys()[dense_key as int],
    {
        self.get_key(dense_key).unwrap()
    }

    /// Iterator over the live values in dense order.
    pub fn values(&self) -> (r: std::slice::Iter<'_, V>)
        ensures
            vstd::std_specs::slice::into_iter_elts(r) == self.dense_values(),
    {
        self.values.as_slice().iter()
    }

    /// The live values in dense order, open for in-place mutation. The keys
    /// and slots do not change, only the values written through the slice.
    /// (The length of the slice after the caller is done with it is not
    /// known from the slice's specification, so the consistency of the arena
    /// afterwards is stated under the condition that it is unchanged.)
    pub fn values_mut(&mut self) -> (r: &mut [V])
        requires
            old(self).wf(),
        ensures
            r@ == old(self).dense_values(),
            final(self).dense_values() == final(r)@,
            final(self).dense_keys() == old(self).dense_keys(),
            final(self).free_list() == old(self).free_list(),
            forall|s: int| #[trigger] final(self).generation(s) == old(self).generation(s),
            final(self).slot_count() == old(self).slot_count(),
            // a slice cannot change its length; the arena stays consistent
            final(r)@.len() == r@.len() ==> final(self).wf(),
    {
        self.values.as_mut_slice()
    }

    /// Iterator over the live keys in dense order.
    pub fn keys(&self) -> (r: std::slice::Iter<'_, Key>)
        ensures
            vstd::std_specs::slice::into_iter_elts(r) == self.dense_keys(),
    {
        self.keys.as_slice().iter()
    }

    /// Every live key paired with its value, in dense order.
    pub fn iter(&self) -> (r: Vec<(&Key, &V)>)
        requires
            self.wf(),
        ensures
            r@.len() == self.dense_keys().len(),
            forall|i: int|
                0 <= i < r@.len() ==> *(#[trigger] r@[i]).0 == self.dense_keys()[i] && *r@[i].1
                    == self.value_of(self.dense_keys()[i]),
    {
        let mut out: Vec<(&Key, &V)> = Vec::new();
        let mut i: usize = 0;
        while i < self.keys.len()
            invariant
                self.wf(),
                i <= self.keys@.len(),
                out@.len() == i,
                forall|j: int|
                    0 <= j < i ==> *(#[trigger] out@[j]).0 == self.keys@[j] && *out@[j].1
                        == self.values@[j],
            decreases self.keys@.len() - i,
        {
            proof {
                self.lemma_dense_layout();
            }
            out.push((&self.keys[i], &self.values[i]));
            i = i + 1;
        }
        proof {
            self.lemma_dense_layout();
            assert forall|j: int| 0 <= j < out@.len() implies *(#[trigger] out@[j]).1 == self.value_of(
                self.dense_keys()[j],
            ) by {
                Self::lemma_unique_position(self.dense_keys(), self.keys@[j], j);
            }
        }
        out
    }

    /// Number of live values.
    pub fn len(&self) -> (r: usize)
        ensures
            r == self.spec_len(),
    {
        self.keys.len()
    }

    /// Dense positions and keys are inverse to each other: the key at
    /// position `i` is found again at position `i`.
    pub proof fn lemma_position_round_trip(&self, i: int)
        requires
            self.wf(),
            0 <= i < self.dense_keys().len(),
        ensures
            self.contains_key(self.dense_keys()[i]),
            self.position_of(self.dense_keys()[i]) == i,
    {
        self.lemma_dense_layout();
        Self::lemma_unique_position(self.dense_keys(), self.dense_keys()[i], i);
    }

    /// A key whose slot has moved past its version is dead, and stays dead in
    /// every later state: no operation ever lowers a slot's version.
    pub proof fn lemma_retired_key_stays_dead(&self, later: &Self, k: Key)
        requires
            self.wf(),
            later.wf(),
            self.generation(k@.0 as int) > k@.1,
            forall|s: int| #[trigger] self.generation(s) <= later.generation(s),
        ensures
            !self.contains_key(k),
            !later.contains_key(k),
    {
        self.lemma_live_iff_current(k);
        later.lemma_live_iff_current(k);
        assert(self.generation(k@.0 as int) <= later.generation(k@.0 as int));
    }

    /// Removing the key that an insertion just returned undoes the insertion
    /// on the dense contents: the key sits last, so the swap-removal of
    /// `remove` gives back exactly the keys and values from before. (The
    /// removal itself can be called unless the insertion reused a slot whose
    /// version had reached `usize::MAX - 1`: bumping it again overflows.)
    pub proof fn lemma_remove_undoes_insert(before: &Self, inserted: &Self, key: Key, value: V)
        requires
            before.wf(),
            !before.contains_key(key),
            inserted.dense_keys() == before.dense_keys().push(key),
            inserted.dense_values() == before.dense_values().push(value),
        ensures
            inserted.position_of(key) == before.dense_keys().len(),
            inserted.value_of(key) == value,
            inserted.dense_keys().update(inserted.position_of(key), inserted.dense_keys().last()).drop_last()
                == before.dense_keys(),
            inserted.dense_values().update(
                inserted.position_of(key),
                inserted.dense_values().last(),
            ).drop_last() == before.dense_values(),
    {
        before.lemma_dense_layout();
        let keys = inserted.dense_keys();
        let n = before.dense_keys().len() as int;
        assert(keys.no_duplicates()) by {
            assert forall|i: int, j: int| 0 <= i < keys.len() && 0 <= j < keys.len() && i != j implies keys[i]
                != keys[j] by {
                if i == n {
                    assert(before.dense_keys()[j] == keys[j]);
                } else if j == n {
                    assert(before.dense_keys()[i] == keys[i]);
                }
            }
        }
        Self::lemma_unique_position(keys, key, n);
        assert(keys.update(n, keys.last()).drop_last() =~= before.dense_keys());
        assert(inserted.dense_values().update(n, inserted.dense_values().last()).drop_last()
            =~= before.dense_values());
    }

    /// No slot is lost: every slot either holds a live value or is vacant,
    /// so the live values and the vacant slots together number the slots.
    pub proof fn lemma_slot_accounting(&self)
        requires
            self.wf(),
        ensures
            self.vacant_slots().finite(),
            self.spec_len() + self.vacant_slots().len() == self.slot_count(),
    {
        broadcast use vstd::set_lib::lemma_set_disjoint_lens;

        self.lemma_dense_layout();
        let n = self.slots@.len() as int;
        let live = self.keys@.map_values(|k: Key| k.idx as int);
        let free = self.vacant@.map_values(|s: usize| s as int);
        assert(live.no_duplicates()) by {
            assert forall|i: int, j: int|
                0 <= i < live.len() && 0 <= j < live.len() && i != j implies live[i] != live[j] by {
                assert(self.slots@[self.keys@[i].idx as int].idx_or_free == i);
                assert(self.slots@[self.keys@[j].idx as int].idx_or_free == j);
            }
        }
        assert(free.no_duplicates()) by {
            assert forall|i: int, j: int|
                0 <= i < free.len() && 0 <= j < free.len() && i != j implies free[i] != free[j] by {
                assert(self.vacant@[i] != self.vacant@[j]);
            }
        }
        live.unique_seq_to_set();
        free.unique_seq_to_set();
        assert(self.vacant_slots() =~= free.to_set()) by {
            assert forall|s: int| #[trigger] self.vacant_slots().contains(s) implies free.to_set().contains(s) by {
                assert(!is_occupied(self.slots@[s].version as int));
                assert(self.slots@.len() == self.slots.len());
                assert(self.vacant@.contains(s as usize));
                let j = choose|j: int| 0 <= j < self.vacant@.len() && self.vacant@[j] == s as usize;
                assert(free[j] == s);
            }
            assert forall|s: int| #[trigger] free.to_set().contains(s) implies self.vacant_slots().contains(s) by {
                let j = choose|j: int| 0 <= j < free.len() && free[j] == s;
                assert(self.vacant@[j] < self.slots@.len());
            }
        }
        assert(live.to_set().disjoint(free.to_set())) by {
            assert forall|s: int| !(live.to_set().contains(s) && free.to_set().contains(s)) by {
                if live.to_set().contains(s) && free.to_set().contains(s) {
                    let i = choose|i: int| 0 <= i < live.len() && live[i] == s;
                    let j = choose|j: int| 0 <= j < free.len() && free[j] == s;
                    assert(self.keys@[i].idx as int == s);
                    assert(self.vacant@[j] as int == s);
                }
            }
        }
        vstd::set_lib::lemma_int_range(0, n);
        assert(live.to_set() + free.to_set() =~= vstd::set_lib::set_int_range(0, n)) by {
            assert forall|s: int| #[trigger] vstd::set_lib::set_int_range(0, n).contains(s) implies (live.to_set()
                + free.to_set()).contains(s) by {
                if is_occupied(self.slots@[s].version as int) {
                    let i = self.slots@[s].idx_or_free as int;
                    assert(live[i] == s);
                } else {
                    assert(self.vacant_slots().contains(s));
                }
            }
            assert forall|s: int| #[trigger] (live.to_set() + free.to_set()).contains(s) implies vstd::set_lib::set_int_range(
                0,
                n,
            ).contains(s) by {
                if live.to_set().contains(s) {
                    let i = choose|i: int| 0 <= i < live.len() && live[i] == s;
                    assert(self.keys@[i].idx < self.slots@.len());
                } else {
                    let j = choose|j: int| 0 <= j < free.len() && free[j] == s;
                    assert(self.vacant@[j] < self.slots@.len());
                }
            }
        }
        assert((live.to_set() + free.to_set()).len() == live.to_set().len() + free.to_set().len());
    }

    /// The free list holds each vacant slot exactly once and nothing else,
    /// so an insertion reuses a slot exactly when one is vacant.
    pub proof fn lemma_free_list_is_vacant(&self)
        requires
            self.wf(),
        ensures
            self.free_list().no_duplicates(),
            forall|j: int|
                0 <= j < self.free_list().len() ==> #[trigger] self.vacant_slots().contains(
                    self.free_list()[j] as int,
                ),
            forall|s: int| #[trigger] self.vacant_slots().contains(s) ==> self.free_list().contains(s as usize),
            self.has_vacant_slot() <==> self.free_list().len() > 0,
    {
        assert forall|j: int| 0 <= j < self.free_list().len() implies #[trigger] self.vacant_slots().contains(
            self.free_list()[j] as int,
        ) by {
            assert(self.vacant@[j] < self.slots@.len());
        }
        assert forall|s: int| #[trigger] self.vacant_slots().contains(s) implies self.free_list().contains(
            s as usize,
        ) by {
            assert(!is_occupied(self.slots@[s].version as int));
        }
        if self.has_vacant_slot() {
            let s = choose|s: int| 0 <= s < self.slot_count() && !is_occupied(#[trigger] self.generation(s));
            assert(self.vacant_slots().contains(s));
        }
        if self.free_list().len() > 0 {
            assert(self.vacant@[0] < self.slots@.len());
            assert(!is_occupied(self.generation(self.vacant@[0] as int)));
        }
    }

    proof fn lemma_unique_position(keys: Seq<Key>, k: Key, i: int)
        requires
            keys.no_duplicates(),
            0 <= i < keys.len(),
            keys[i] == k,
        ensures
            keys.index_of(k) == i,
    {
        assert(keys.contains(k));
    }
}

/// Number of `true` entries of `s`.
pub open spec fn count_true(s: Seq<bool>) -> int
    decreases s.len(),
{
    if s.len() == 0 {
        0
    } else {
        count_true(s.drop_last()) + (if s.last() {
            1int
        } else {
            0int
        })
    }
}

/// The number of live values counts the calls that built the arena: along a
/// run of states starting from an empty arena, where each step is an
/// insertion (`inserted[i]`, one value more) or a removal that found its key
/// (one value fewer), the final length is the number of insertions minus
/// the number of successful removals.
pub proof fn lemma_len_counts_calls<V>(states: Seq<Arena<V>>, inserted: Seq<bool>)
    requires
        states.len() == inserted.len() + 1,
        states[0].spec_len() == 0,
        forall|i: int|
            0 <= i < inserted.len() ==> #[trigger] states[i + 1].spec_len() == states[i].spec_len() + (
            if inserted[i] {
                1int
            } else {
                -1int
            }),
    ensures
        states.last().spec_len() == count_true(inserted) - (inserted.len() - count_true(inserted)),
    decreases inserted.len(),
{
    if inserted.len() > 0 {
        let n = inserted.len() - 1;
        lemma_len_counts_calls(states.drop_last(), inserted.drop_last());
        assert(states.drop_last().last() == states[n]);
        assert(states[n + 1].spec_len() == states[n].spec_len() + (if inserted[n] {
            1int
        } else {
            -1int
        }));
    }
}

impl<V> Default for Arena<V> {
    fn default() -> (r: Self)
        ensures
            r.wf(),
            r.dense_keys() == Seq::<Key>::empty(),
            r.dense_values() == Seq::<V>::empty(),
            r.slot_count() == 0,
            r.free_list() == Seq::<usize>::empty(),
            forall|s: int| #[trigger] r.generation(s) == 0,
    {
        Self { values: Vec::new(), keys: Vec::new(), slots: Vec::new(), free: 0, vacant: Ghost(Seq::empty()) }
    }
}

} // verus!
