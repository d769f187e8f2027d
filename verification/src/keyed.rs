//! A store of values under byte-string keys, at most one value to a key.

use vstd::prelude::*;
use crate::bytes::same_bytes;

verus! {

/// Values kept under byte-string keys. Its view is the map from the keys to
/// the views of the values.
pub struct Keyed<V> {
    keys: Vec<Vec<u8>>,
    values: Vec<V>,
}

/// Whether `keys` holds `key` at `i`.
spec fn holds_at(keys: Seq<Vec<u8>>, key: Seq<u8>, i: int) -> bool {
    0 <= i < keys.len() && keys[i]@ == key
}

/// No key occurs twice.
spec fn distinct(keys: Seq<Vec<u8>>) -> bool {
    forall|i: int, j: int|
        0 <= i < keys.len() && 0 <= j < keys.len() && #[trigger] keys[i]@ == #[trigger] keys[j]@
            ==> i == j
}

/// The map that `keys` and `values`, position by position, make up.
spec fn as_map<V: View>(keys: Seq<Vec<u8>>, values: Seq<V>) -> Map<Seq<u8>, V::V> {
    Map::new(
        |key: Seq<u8>| exists|i: int| holds_at(keys, key, i),
        |key: Seq<u8>| values[choose|i: int| holds_at(keys, key, i)]@,
    )
}

/// Under distinct keys, the value found under a key is the one at its position.
proof fn lemma_held<V: View>(keys: Seq<Vec<u8>>, values: Seq<V>, i: int)
    requires
        distinct(keys),
        0 <= i < keys.len(),
    ensures
        as_map(keys, values).dom().contains(keys[i]@),
        as_map(keys, values)[keys[i]@] == values[i]@,
{
    let key = keys[i]@;
    assert(holds_at(keys, key, i));
    let found = choose|j: int| holds_at(keys, key, j);
    assert(holds_at(keys, key, found));
    assert(found == i);
}

impl<V: View> View for Keyed<V> {
    type V = Map<Seq<u8>, V::V>;

    closed spec fn view(&self) -> Map<Seq<u8>, V::V> {
        as_map(self.keys@, self.values@)
    }
}

impl<V: View> Keyed<V> {
    /// Every key has its value, and no key occurs twice.
    pub closed spec fn wf(&self) -> bool {
        self.keys.len() == self.values.len() && distinct(self.keys@)
    }

    /// A store that holds nothing.
    pub fn new() -> (store: Self)
        ensures
            store.wf(),
            store@ == Map::<Seq<u8>, V::V>::empty(),
    {
        let store = Keyed { keys: Vec::new(), values: Vec::new() };
        proof {
            assert(store@ =~= Map::<Seq<u8>, V::V>::empty());
        }
        store
    }

    /// The number of keys.
    pub fn len(&self) -> (count: usize)
        requires
            self.wf(),
        ensures
            count == self.spec_len(),
    {
        self.keys.len()
    }

    /// The number of keys.
    pub closed spec fn spec_len(&self) -> nat {
        self.keys.len() as nat
    }

    /// The key at position `i`, in the order in which the keys came.
    pub closed spec fn spec_key(&self, i: int) -> Seq<u8> {
        self.keys[i]@
    }

    /// The key and the value at position `i`, in the order in which the keys came.
    pub fn entry(&self, i: usize) -> (found: (&Vec<u8>, &V))
        requires
            self.wf(),
            i < self.spec_len(),
        ensures
            found.0@ == self.spec_key(i as int),
            self@.dom().contains(found.0@),
            self@[found.0@] == found.1@,
    {
        proof {
            lemma_held(self.keys@, self.values@, i as int);
        }
        (&self.keys[i], &self.values[i])
    }

    /// The position of `key`, if it is held.
    fn position(&self, key: &Vec<u8>) -> (found: Option<usize>)
        requires
            self.wf(),
        ensures
            match found {
                Some(i) => i < self.keys.len() && self.keys[i as int]@ == key@
                    && self@.dom().contains(key@) && self@[key@] == self.values[i as int]@,
                None => !self@.dom().contains(key@) && forall|i: int|
                    0 <= i < self.keys.len() ==> (#[trigger] self.keys[i])@ != key@,
            },
    {
        let mut i: usize = 0;
        while i < self.keys.len()
            invariant
                i <= self.keys.len(),
                self.wf(),
                forall|j: int| 0 <= j < i ==> (#[trigger] self.keys[j])@ != key@,
            decreases self.keys.len() - i,
        {
            if same_bytes(&self.keys[i], key) {
                proof {
                    lemma_held(self.keys@, self.values@, i as int);
                }
                return Some(i);
            }
            i = i + 1;
        }
        proof {
            assert forall|j: int| !holds_at(self.keys@, key@, j) by {
                if 0 <= j < self.keys.len() {
                    assert(self.keys[j]@ != key@);
                }
            }
        }
        None
    }

    /// Whether a value is kept under `key`.
    pub fn has(&self, key: &Vec<u8>) -> (held: bool)
        requires
            self.wf(),
        ensures
            held == self@.dom().contains(key@),
    {
        self.position(key).is_some()
    }

    /// The value kept under `key`, if there is one.
    pub fn get(&self, key: &Vec<u8>) -> (found: Option<&V>)
        requires
            self.wf(),
        ensures
            found is Some <==> self@.dom().contains(key@),
            found matches Some(value) ==> value@ == self@[key@],
    {
        match self.position(key) {
            Some(i) => Some(&self.values[i]),
            None => None,
        }
    }

    /// Keeps `value` under `key`, in place of what was kept there.
    pub fn set(&mut self, key: &Vec<u8>, value: V)
        requires
            old(self).wf(),
        ensures
            final(self).wf(),
            final(self)@ == old(self)@.insert(key@, value@),
    {
        let ghost keys_before = self.keys@;
        let ghost values_before = self.values@;
        match self.position(key) {
            Some(i) => {
                self.values.set(i, value);
                proof {
                    let values_after = self.values@;
                    let target = old(self)@.insert(key@, value@);
                    assert forall|name: Seq<u8>|
                        as_map(keys_before, values_after).dom().contains(name)
                            == target.dom().contains(name) by {
                        if target.dom().contains(name) {
                            if name == key@ {
                                assert(holds_at(keys_before, name, i as int));
                            }
                        }
                    }
                    assert forall|name: Seq<u8>|
                        as_map(keys_before, values_after).dom().contains(name) implies as_map(
                        keys_before,
                        values_after,
                    )[name] == target[name] by {
                        let j = choose|j: int| holds_at(keys_before, name, j);
                        lemma_held(keys_before, values_after, j);
                        if j != i {
                            lemma_held(keys_before, values_before, j);
                        }
                    }
                    assert(as_map(keys_before, values_after) =~= target);
                }
            },
            None => {
                self.keys.push(key.clone());
                self.values.push(value);
                proof {
                    let keys_after = self.keys@;
                    let values_after = self.values@;
                    let last = keys_after.len() - 1;
                    assert(keys_after[last]@ == key@);
                    assert(distinct(keys_after)) by {
                        assert forall|a: int, b: int|
                            0 <= a < keys_after.len() && 0 <= b < keys_after.len()
                                && #[trigger] keys_after[a]@ == #[trigger] keys_after[b]@ implies a
                                == b by {
                            if a < last {
                                assert(keys_after[a] == keys_before[a]);
                            }
                            if b < last {
                                assert(keys_after[b] == keys_before[b]);
                            }
                        }
                    }
                    let target = old(self)@.insert(key@, value@);
                    assert forall|name: Seq<u8>|
                        as_map(keys_after, values_after).dom().contains(name)
                            == target.dom().contains(name) by {
                        if as_map(keys_after, values_after).dom().contains(name) {
                            let j = choose|j: int| holds_at(keys_after, name, j);
                            if j < last {
                                assert(holds_at(keys_before, name, j));
                            }
                        }
                        if target.dom().contains(name) {
                            if name == key@ {
                                assert(holds_at(keys_after, name, last));
                            } else {
                                let j = choose|j: int| holds_at(keys_before, name, j);
                                assert(keys_after[j] == keys_before[j]);
                                assert(holds_at(keys_after, name, j));
                            }
                        }
                    }
                    assert forall|name: Seq<u8>|
                        as_map(keys_after, values_after).dom().contains(name) implies as_map(
                        keys_after,
                        values_after,
                    )[name] == target[name] by {
                        let j = choose|j: int| holds_at(keys_after, name, j);
                        lemma_held(keys_after, values_after, j);
                        if j != last {
                            assert(keys_after[j] == keys_before[j]);
                            assert(values_after[j] == values_before[j]);
                            lemma_held(keys_before, values_before, j);
                        }
                    }
                    assert(as_map(keys_after, values_after) =~= target);
                }
            },
        }
    }

    /// Drops what is kept under `key`, if anything.
    pub fn remove(&mut self, key: &Vec<u8>)
        requires
            old(self).wf(),
        ensures
            final(self).wf(),
            final(self)@ == old(self)@.remove(key@),
    {
        let ghost keys_before = self.keys@;
        let ghost values_before = self.values@;
        match self.position(key) {
            Some(i) => {
                let _ = self.keys.remove(i);
                let _ = self.values.remove(i);
                proof {
                    let keys_after = self.keys@;
                    let values_after = self.values@;
                    assert forall|a: int| 0 <= a < keys_after.len() implies keys_after[a]
                        == keys_before[if a < i {
                        a
                    } else {
                        a + 1
                    }] && values_after[a] == values_before[if a < i {
                        a
                    } else {
                        a + 1
                    }] by {}
                    assert(distinct(keys_after)) by {
                        assert forall|a: int, b: int|
                            0 <= a < keys_after.len() && 0 <= b < keys_after.len()
                                && #[trigger] keys_after[a]@ == #[trigger] keys_after[b]@ implies a
                                == b by {
                            let a0 = if a < i {
                                a
                            } else {
                                a + 1
                            };
                            let b0 = if b < i {
                                b
                            } else {
                                b + 1
                            };
                            assert(keys_after[a] == keys_before[a0]);
                            assert(keys_after[b] == keys_before[b0]);
                        }
                    }
                    let target = old(self)@.remove(key@);
                    assert forall|name: Seq<u8>|
                        as_map(keys_after, values_after).dom().contains(name)
                            == target.dom().contains(name) by {
                        if as_map(keys_after, values_after).dom().contains(name) {
                            let j = choose|j: int| holds_at(keys_after, name, j);
                            let j0 = if j < i {
                                j
                            } else {
                                j + 1
                            };
                            assert(keys_after[j] == keys_before[j0]);
                            assert(holds_at(keys_before, name, j0));
                            assert(keys_before[i as int]@ == key@);
                        }
                        if target.dom().contains(name) {
                            let j0 = choose|j: int| holds_at(keys_before, name, j);
                            assert(j0 != i);
                            let j = if j0 < i {
                                j0
                            } else {
                                j0 - 1
                            };
                            assert(keys_after[j] == keys_before[j0]);
                            assert(holds_at(keys_after, name, j));
                        }
                    }
                    assert forall|name: Seq<u8>|
                        as_map(keys_after, values_after).dom().contains(name) implies as_map(
                        keys_after,
                        values_after,
                    )[name] == target[name] by {
                        let j = choose|j: int| holds_at(keys_after, name, j);
                        let j0 = if j < i {
                            j
                        } else {
                            j + 1
                        };
                        lemma_held(keys_after, values_after, j);
                        assert(keys_after[j] == keys_before[j0]);
                        assert(values_after[j] == values_before[j0]);
                        lemma_held(keys_before, values_before, j0);
                    }
                    assert(as_map(keys_after, values_after) =~= target);
                }
            },
            None => {
                proof {
                    assert(old(self)@.remove(key@) =~= old(self)@);
                }
            },
        }
    }
}

} // verus!
