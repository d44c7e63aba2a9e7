//! A map from texts that can also be walked entry by entry.

use vstd::hash_map::StringHashMap;
use vstd::prelude::*;

verus! {

/// A map from texts to values, together with the list of its keys.
#[verifier::reject_recursive_types(V)]
pub struct KeyMap<V> {
    map: StringHashMap<V>,
    keys: Vec<String>,
}

impl<V> View for KeyMap<V> {
    type V = Map<Seq<char>, V>;

    closed spec fn view(&self) -> Map<Seq<char>, V> {
        self.map@
    }
}

impl<V> KeyMap<V> {
    /// The keys, in the order in which the map is walked.
    pub closed spec fn order(&self) -> Seq<Seq<char>> {
        self.keys@.map_values(|k: String| k@)
    }

    /// The order lists every key of the map, once.
    pub open spec fn wf(&self) -> bool {
        &&& self.order().no_duplicates()
        &&& self.order().to_set() == self@.dom()
        &&& self.order().len() <= usize::MAX
    }

    /// A map without entries.
    pub fn new() -> (r: Self)
        ensures
            r.wf(),
            r@ == Map::<Seq<char>, V>::empty(),
    {
        let r = KeyMap { map: StringHashMap::new(), keys: Vec::new() };
        assert(r.order().to_set() =~= r@.dom());
        r
    }

    /// The number of entries.
    pub fn len(&self) -> (r: usize)
        requires
            self.wf(),
        ensures
            r == self@.dom().len(),
            r == self.order().len(),
            self@.dom().finite(),
    {
        proof {
            self.order().unique_seq_to_set();
        }
        self.keys.len()
    }

    /// The key at a place of the order.
    pub fn key_at(&self, i: usize) -> (r: &str)
        requires
            self.wf(),
            i < self.order().len(),
        ensures
            r@ == self.order()[i as int],
            self@.contains_key(r@),
    {
        proof {
            assert(self.order().to_set().contains(self.order()[i as int]));
        }
        self.keys[i].as_str()
    }

    /// The value of a key.
    pub fn get(&self, key: &str) -> (r: Option<&V>)
        ensures
            match r {
                Some(v) => self@.contains_key(key@) && *v == self@[key@],
                None => !self@.contains_key(key@),
            },
    {
        self.map.get(key)
    }

    /// Gives a key a value, in place of the one that it had.
    pub fn insert(&mut self, key: &str, value: V)
        requires
            old(self).wf(),
        ensures
            final(self).wf(),
            final(self)@ == old(self)@.insert(key@, value),
            old(self)@.contains_key(key@) ==> final(self).order() == old(self).order(),
    {
        let ghost before = self.order();
        if !self.map.contains_key(key) {
            self.keys.push(key.to_owned());
            proof {
                assert(self.order() =~= before.push(key@));
                assert(!before.to_set().contains(key@));
                assert(before.push(key@).to_set() =~= before.to_set().insert(key@)) by {
                    broadcast use vstd::seq_lib::group_seq_properties;

                }
                assert(self.keys.len() <= usize::MAX);
            }
        }
        self.map.insert(key.to_owned(), value);
        assert(self.order().to_set() =~= self@.dom());
    }

    /// Takes the entry at a place of the order out of the map. The last entry
    /// moves to that place.
    pub fn swap_remove(&mut self, i: usize)
        requires
            old(self).wf(),
            i < old(self).order().len(),
        ensures
            final(self).wf(),
            final(self)@ == old(self)@.remove(old(self).order()[i as int]),
            final(self).order() == old(self).order().update(
                i as int,
                old(self).order().last(),
            ).drop_last(),
    {
        let ghost before = self.order();
        let key: String = self.keys.swap_remove(i);
        self.map.remove(key.as_str());
        proof {
            let after = before.update(i as int, before.last()).drop_last();
            assert(self.order() =~= after);
            assert forall|k: Seq<char>| after.to_set().contains(k) == before.to_set().remove(
                before[i as int],
            ).contains(k) by {
                if after.to_set().contains(k) {
                    let j = choose|j: int| 0 <= j < after.len() && after[j] == k;
                    if j == i {
                        assert(before[before.len() - 1] == k);
                    } else {
                        assert(before[j] == k);
                    }
                }
                if before.to_set().contains(k) && k != before[i as int] {
                    let j = choose|j: int| 0 <= j < before.len() && before[j] == k;
                    if j == before.len() - 1 {
                        assert(after[i as int] == k);
                    } else {
                        assert(after[j] == k);
                    }
                }
            }
            assert(self.order().to_set() =~= self@.dom());
        }
    }
}

} // verus!
