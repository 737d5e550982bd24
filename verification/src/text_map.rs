//! Maps with text keys and with number keys. The lookup goes through a
//! `hashbrown::HashMap` from the key to a slot number; the values stand in slots,
//! which gives the maps an order in which they are walked.

use vstd::prelude::*;

verus! {

/// A `hashbrown` map from text to slot numbers.
#[verifier::external_body]
pub struct TextIndex {
    slots: hashbrown::HashMap<String, usize>,
}

/// What a `TextIndex` holds.
pub uninterp spec fn text_slots(index: TextIndex) -> Map<Seq<char>, usize>;

/// `hashbrown::HashMap::new` makes a map that holds nothing.
#[verifier::external_body]
fn new_text_index() -> (r: TextIndex)
    ensures
        text_slots(r).dom() == Set::<Seq<char>>::empty(),
{
    TextIndex { slots: hashbrown::HashMap::new() }
}

/// `hashbrown::HashMap::get` gives the value that is stored under the key, if any.
#[verifier::external_body]
fn text_slot(index: &TextIndex, key: &str) -> (r: Option<usize>)
    ensures
        r == (if text_slots(*index).contains_key(key@) {
            Some(text_slots(*index)[key@])
        } else {
            None
        }),
{
    index.slots.get(key).copied()
}

/// `hashbrown::HashMap::insert` stores a value under a key, in place of the one
/// that was there.
#[verifier::external_body]
fn set_text_slot(index: &mut TextIndex, key: String, slot: usize)
    ensures
        text_slots(*final(index)) == text_slots(*old(index)).insert(key@, slot),
{
    index.slots.insert(key, slot);
}

/// `hashbrown::HashMap::remove` takes out the key and its value.
#[verifier::external_body]
fn clear_text_slot(index: &mut TextIndex, key: &str)
    ensures
        text_slots(*final(index)) == text_slots(*old(index)).remove(key@),
{
    index.slots.remove(key);
}

/// A map from text to values.
pub struct TextMap<V> {
    index: TextIndex,
    entries: Vec<(String, V)>,
}

impl<V> TextMap<V> {
    /// Index and slots agree: every key in a slot is indexed there, and the index
    /// holds nothing else.
    pub closed spec fn wf(self) -> bool {
        let slots = text_slots(self.index);
        &&& forall|i: int|
            0 <= i < self.entries@.len() ==> slots.contains_key(#[trigger] self.entries@[i].0@)
                && slots[self.entries@[i].0@] == i
        &&& forall|k: Seq<char>| #[trigger]
            slots.contains_key(k) ==> slots[k] < self.entries@.len() && self.entries@[slots[k] as int].0@ == k
    }

    /// The keys in the order in which the map is walked.
    pub closed spec fn order(self) -> Seq<Seq<char>> {
        self.entries@.map_values(|e: (String, V)| e.0@)
    }
}

impl<V> View for TextMap<V> {
    type V = Map<Seq<char>, V>;

    closed spec fn view(&self) -> Map<Seq<char>, V> {
        let slots = text_slots(self.index);
        Map::new(|k: Seq<char>| slots.contains_key(k), |k: Seq<char>| self.entries@[slots[k] as int].1)
    }
}

impl<V> TextMap<V> {
    /// An empty map.
    pub fn new() -> (r: Self)
        ensures
            r.wf(),
            r@ == Map::<Seq<char>, V>::empty(),
            r.order() == Seq::<Seq<char>>::empty(),
    {
        let r = TextMap { index: new_text_index(), entries: Vec::new() };
        proof {
            assert(r@ =~= Map::<Seq<char>, V>::empty());
            assert(r.order() =~= Seq::<Seq<char>>::empty());
        }
        r
    }

    /// The number of keys.
    pub fn len(&self) -> (r: usize)
        requires
            self.wf(),
        ensures
            r == self.order().len(),
    {
        self.entries.len()
    }

    /// The value under a key.
    pub fn get(&self, key: &str) -> (r: Option<&V>)
        requires
            self.wf(),
        ensures
            match r {
                Some(v) => self@.contains_key(key@) && *v == self@[key@],
                None => !self@.contains_key(key@),
            },
    {
        match text_slot(&self.index, key) {
            Some(slot) => Some(&self.entries[slot].1),
            None => None,
        }
    }

    /// Whether a key is there.
    pub fn contains_key(&self, key: &str) -> (r: bool)
        requires
            self.wf(),
        ensures
            r == self@.contains_key(key@),
    {
        self.get(key).is_some()
    }

    /// The key in a slot of the walk.
    pub fn key_at(&self, i: usize) -> (r: &String)
        requires
            self.wf(),
            i < self.order().len(),
        ensures
            r@ == self.order()[i as int],
            self@.contains_key(r@),
    {
        &self.entries[i].0
    }

    /// The value in a slot of the walk.
    pub fn value_at(&self, i: usize) -> (r: &V)
        requires
            self.wf(),
            i < self.order().len(),
        ensures
            self@.contains_key(self.order()[i as int]),
            *r == self@[self.order()[i as int]],
    {
        proof {
            assert(self.order()[i as int] == self.entries@[i as int].0@);
        }
        &self.entries[i].1
    }

    /// The walk meets every key, and none twice.
    pub proof fn order_is_complete(self)
        requires
            self.wf(),
        ensures
            self.order().no_duplicates(),
            self.order().to_set() == self@.dom(),
    {
        let order = self.order();
        let slots = text_slots(self.index);
        assert forall|i: int, j: int| 0 <= i < order.len() && 0 <= j < order.len() && i != j implies order[i]
            != order[j] by {
            assert(slots[self.entries@[i].0@] == i);
            assert(slots[self.entries@[j].0@] == j);
        }
        assert forall|k: Seq<char>| order.to_set().contains(k) == self@.dom().contains(k) by {
            if order.contains(k) {
                let i = choose|i: int| 0 <= i < order.len() && order[i] == k;
                assert(slots.contains_key(self.entries@[i].0@));
            }
            if slots.contains_key(k) {
                assert(order[slots[k] as int] == k);
            }
        }
        assert(order.to_set() =~= self@.dom());
    }

    /// Stores a value under a key and gives back the one that was there.
    pub fn insert(&mut self, key: String, value: V) -> (r: Option<V>)
        requires
            old(self).wf(),
        ensures
            final(self).wf(),
            final(self)@ == old(self)@.insert(key@, value),
            match r {
                Some(v) => old(self)@.contains_key(key@) && v == old(self)@[key@],
                None => !old(self)@.contains_key(key@),
            },
            final(self).order() == (if old(self)@.contains_key(key@) {
                old(self).order()
            } else {
                old(self).order().push(key@)
            }),
    {
        let ghost before = *self;
        match text_slot(&self.index, key.as_str()) {
            Some(slot) => {
                let mut entry = (key, value);
                let ghost old_entries = self.entries@;
                std::mem::swap(&mut self.entries[slot], &mut entry);
                proof {
                    assert(self.entries@ =~= old_entries.update(slot as int, (key, value)));
                    assert(entry == old_entries[slot as int]);
                    assert(self@ =~= before@.insert(key@, value));
                    assert(self.order() =~= before.order());
                }
                Some(entry.1)
            },
            None => {
                let slot = self.entries.len();
                set_text_slot(&mut self.index, key.clone(), slot);
                self.entries.push((key, value));
                proof {
                    assert(self.entries@ == before.entries@.push((key, value)));
                    assert(self@ =~= before@.insert(key@, value));
                    assert(self.order() =~= before.order().push(key@));
                }
                None
            },
        }
    }

    /// Takes out a key and gives back its value.
    pub fn remove(&mut self, key: &str) -> (r: Option<V>)
        requires
            old(self).wf(),
        ensures
            final(self).wf(),
            final(self)@ == old(self)@.remove(key@),
            match r {
                Some(v) => old(self)@.contains_key(key@) && v == old(self)@[key@],
                None => !old(self)@.contains_key(key@),
            },
    {
        let ghost before = *self;
        match text_slot(&self.index, key) {
            Some(slot) => {
                let last = self.entries.len() - 1;
                clear_text_slot(&mut self.index, key);
                if slot != last {
                    let moved = self.entries[last].0.clone();
                    set_text_slot(&mut self.index, moved, slot);
                }
                let entry = self.entries.swap_remove(slot);
                proof {
                    let slots = text_slots(before.index);
                    let after = text_slots(self.index);
                    assert(before.entries@[slot as int].0@ == key@);
                    assert forall|i: int| 0 <= i < self.entries@.len() implies after.contains_key(
                        #[trigger] self.entries@[i].0@,
                    ) && after[self.entries@[i].0@] == i by {
                        if i == slot {
                            assert(self.entries@[i] == before.entries@[last as int]);
                            assert(slots[before.entries@[last as int].0@] == last);
                        } else {
                            assert(self.entries@[i] == before.entries@[i]);
                            assert(slots[before.entries@[i].0@] == i);
                            assert(slots[before.entries@[last as int].0@] == last);
                        }
                    }
                    assert forall|k: Seq<char>| #[trigger] after.contains_key(k) implies after[k]
                        < self.entries@.len() && self.entries@[after[k] as int].0@ == k by {
                        assert(slots.contains_key(before.entries@[last as int].0@));
                        assert(slots.contains_key(k));
                    }
                    assert(self@ =~= before@.remove(key@));
                }
                Some(entry.1)
            },
            None => {
                proof {
                    assert(before@.remove(key@) =~= before@);
                }
                None
            },
        }
    }
}

/// A `hashbrown` map from numbers to slot numbers.
#[verifier::external_body]
pub struct NumberIndex {
    slots: hashbrown::HashMap<i32, usize>,
}

/// What a `NumberIndex` holds.
pub uninterp spec fn number_slots(index: NumberIndex) -> Map<i32, usize>;

/// `hashbrown::HashMap::new` makes a map that holds nothing.
#[verifier::external_body]
fn new_number_index() -> (r: NumberIndex)
    ensures
        number_slots(r).dom() == Set::<i32>::empty(),
{
    NumberIndex { slots: hashbrown::HashMap::new() }
}

/// `hashbrown::HashMap::get` gives the value that is stored under the key, if any.
#[verifier::external_body]
fn number_slot(index: &NumberIndex, key: i32) -> (r: Option<usize>)
    ensures
        r == (if number_slots(*index).contains_key(key) {
            Some(number_slots(*index)[key])
        } else {
            None
        }),
{
    index.slots.get(&key).copied()
}

/// `hashbrown::HashMap::insert` stores a value under a key, in place of the one
/// that was there.
#[verifier::external_body]
fn set_number_slot(index: &mut NumberIndex, key: i32, slot: usize)
    ensures
        number_slots(*final(index)) == number_slots(*old(index)).insert(key, slot),
{
    index.slots.insert(key, slot);
}

/// A map from numbers to values.
pub struct NumberMap<V> {
    index: NumberIndex,
    entries: Vec<(i32, V)>,
}

impl<V> NumberMap<V> {
    /// Index and slots agree: every key in a slot is indexed there, and the index
    /// holds nothing else.
    pub closed spec fn wf(self) -> bool {
        let slots = number_slots(self.index);
        &&& forall|i: int|
            0 <= i < self.entries@.len() ==> slots.contains_key(#[trigger] self.entries@[i].0)
                && slots[self.entries@[i].0] == i
        &&& forall|k: i32| #[trigger]
            slots.contains_key(k) ==> slots[k] < self.entries@.len() && self.entries@[slots[k] as int].0 == k
    }

    /// The keys in the order in which the map is walked.
    pub closed spec fn order(self) -> Seq<i32> {
        self.entries@.map_values(|e: (i32, V)| e.0)
    }
}

impl<V> View for NumberMap<V> {
    type V = Map<i32, V>;

    closed spec fn view(&self) -> Map<i32, V> {
        let slots = number_slots(self.index);
        Map::new(|k: i32| slots.contains_key(k), |k: i32| self.entries@[slots[k] as int].1)
    }
}

impl<V> NumberMap<V> {
    /// An empty map.
    pub fn new() -> (r: Self)
        ensures
            r.wf(),
            r@ == Map::<i32, V>::empty(),
            r.order() == Seq::<i32>::empty(),
    {
        let r = NumberMap { index: new_number_index(), entries: Vec::new() };
        proof {
            assert(r@ =~= Map::<i32, V>::empty());
            assert(r.order() =~= Seq::<i32>::empty());
        }
        r
    }

    /// The number of keys.
    pub fn len(&self) -> (r: usize)
        requires
            self.wf(),
        ensures
            r == self.order().len(),
    {
        self.entries.len()
    }

    /// The value under a key.
    pub fn get(&self, key: i32) -> (r: Option<&V>)
        requires
            self.wf(),
        ensures
            match r {
                Some(v) => self@.contains_key(key) && *v == self@[key],
                None => !self@.contains_key(key),
            },
    {
        match number_slot(&self.index, key) {
            Some(slot) => Some(&self.entries[slot].1),
            None => None,
        }
    }

    /// Whether a key is there.
    pub fn contains_key(&self, key: i32) -> (r: bool)
        requires
            self.wf(),
        ensures
            r == self@.contains_key(key),
    {
        self.get(key).is_some()
    }

    /// The key in a slot of the walk.
    pub fn key_at(&self, i: usize) -> (r: i32)
        requires
            self.wf(),
            i < self.order().len(),
        ensures
            r == self.order()[i as int],
            self@.contains_key(r),
    {
        self.entries[i].0
    }

    /// The value in a slot of the walk.
    pub fn value_at(&self, i: usize) -> (r: &V)
        requires
            self.wf(),
            i < self.order().len(),
        ensures
            self@.contains_key(self.order()[i as int]),
            *r == self@[self.order()[i as int]],
    {
        proof {
            assert(self.order()[i as int] == self.entries@[i as int].0);
        }
        &self.entries[i].1
    }

    /// The walk meets every key, and none twice.
    pub proof fn order_is_complete(self)
        requires
            self.wf(),
        ensures
            self.order().no_duplicates(),
            self.order().to_set() == self@.dom(),
    {
        let order = self.order();
        let slots = number_slots(self.index);
        assert forall|i: int, j: int| 0 <= i < order.len() && 0 <= j < order.len() && i != j implies order[i]
            != order[j] by {
            assert(slots[self.entries@[i].0] == i);
            assert(slots[self.entries@[j].0] == j);
        }
        assert forall|k: i32| order.to_set().contains(k) == self@.dom().contains(k) by {
            if order.contains(k) {
                let i = choose|i: int| 0 <= i < order.len() && order[i] == k;
                assert(slots.contains_key(self.entries@[i].0));
            }
            if slots.contains_key(k) {
                assert(order[slots[k] as int] == k);
            }
        }
        assert(order.to_set() =~= self@.dom());
    }

    /// Stores a value under a key and gives back the one that was there.
    pub fn insert(&mut self, key: i32, value: V) -> (r: Option<V>)
        requires
            old(self).wf(),
        ensures
            final(self).wf(),
            final(self)@ == old(self)@.insert(key, value),
            match r {
                Some(v) => old(self)@.contains_key(key) && v == old(self)@[key],
                None => !old(self)@.contains_key(key),
            },
            final(self).order() == (if old(self)@.contains_key(key) {
                old(self).order()
            } else {
                old(self).order().push(key)
            }),
    {
        let ghost before = *self;
        match number_slot(&self.index, key) {
            Some(slot) => {
                let mut entry = (key, value);
                let ghost old_entries = self.entries@;
                std::mem::swap(&mut self.entries[slot], &mut entry);
                proof {
                    assert(self.entries@ =~= old_entries.update(slot as int, (key, value)));
                    assert(entry == old_entries[slot as int]);
                    assert(self@ =~= before@.insert(key, value));
                    assert(self.order() =~= before.order());
                }
                Some(entry.1)
            },
            None => {
                let slot = self.entries.len();
                set_number_slot(&mut self.index, key, slot);
                self.entries.push((key, value));
                proof {
                    assert(self.entries@ == before.entries@.push((key, value)));
                    assert(self@ =~= before@.insert(key, value));
                    assert(self.order() =~= before.order().push(key));
                }
                None
            },
        }
    }
}

} // verus!
