//! Tables keyed by text: the mathematical map that a list of pairs stands for, and a table of
//! values by identifier.

use vstd::prelude::*;

verus! {

/// The map that a list of keys and values stands for. Of two pairs with one key the later counts.
pub open spec fn map_of<V>(pairs: Seq<(Seq<char>, V)>) -> Map<Seq<char>, V>
    decreases pairs.len(),
{
    if pairs.len() == 0 {
        Map::empty()
    } else {
        map_of(pairs.drop_last()).insert(pairs.last().0, pairs.last().1)
    }
}

/// No key occurs twice.
pub open spec fn distinct_keys<V>(pairs: Seq<(Seq<char>, V)>) -> bool {
    forall|i: int, j: int|
        #![trigger pairs[i], pairs[j]]
        0 <= i < j < pairs.len() ==> pairs[i].0 != pairs[j].0
}

pub(crate) proof fn lemma_map_of_push<V>(pairs: Seq<(Seq<char>, V)>, key: Seq<char>, value: V)
    ensures
        map_of(pairs.push((key, value))) == map_of(pairs).insert(key, value),
{
    assert(pairs.push((key, value)).drop_last() =~= pairs);
}

/// The last pair with a key decides what the key leads to.
pub(crate) proof fn lemma_map_of_last<V>(pairs: Seq<(Seq<char>, V)>, i: int)
    requires
        0 <= i < pairs.len(),
        forall|j: int| i < j < pairs.len() ==> (#[trigger] pairs[j]).0 != pairs[i].0,
    ensures
        map_of(pairs).contains_key(pairs[i].0),
        map_of(pairs)[pairs[i].0] == pairs[i].1,
    decreases pairs.len(),
{
    if i < pairs.len() - 1 {
        let shorter = pairs.drop_last();
        assert forall|j: int| i < j < shorter.len() implies (#[trigger] shorter[j]).0
            != shorter[i].0 by {
            assert(shorter[j] == pairs[j]);
        }
        lemma_map_of_last(shorter, i);
        assert(pairs[pairs.len() - 1].0 != pairs[i].0);
    }
}

pub(crate) proof fn lemma_map_of_absent<V>(pairs: Seq<(Seq<char>, V)>, key: Seq<char>)
    requires
        forall|i: int| 0 <= i < pairs.len() ==> (#[trigger] pairs[i]).0 != key,
    ensures
        !map_of(pairs).contains_key(key),
    decreases pairs.len(),
{
    if pairs.len() > 0 {
        let shorter = pairs.drop_last();
        assert forall|i: int| 0 <= i < shorter.len() implies (#[trigger] shorter[i]).0 != key by {
            assert(shorter[i] == pairs[i]);
        }
        lemma_map_of_absent(shorter, key);
        assert(pairs[pairs.len() - 1].0 != key);
    }
}

/// With distinct keys the map holds each pair and nothing else, and has as many keys as the list
/// has pairs.
pub(crate) proof fn lemma_map_of_distinct<V>(pairs: Seq<(Seq<char>, V)>)
    requires
        distinct_keys(pairs),
    ensures
        forall|i: int|
            #![trigger pairs[i]]
            0 <= i < pairs.len() ==> map_of(pairs).contains_key(pairs[i].0) && map_of(
                pairs,
            )[pairs[i].0] == pairs[i].1,
        forall|key: Seq<char>| #[trigger]
            map_of(pairs).contains_key(key) ==> exists|i: int|
                0 <= i < pairs.len() && (#[trigger] pairs[i]).0 == key,
        map_of(pairs).dom().finite(),
        map_of(pairs).len() == pairs.len(),
    decreases pairs.len(),
{
    assert forall|i: int| #![trigger pairs[i]] 0 <= i < pairs.len() implies map_of(
        pairs,
    ).contains_key(pairs[i].0) && map_of(pairs)[pairs[i].0] == pairs[i].1 by {
        lemma_map_of_last(pairs, i);
    }
    assert forall|key: Seq<char>| #[trigger] map_of(pairs).contains_key(key) implies exists|i: int|
        0 <= i < pairs.len() && (#[trigger] pairs[i]).0 == key by {
        if forall|i: int| 0 <= i < pairs.len() ==> (#[trigger] pairs[i]).0 != key {
            lemma_map_of_absent(pairs, key);
        }
    }
    if pairs.len() > 0 {
        let shorter = pairs.drop_last();
        let last = pairs.last();
        assert forall|i: int, j: int|
            #![trigger shorter[i], shorter[j]]
            0 <= i < j < shorter.len() implies shorter[i].0 != shorter[j].0 by {
            assert(pairs[i].0 != pairs[j].0);
        }
        lemma_map_of_distinct(shorter);
        assert forall|i: int| 0 <= i < shorter.len() implies (#[trigger] shorter[i]).0
            != last.0 by {
            assert(pairs[i].0 != pairs[pairs.len() - 1].0);
        }
        lemma_map_of_absent(shorter, last.0);
    }
}

/// A table of values by identifier. No identifier occurs twice.
pub struct IdMap<V> {
    slots: Vec<(String, V)>,
}

impl<V> View for IdMap<V> {
    type V = Map<Seq<char>, V>;

    closed spec fn view(&self) -> Map<Seq<char>, V> {
        map_of(self.pairs())
    }
}

impl<V> IdMap<V> {
    /// The identifiers and values in the order in which the table lists them.
    pub closed spec fn pairs(self) -> Seq<(Seq<char>, V)> {
        self.slots@.map_values(|slot: (String, V)| (slot.0@, slot.1))
    }

    pub open spec fn wf(self) -> bool {
        distinct_keys(self.pairs())
    }

    /// The listing of a table holds exactly what the table holds, each identifier once.
    pub(crate) proof fn lemma_pairs(self)
        requires
            self.wf(),
        ensures
            self@ == map_of(self.pairs()),
            self@.dom().finite(),
            self@.len() == self.pairs().len(),
            forall|i: int|
                #![trigger self.pairs()[i]]
                0 <= i < self.pairs().len() ==> self@.contains_key(self.pairs()[i].0)
                    && self@[self.pairs()[i].0] == self.pairs()[i].1,
            forall|id: Seq<char>| #[trigger]
                self@.contains_key(id) ==> exists|i: int|
                    0 <= i < self.pairs().len() && (#[trigger] self.pairs()[i]).0 == id,
    {
        lemma_map_of_distinct(self.pairs());
    }

    pub fn new() -> (table: Self)
        ensures
            table.wf(),
            table@ == Map::<Seq<char>, V>::empty(),
    {
        let table = IdMap { slots: Vec::new() };
        assert(table.pairs() =~= seq![]);
        table
    }

    pub fn len(&self) -> (n: usize)
        requires
            self.wf(),
        ensures
            n == self@.len(),
            n == self.pairs().len(),
    {
        proof {
            self.lemma_pairs();
        }
        self.slots.len()
    }

    /// The value at position `i` of the listing.
    pub(crate) fn value_at(&self, i: usize) -> (value: &V)
        requires
            i < self.pairs().len(),
        ensures
            *value == self.pairs()[i as int].1,
    {
        &self.slots[i].1
    }

    fn position(&self, id: &str) -> (found: Option<usize>)
        requires
            self.wf(),
        ensures
            found matches Some(i) ==> i < self.pairs().len() && self.pairs()[i as int].0 == id@,
            found is None ==> !self@.contains_key(id@),
    {
        let key = id.to_owned();
        let mut i: usize = 0;
        while i < self.slots.len()
            invariant
                i <= self.slots.len(),
                key@ == id@,
                forall|j: int| 0 <= j < i ==> (#[trigger] self.pairs()[j]).0 != id@,
            decreases self.slots.len() - i,
        {
            if self.slots[i].0.eq(&key) {
                return Some(i);
            }
            assert(self.pairs()[i as int].0 == self.slots[i as int].0@);
            i = i + 1;
        }
        proof {
            lemma_map_of_absent(self.pairs(), id@);
        }
        None
    }

    pub fn contains_key(&self, id: &str) -> (present: bool)
        requires
            self.wf(),
        ensures
            present == self@.contains_key(id@),
    {
        proof {
            self.lemma_pairs();
        }
        self.position(id).is_some()
    }

    pub fn get(&self, id: &str) -> (value: Option<&V>)
        requires
            self.wf(),
        ensures
            value == if self@.contains_key(id@) {
                Some(&self@[id@])
            } else {
                None
            },
    {
        proof {
            self.lemma_pairs();
        }
        match self.position(id) {
            Some(i) => Some(&self.slots[i].1),
            None => None,
        }
    }

    /// Puts `value` under `id`, in place of what was there.
    pub fn insert(&mut self, id: String, value: V)
        requires
            old(self).wf(),
        ensures
            final(self).wf(),
            final(self)@ == old(self)@.insert(id@, value),
    {
        let ghost before = self.pairs();
        let ghost key = id@;
        match self.position(id.as_str()) {
            Some(i) => {
                self.slots[i] = (id, value);
                proof {
                    let after = self.pairs();
                    assert(after =~= before.update(i as int, (key, value)));
                    lemma_map_of_distinct(before);
                    assert forall|a: int, b: int|
                        #![trigger after[a], after[b]]
                        0 <= a < b < after.len() implies after[a].0 != after[b].0 by {
                        assert(before[a].0 != before[b].0);
                    }
                    lemma_map_of_distinct(after);
                    assert forall|k: Seq<char>| map_of(after).contains_key(k) implies (
                    map_of(before).insert(key, value).contains_key(k) && map_of(after)[k] == map_of(
                        before,
                    ).insert(key, value)[k]) by {
                        let j = choose|j: int| 0 <= j < after.len() && (#[trigger] after[j]).0 == k;
                        assert(before[j].0 == k);
                    }
                    assert forall|k: Seq<char>| map_of(before).insert(key, value).contains_key(
                        k,
                    ) implies map_of(after).contains_key(k) by {
                        if k == key {
                            assert(after[i as int].0 == key);
                        } else {
                            let j = choose|j: int|
                                0 <= j < before.len() && (#[trigger] before[j]).0 == k;
                            assert(after[j].0 == k);
                        }
                    }
                    assert(map_of(after) =~= map_of(before).insert(key, value));
                }
            },
            None => {
                self.slots.push((id, value));
                proof {
                    let after = self.pairs();
                    assert(after =~= before.push((key, value)));
                    lemma_map_of_push(before, key, value);
                    lemma_map_of_distinct(before);
                    assert forall|a: int, b: int|
                        #![trigger after[a], after[b]]
                        0 <= a < b < after.len() implies after[a].0 != after[b].0 by {
                        assert(after[a] == before[a]);
                        if b < before.len() {
                            assert(before[a].0 != before[b].0);
                        }
                    }
                }
            },
        }
    }

    /// Takes what is under `id` out of the table.
    pub fn remove(&mut self, id: &str) -> (value: Option<V>)
        requires
            old(self).wf(),
        ensures
            final(self).wf(),
            final(self)@ == old(self)@.remove(id@),
            value == if old(self)@.contains_key(id@) {
                Some(old(self)@[id@])
            } else {
                None
            },
    {
        let ghost before = self.pairs();
        proof {
            self.lemma_pairs();
        }
        match self.position(id) {
            Some(i) => {
                let slot = self.slots.remove(i);
                proof {
                    let after = self.pairs();
                    assert(after =~= before.remove(i as int));
                    assert forall|a: int, b: int|
                        #![trigger after[a], after[b]]
                        0 <= a < b < after.len() implies after[a].0 != after[b].0 by {
                        let p = if a < i {
                            a
                        } else {
                            a + 1
                        };
                        let q = if b < i {
                            b
                        } else {
                            b + 1
                        };
                        assert(before[p].0 != before[q].0);
                    }
                    lemma_map_of_distinct(after);
                    lemma_map_of_distinct(before);
                    assert forall|k: Seq<char>| map_of(after).contains_key(k) implies (
                    map_of(before).remove(id@).contains_key(k) && map_of(after)[k] == map_of(
                        before,
                    ).remove(id@)[k]) by {
                        let j = choose|j: int| 0 <= j < after.len() && (#[trigger] after[j]).0 == k;
                        let p = if j < i {
                            j
                        } else {
                            j + 1
                        };
                        assert(before[p] == after[j]);
                        assert(before[p].0 != before[i as int].0);
                    }
                    assert forall|k: Seq<char>| map_of(before).remove(id@).contains_key(
                        k,
                    ) implies map_of(after).contains_key(k) by {
                        let j = choose|j: int|
                            0 <= j < before.len() && (#[trigger] before[j]).0 == k;
                        let p = if j < i {
                            j
                        } else {
                            j - 1
                        };
                        assert(after[p] == before[j]);
                    }
                    assert(map_of(after) =~= map_of(before).remove(id@));
                }
                Some(slot.1)
            },
            None => {
                assert(self@.remove(id@) =~= self@);
                None
            },
        }
    }
}

} // verus!
