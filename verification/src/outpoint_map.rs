//! Maps keyed by outpoints.
use vstd::prelude::*;
use crate::txn::{OutPoint, OutPointModel};

verus! {

/// The map that a list of pairs spells, later pairs overriding earlier ones.
pub open spec fn map_of<V>(items: Seq<(OutPoint, V)>) -> Map<OutPointModel, V>
    decreases items.len(),
{
    if items.len() == 0 {
        Map::empty()
    } else {
        map_of(items.drop_last()).insert(items.last().0@, items.last().1)
    }
}

/// Whether no outpoint occurs twice.
pub open spec fn distinct_keys<V>(items: Seq<(OutPoint, V)>) -> bool {
    forall|i: int, j: int|
        0 <= i < j < items.len() ==> (#[trigger] items[i]).0@ != (#[trigger] items[j]).0@
}

proof fn lemma_map_absent<V>(items: Seq<(OutPoint, V)>, key: OutPointModel)
    requires
        forall|i: int| 0 <= i < items.len() ==> (#[trigger] items[i]).0@ != key,
    ensures
        !map_of(items).dom().contains(key),
    decreases items.len(),
{
    if items.len() > 0 {
        lemma_map_absent(items.drop_last(), key);
    }
}

proof fn lemma_map_present<V>(items: Seq<(OutPoint, V)>, i: int)
    requires
        distinct_keys(items),
        0 <= i < items.len(),
    ensures
        map_of(items).dom().contains(items[i].0@),
        map_of(items)[items[i].0@] == items[i].1,
    decreases items.len(),
{
    if i < items.len() - 1 {
        let rest = items.drop_last();
        assert(rest[i] == items[i]);
        assert(items[i].0@ != items[items.len() - 1].0@);
        lemma_map_present(rest, i);
    }
}

proof fn lemma_map_update<V>(items: Seq<(OutPoint, V)>, i: int, item: (OutPoint, V))
    requires
        distinct_keys(items),
        0 <= i < items.len(),
        items[i].0@ == item.0@,
    ensures
        map_of(items.update(i, item)) == map_of(items).insert(item.0@, item.1),
        distinct_keys(items.update(i, item)),
    decreases items.len(),
{
    let updated = items.update(i, item);
    assert forall|a: int, b: int| 0 <= a < b < updated.len() implies (
    #[trigger] updated[a]).0@ != (#[trigger] updated[b]).0@ by {
        assert(items[a].0@ != items[b].0@);
    }
    if i == items.len() - 1 {
        assert(updated.drop_last() =~= items.drop_last());
        assert(map_of(updated) =~= map_of(items).insert(item.0@, item.1));
    } else {
        let rest = items.drop_last();
        lemma_map_update(rest, i, item);
        assert(updated.drop_last() =~= rest.update(i, item));
        assert(items[i].0@ != items[items.len() - 1].0@);
        assert(map_of(updated) =~= map_of(items).insert(item.0@, item.1));
    }
}

/// A map keyed by outpoints. No outpoint occurs twice, and outpoints keep the order in
/// which they came.
pub struct OutPointMap<V> {
    items: Vec<(OutPoint, V)>,
}

impl<V> View for OutPointMap<V> {
    type V = Map<OutPointModel, V>;

    closed spec fn view(&self) -> Map<OutPointModel, V> {
        map_of(self.items@)
    }
}

impl<V> OutPointMap<V> {
    #[verifier::type_invariant]
    closed spec fn no_duplicates(&self) -> bool {
        distinct_keys(self.items@)
    }

    /// The outpoints in the order in which they came.
    pub closed spec fn order(&self) -> Seq<OutPointModel> {
        Seq::new(self.items@.len(), |i: int| self.items@[i].0@)
    }

    /// Whether the order lists exactly the outpoints of the map, each once. This holds of
    /// every map.
    pub open spec fn lists_keys(&self) -> bool {
        &&& self.order().no_duplicates()
        &&& self.order().to_set() == self@.dom()
    }

    proof fn lemma_lists_keys(&self)
        requires
            self.no_duplicates(),
        ensures
            self.lists_keys(),
    {
        assert forall|k: OutPointModel| self.order().contains(k) == self@.dom().contains(k) by {
            if self.order().contains(k) {
                let i = self.order().index_of(k);
                lemma_map_present(self.items@, i);
            } else {
                assert forall|i: int| 0 <= i < self.items@.len() implies (
                #[trigger] self.items@[i]).0@ != k by {
                    assert(self.order()[i] == self.items@[i].0@);
                }
                lemma_map_absent(self.items@, k);
            }
        }
        assert(self.order().to_set() =~= self@.dom());
        assert forall|i: int, j: int|
            0 <= i < self.order().len() && 0 <= j < self.order().len() && i != j implies
            self.order()[i] != self.order()[j] by {
            if i < j {
                assert(self.items@[i].0@ != self.items@[j].0@);
            } else {
                assert(self.items@[j].0@ != self.items@[i].0@);
            }
        }
    }
}

impl<V: Copy> OutPointMap<V> {
    /// An empty map.
    pub fn new() -> (r: OutPointMap<V>)
        ensures
            r@ == Map::<OutPointModel, V>::empty(),
            r.order() == Seq::<OutPointModel>::empty(),
            r.lists_keys(),
    {
        let r = OutPointMap { items: Vec::new() };
        proof {
            assert(r.order() =~= Seq::<OutPointModel>::empty());
            r.lemma_lists_keys();
        }
        r
    }

    fn position(&self, key: &OutPoint) -> (r: Option<usize>)
        ensures
            match r {
                None => forall|i: int|
                    0 <= i < self.items@.len() ==> (#[trigger] self.items@[i]).0@ != key@,
                Some(i) => i < self.items@.len() && self.items@[i as int].0@ == key@,
            },
    {
        let mut i: usize = 0;
        while i < self.items.len()
            invariant
                i <= self.items@.len(),
                forall|j: int| 0 <= j < i ==> (#[trigger] self.items@[j]).0@ != key@,
            decreases self.items@.len() - i,
        {
            if self.items[i].0.same(key) {
                return Some(i);
            }
            i = i + 1;
        }
        None
    }

    /// The value of an outpoint.
    pub fn get(&self, key: &OutPoint) -> (r: Option<V>)
        ensures
            match r {
                None => !self@.dom().contains(key@),
                Some(v) => self@.dom().contains(key@) && self@[key@] == v,
            },
    {
        proof {
            use_type_invariant(self);
        }
        match self.position(key) {
            None => {
                proof {
                    lemma_map_absent(self.items@, key@);
                }
                None
            },
            Some(i) => {
                proof {
                    lemma_map_present(self.items@, i as int);
                }
                Some(self.items[i].1)
            },
        }
    }

    /// Sets the value of an outpoint.
    pub fn insert(&mut self, key: OutPoint, value: V)
        ensures
            final(self)@ == old(self)@.insert(key@, value),
            final(self).order() == if old(self)@.dom().contains(key@) {
                old(self).order()
            } else {
                old(self).order().push(key@)
            },
            final(self).lists_keys(),
    {
        proof {
            use_type_invariant(&*self);
        }
        let position = self.position(&key);
        let mut items: Vec<(OutPoint, V)> = Vec::new();
        std::mem::swap(&mut items, &mut self.items);
        let ghost before = items@;
        match position {
            None => {
                proof {
                    lemma_map_absent(before, key@);
                }
                items.push((key, value));
                proof {
                    assert(items@.drop_last() =~= before);
                    assert forall|a: int, b: int| 0 <= a < b < items@.len() implies (
                    #[trigger] items@[a]).0@ != (#[trigger] items@[b]).0@ by {
                        if b < before.len() {
                            assert(before[a].0@ != before[b].0@);
                        } else {
                            assert(before[a].0@ != key@);
                        }
                    }
                }
            },
            Some(i) => {
                proof {
                    lemma_map_present(before, i as int);
                    lemma_map_update(before, i as int, (key, value));
                }
                items.set(i, (key, value));
            },
        }
        self.items = items;
        proof {
            assert(self.order() =~= if old(self)@.dom().contains(key@) {
                old(self).order()
            } else {
                old(self).order().push(key@)
            });
            self.lemma_lists_keys();
        }
    }

    /// The number of outpoints.
    pub fn len(&self) -> (r: usize)
        ensures
            r == self.order().len(),
            self.lists_keys(),
    {
        proof {
            use_type_invariant(self);
            self.lemma_lists_keys();
        }
        self.items.len()
    }

    /// The outpoint at a position.
    pub fn key_at(&self, i: usize) -> (r: Option<OutPoint>)
        ensures
            match r {
                None => i >= self.order().len(),
                Some(key) => i < self.order().len() && key@ == self.order()[i as int],
            },
    {
        if i < self.items.len() {
            Some(self.items[i].0)
        } else {
            None
        }
    }
}

/// A map gives back what was set last: the new value for the outpoint that was set, and
/// for every other outpoint what it gave before.
pub proof fn theorem_map_gives_back<V: Copy>(
    before: OutPointMap<V>,
    after: OutPointMap<V>,
    key: OutPoint,
    value: V,
    asked: OutPoint,
    got_before: Option<V>,
    got: Option<V>,
)
    requires
        exists|m: &mut OutPointMap<V>|
            *m == before && *final(m) == after && #[trigger] call_ensures(
                OutPointMap::<V>::insert,
                (m, key, value),
                (),
            ),
        call_ensures(OutPointMap::<V>::get, (&before, &asked), got_before),
        call_ensures(OutPointMap::<V>::get, (&after, &asked), got),
    ensures
        asked@ == key@ ==> got == Some(value),
        asked@ != key@ ==> got == got_before,
{
}

/// An outpoint that is new to a map comes last in its order; one that the map has keeps
/// its place. All others keep theirs.
pub proof fn theorem_map_keeps_order<V: Copy>(
    before: OutPointMap<V>,
    after: OutPointMap<V>,
    key: OutPoint,
    value: V,
    known: Option<V>,
    i: int,
)
    requires
        exists|m: &mut OutPointMap<V>|
            *m == before && *final(m) == after && #[trigger] call_ensures(
                OutPointMap::<V>::insert,
                (m, key, value),
                (),
            ),
        call_ensures(OutPointMap::<V>::get, (&before, &key), known),
    ensures
        after.order().len() == before.order().len() + if known is None {
            1int
        } else {
            0
        },
        0 <= i < before.order().len() ==> after.order()[i] == before.order()[i],
        known is None ==> after.order().last() == key@,
{
}

/// A new map has no outpoints. The outpoints of a map are at the positions below its
/// length, one at each, and at no other.
pub proof fn theorem_map_lists_outpoints<V: Copy>(
    empty: OutPointMap<V>,
    m: OutPointMap<V>,
    count: usize,
    i: usize,
    j: usize,
    at_i: Option<OutPoint>,
    at_j: Option<OutPoint>,
)
    requires
        call_ensures(OutPointMap::<V>::new, (), empty),
        call_ensures(OutPointMap::<V>::len, (&m,), count),
        call_ensures(OutPointMap::<V>::key_at, (&m, i), at_i),
        call_ensures(OutPointMap::<V>::key_at, (&m, j), at_j),
    ensures
        empty.order().len() == 0,
        at_i is Some <==> i < count,
        i < count ==> m@.dom().contains(at_i->0@),
        i < count && j < count && i != j ==> at_i->0@ != at_j->0@,
{
    if i < count {
        assert(m.order().to_set().contains(m.order()[i as int]));
    }
}

} // verus!
