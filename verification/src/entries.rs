//! Named values, each name at most once, kept in ascending order of the names.
//!
//! A measurement holds its tags and its fields this way, so that the same set
//! of names and values is always written as the same text.

use crate::order::{
    lemma_precedes_irreflexive, lemma_precedes_total, lemma_precedes_transitive, place, precedes,
    Place,
};
use vstd::prelude::*;

verus! {

/// Whether the names of `pairs` strictly ascend.
pub open spec fn names_ascend<V>(pairs: Seq<(Seq<char>, V)>) -> bool {
    forall|i: int, j: int|
        #![trigger pairs[i], pairs[j]]
        0 <= i < j < pairs.len() ==> precedes(pairs[i].0, pairs[j].0)
}

/// Whether one of `pairs` has the name `name`.
pub open spec fn has_name<V>(pairs: Seq<(Seq<char>, V)>, name: Seq<char>) -> bool {
    exists|i: int| 0 <= i < pairs.len() && (#[trigger] pairs[i]).0 == name
}

/// The mapping that `pairs` stands for: each name with the value of the last
/// pair that has it.
pub open spec fn map_of<V>(pairs: Seq<(Seq<char>, V)>) -> Map<Seq<char>, V>
    decreases pairs.len(),
{
    if pairs.len() == 0 {
        Map::empty()
    } else {
        map_of(pairs.drop_last()).insert(pairs.last().0, pairs.last().1)
    }
}

/// The names that `map_of(pairs)` maps are the names of `pairs`.
pub proof fn lemma_map_of_names<V>(pairs: Seq<(Seq<char>, V)>, name: Seq<char>)
    ensures
        map_of(pairs).contains_key(name) <==> has_name(pairs, name),
    decreases pairs.len(),
{
    if pairs.len() > 0 {
        let front = pairs.drop_last();
        lemma_map_of_names(front, name);
        if has_name(front, name) {
            let i = choose|i: int| 0 <= i < front.len() && (#[trigger] front[i]).0 == name;
            assert(pairs[i].0 == name);
        }
        if has_name(pairs, name) {
            let i = choose|i: int| 0 <= i < pairs.len() && (#[trigger] pairs[i]).0 == name;
            if i < front.len() {
                assert(front[i].0 == name);
            }
        }
        if pairs.last().0 == name {
            assert(pairs[pairs.len() - 1].0 == name);
        }
    }
}

/// Where the names ascend, `map_of(pairs)` maps the name of each pair to the
/// value of that pair.
pub proof fn lemma_map_of_value<V>(pairs: Seq<(Seq<char>, V)>, i: int)
    requires
        names_ascend(pairs),
        0 <= i < pairs.len(),
    ensures
        map_of(pairs).contains_key(pairs[i].0),
        map_of(pairs)[pairs[i].0] == pairs[i].1,
    decreases pairs.len(),
{
    let front = pairs.drop_last();
    if i < pairs.len() - 1 {
        assert forall|a: int, b: int|
            #![trigger front[a], front[b]]
            0 <= a < b < front.len() implies precedes(front[a].0, front[b].0) by {
            assert(precedes(pairs[a].0, pairs[b].0));
        }
        lemma_map_of_value(front, i);
        assert(front[i] == pairs[i]);
        assert(precedes(pairs[i].0, pairs[pairs.len() - 1].0));
        lemma_precedes_irreflexive(pairs[i].0);
    }
}

/// Replacing the value of a pair keeps the names in order.
proof fn lemma_update_keeps_order<V>(pairs: Seq<(Seq<char>, V)>, at: int, pair: (Seq<char>, V))
    requires
        names_ascend(pairs),
        0 <= at < pairs.len(),
        pairs[at].0 == pair.0,
    ensures
        names_ascend(pairs.update(at, pair)),
{
    let after = pairs.update(at, pair);
    assert forall|i: int, j: int|
        #![trigger after[i], after[j]]
        0 <= i < j < after.len() implies precedes(after[i].0, after[j].0) by {
        assert(precedes(pairs[i].0, pairs[j].0));
    }
}

/// A new pair put between the names before it and the names after it keeps
/// the names in order.
proof fn lemma_insert_keeps_order<V>(pairs: Seq<(Seq<char>, V)>, at: int, pair: (Seq<char>, V))
    requires
        names_ascend(pairs),
        0 <= at <= pairs.len(),
        forall|j: int| 0 <= j < at ==> precedes((#[trigger] pairs[j]).0, pair.0),
        forall|j: int| at <= j < pairs.len() ==> precedes(pair.0, (#[trigger] pairs[j]).0),
    ensures
        names_ascend(pairs.insert(at, pair)),
{
    let after = pairs.insert(at, pair);
    assert forall|i: int, j: int|
        #![trigger after[i], after[j]]
        0 <= i < j < after.len() implies precedes(after[i].0, after[j].0) by {
        let a = if i < at { i } else { i - 1 };
        let b = if j < at { j } else { j - 1 };
        if i == at {
            assert(after[j] == pairs[b]);
        } else if j == at {
            assert(after[i] == pairs[a]);
        } else {
            assert(after[i] == pairs[a]);
            assert(after[j] == pairs[b]);
            assert(precedes(pairs[a].0, pairs[b].0));
        }
    }
}

/// Where the names ascend, two lists with the same names and the same value
/// for each name stand for the same mapping.
proof fn lemma_map_of_same<V>(a: Seq<(Seq<char>, V)>, m: Map<Seq<char>, V>)
    requires
        names_ascend(a),
        forall|name: Seq<char>| has_name(a, name) <==> #[trigger] m.contains_key(name),
        forall|i: int| 0 <= i < a.len() ==> m[(#[trigger] a[i]).0] == a[i].1,
    ensures
        map_of(a) == m,
{
    assert forall|name: Seq<char>| map_of(a).contains_key(name) <==> m.contains_key(name) by {
        lemma_map_of_names(a, name);
    }
    assert forall|name: Seq<char>| #[trigger] map_of(a).contains_key(name) implies map_of(a)[name]
        == m[name] by {
        lemma_map_of_names(a, name);
        let i = choose|i: int| 0 <= i < a.len() && (#[trigger] a[i]).0 == name;
        lemma_map_of_value(a, i);
    }
    assert(map_of(a) =~= m);
}

/// Replacing the value of a pair gives its name the new value.
proof fn lemma_map_of_update<V>(pairs: Seq<(Seq<char>, V)>, at: int, pair: (Seq<char>, V))
    requires
        names_ascend(pairs),
        names_ascend(pairs.update(at, pair)),
        0 <= at < pairs.len(),
        pairs[at].0 == pair.0,
    ensures
        map_of(pairs.update(at, pair)) == map_of(pairs).insert(pair.0, pair.1),
{
    let after = pairs.update(at, pair);
    let m = map_of(pairs).insert(pair.0, pair.1);
    assert forall|name: Seq<char>| has_name(after, name) <==> #[trigger] m.contains_key(name) by {
        lemma_map_of_names(pairs, name);
        if has_name(after, name) {
            let i = choose|i: int| 0 <= i < after.len() && (#[trigger] after[i]).0 == name;
            assert(pairs[i].0 == name);
        }
        if has_name(pairs, name) {
            let i = choose|i: int| 0 <= i < pairs.len() && (#[trigger] pairs[i]).0 == name;
            assert(after[i].0 == name);
        }
        if name == pair.0 {
            assert(after[at].0 == name);
        }
    }
    assert forall|i: int| 0 <= i < after.len() implies m[(#[trigger] after[i]).0] == after[i].1 by {
        if i != at {
            lemma_map_of_value(pairs, i);
            if i < at {
                assert(precedes(pairs[i].0, pairs[at].0));
            } else {
                assert(precedes(pairs[at].0, pairs[i].0));
            }
            lemma_precedes_irreflexive(pairs[i].0);
        }
    }
    lemma_map_of_same(after, m);
}

/// A pair with a new name adds that name with its value.
proof fn lemma_map_of_insert<V>(pairs: Seq<(Seq<char>, V)>, at: int, pair: (Seq<char>, V))
    requires
        names_ascend(pairs),
        names_ascend(pairs.insert(at, pair)),
        0 <= at <= pairs.len(),
    ensures
        map_of(pairs.insert(at, pair)) == map_of(pairs).insert(pair.0, pair.1),
{
    let after = pairs.insert(at, pair);
    let m = map_of(pairs).insert(pair.0, pair.1);
    assert(after[at] == pair);
    assert forall|name: Seq<char>| has_name(after, name) <==> #[trigger] m.contains_key(name) by {
        lemma_map_of_names(pairs, name);
        if has_name(after, name) {
            let i = choose|i: int| 0 <= i < after.len() && (#[trigger] after[i]).0 == name;
            if i < at {
                assert(pairs[i].0 == name);
            } else if i > at {
                assert(pairs[i - 1].0 == name);
            }
        }
        if has_name(pairs, name) {
            let i = choose|i: int| 0 <= i < pairs.len() && (#[trigger] pairs[i]).0 == name;
            if i < at {
                assert(after[i].0 == name);
            } else {
                assert(after[i + 1].0 == name);
            }
        }
        if name == pair.0 {
            assert(after[at].0 == name);
        }
    }
    assert forall|i: int| 0 <= i < after.len() implies m[(#[trigger] after[i]).0] == after[i].1 by {
        if i != at {
            let k = if i < at { i } else { i - 1 };
            assert(after[i] == pairs[k]);
            lemma_map_of_value(pairs, k);
            if i < at {
                assert(precedes(after[i].0, after[at].0));
            } else {
                assert(precedes(after[at].0, after[i].0));
            }
            lemma_precedes_irreflexive(pair.0);
        }
    }
    lemma_map_of_same(after, m);
}

/// Taking a pair out takes its name out of the mapping.
proof fn lemma_map_of_remove<V>(pairs: Seq<(Seq<char>, V)>, at: int)
    requires
        names_ascend(pairs),
        0 <= at < pairs.len(),
    ensures
        names_ascend(pairs.remove(at)),
        map_of(pairs.remove(at)) == map_of(pairs).remove(pairs[at].0),
{
    let after = pairs.remove(at);
    let m = map_of(pairs).remove(pairs[at].0);
    assert forall|i: int, j: int|
        #![trigger after[i], after[j]]
        0 <= i < j < after.len() implies precedes(after[i].0, after[j].0) by {
        let a = if i < at { i } else { i + 1 };
        let b = if j < at { j } else { j + 1 };
        assert(after[i] == pairs[a]);
        assert(after[j] == pairs[b]);
        assert(precedes(pairs[a].0, pairs[b].0));
    }
    assert forall|name: Seq<char>| has_name(after, name) <==> #[trigger] m.contains_key(name) by {
        lemma_map_of_names(pairs, name);
        if has_name(after, name) {
            let i = choose|i: int| 0 <= i < after.len() && (#[trigger] after[i]).0 == name;
            let k = if i < at { i } else { i + 1 };
            assert(pairs[k].0 == name);
            if k < at {
                assert(precedes(pairs[k].0, pairs[at].0));
            } else {
                assert(precedes(pairs[at].0, pairs[k].0));
            }
            lemma_precedes_irreflexive(name);
        }
        if has_name(pairs, name) && name != pairs[at].0 {
            let i = choose|i: int| 0 <= i < pairs.len() && (#[trigger] pairs[i]).0 == name;
            if i < at {
                assert(after[i].0 == name);
            } else {
                assert(after[i - 1].0 == name);
            }
        }
    }
    assert forall|i: int| 0 <= i < after.len() implies m[(#[trigger] after[i]).0] == after[i].1 by {
        let k = if i < at { i } else { i + 1 };
        assert(after[i] == pairs[k]);
        lemma_map_of_value(pairs, k);
        if k < at {
            assert(precedes(pairs[k].0, pairs[at].0));
        } else {
            assert(precedes(pairs[at].0, pairs[k].0));
        }
        lemma_precedes_irreflexive(pairs[k].0);
    }
    lemma_map_of_same(after, m);
}

/// The front of a list whose names ascend: its names ascend, none of them is
/// the last name, and it stands for the mapping without the last name.
proof fn lemma_front<V>(pairs: Seq<(Seq<char>, V)>)
    requires
        names_ascend(pairs),
        pairs.len() > 0,
    ensures
        names_ascend(pairs.drop_last()),
        !has_name(pairs.drop_last(), pairs.last().0),
        map_of(pairs.drop_last()) == map_of(pairs).remove(pairs.last().0),
{
    let front = pairs.drop_last();
    let last = pairs.last();
    assert forall|i: int, j: int|
        #![trigger front[i], front[j]]
        0 <= i < j < front.len() implies precedes(front[i].0, front[j].0) by {
        assert(precedes(pairs[i].0, pairs[j].0));
    }
    if has_name(front, last.0) {
        let i = choose|i: int| 0 <= i < front.len() && (#[trigger] front[i]).0 == last.0;
        assert(precedes(pairs[i].0, pairs[pairs.len() - 1].0));
        lemma_precedes_irreflexive(last.0);
    }
    lemma_map_of_names(front, last.0);
    assert(map_of(front) =~= map_of(pairs).remove(last.0));
}

/// Names in ascending order make the list unique: two lists whose names
/// ascend and that stand for the same mapping are the same list.
pub proof fn lemma_ascending_unique<V>(a: Seq<(Seq<char>, V)>, b: Seq<(Seq<char>, V)>)
    requires
        names_ascend(a),
        names_ascend(b),
        map_of(a) == map_of(b),
    ensures
        a == b,
    decreases a.len(),
{
    if a.len() == 0 || b.len() == 0 {
        if a.len() > 0 {
            lemma_map_of_value(a, 0);
        }
        if b.len() > 0 {
            lemma_map_of_value(b, 0);
        }
        assert(a =~= b);
    } else {
        let x = a.last();
        let y = b.last();
        lemma_map_of_value(a, a.len() - 1);
        lemma_map_of_value(b, b.len() - 1);
        if x.0 != y.0 {
            lemma_map_of_names(b, x.0);
            lemma_map_of_names(a, y.0);
            let j = choose|j: int| 0 <= j < b.len() && (#[trigger] b[j]).0 == x.0;
            let i = choose|i: int| 0 <= i < a.len() && (#[trigger] a[i]).0 == y.0;
            assert(precedes(b[j].0, b[b.len() - 1].0));
            assert(precedes(a[i].0, a[a.len() - 1].0));
            lemma_precedes_total(x.0, y.0);
        }
        lemma_front(a);
        lemma_front(b);
        lemma_ascending_unique(a.drop_last(), b.drop_last());
        assert(a =~= a.drop_last().push(x));
        assert(b =~= b.drop_last().push(y));
    }
}

/// What a list of owned pairs holds: each name and value by its view.
pub open spec fn pairs_view<V: View>(pairs: Seq<(String, V)>) -> Seq<(Seq<char>, V::V)> {
    Seq::new(pairs.len(), |i: int| (pairs[i].0@, pairs[i].1@))
}

/// Named values in ascending order of their names, no name twice.
#[derive(Debug, PartialEq)]
pub struct Entries<V: View> {
    items: Vec<(String, V)>,
}

impl<V: View> Entries<V> {
    /// The names and values, in the order in which they are kept.
    pub closed spec fn view(self) -> Seq<(Seq<char>, V::V)> {
        Seq::new(self.items@.len(), |i: int| (self.items@[i].0@, self.items@[i].1@))
    }

    /// The names strictly ascend.
    #[verifier::type_invariant]
    pub open spec fn well_formed(self) -> bool {
        names_ascend(self@)
    }

    /// The mapping from each name to its value.
    pub open spec fn map(self) -> Map<Seq<char>, V::V> {
        map_of(self@)
    }

    /// No names.
    pub fn new() -> (r: Self)
        ensures
            r@ == Seq::<(Seq<char>, V::V)>::empty(),
            r.well_formed(),
    {
        let r = Entries { items: Vec::new() };
        proof {
            assert(r@ =~= Seq::<(Seq<char>, V::V)>::empty());
        }
        r
    }

    /// How many names there are.
    pub fn len(&self) -> (r: usize)
        ensures
            r == self@.len(),
    {
        self.items.len()
    }

    /// Whether there is no name.
    pub fn is_empty(&self) -> (r: bool)
        ensures
            r == (self@.len() == 0),
    {
        self.items.len() == 0
    }

    /// The name at place `i`.
    pub fn name(&self, i: usize) -> (r: &str)
        requires
            i < self@.len(),
        ensures
            r@ == self@[i as int].0,
    {
        self.items[i].0.as_str()
    }

    /// The value at place `i`.
    pub fn value(&self, i: usize) -> (r: &V)
        requires
            i < self@.len(),
        ensures
            r@ == self@[i as int].1,
    {
        &self.items[i].1
    }

    /// The place of `name` if it is there, else the place where it belongs.
    fn find(&self, name: &str) -> (r: (usize, bool))
        ensures
            r.0 <= self@.len(),
            forall|j: int| 0 <= j < r.0 ==> precedes((#[trigger] self@[j]).0, name@),
            forall|j: int|
                r.0 + (if r.1 { 1int } else { 0int }) <= j < self@.len() ==> precedes(
                    name@,
                    (#[trigger] self@[j]).0,
                ),
            r.1 ==> r.0 < self@.len() && self@[r.0 as int].0 == name@,
            r.1 <==> has_name(self@, name@),
    {
        proof {
            use_type_invariant(self);
        }
        let mut low: usize = 0;
        let mut high: usize = self.items.len();
        while low < high
            invariant
                low <= high <= self@.len(),
                self@.len() == self.items@.len(),
                names_ascend(self@),
                forall|j: int| 0 <= j < low ==> precedes((#[trigger] self@[j]).0, name@),
                forall|j: int| high <= j < self@.len() ==> precedes(name@, (#[trigger] self@[j]).0),
            decreases high - low,
        {
            let mid = low + (high - low) / 2;
            let ghost at = self@[mid as int];
            match place(self.items[mid].0.as_str(), name) {
                Place::Same => {
                    proof {
                        assert forall|j: int| 0 <= j < mid implies precedes(
                            (#[trigger] self@[j]).0,
                            name@,
                        ) by {
                            assert(precedes(self@[j].0, at.0));
                        }
                        assert forall|j: int| mid + 1 <= j < self@.len() implies precedes(
                            name@,
                            (#[trigger] self@[j]).0,
                        ) by {
                            assert(precedes(at.0, self@[j].0));
                        }
                    }
                    return (mid, true);
                },
                Place::Before => {
                    proof {
                        assert forall|j: int| 0 <= j < mid + 1 implies precedes(
                            (#[trigger] self@[j]).0,
                            name@,
                        ) by {
                            if j < mid {
                                assert(precedes(self@[j].0, at.0));
                                lemma_precedes_transitive(self@[j].0, at.0, name@);
                            }
                        }
                    }
                    low = mid + 1;
                },
                Place::After => {
                    proof {
                        lemma_precedes_total(at.0, name@);
                        assert forall|j: int| mid <= j < self@.len() implies precedes(
                            name@,
                            (#[trigger] self@[j]).0,
                        ) by {
                            if mid < j {
                                assert(precedes(at.0, self@[j].0));
                                lemma_precedes_transitive(name@, at.0, self@[j].0);
                            }
                        }
                    }
                    high = mid;
                },
            }
        }
        proof {
            if has_name(self@, name@) {
                let j = choose|j: int| 0 <= j < self@.len() && (#[trigger] self@[j]).0 == name@;
                lemma_precedes_irreflexive(name@);
            }
        }
        (low, false)
    }

    /// The value of `name`, if it is there.
    pub fn get(&self, name: &str) -> (r: Option<&V>)
        ensures
            r is Some <==> self.map().contains_key(name@),
            r matches Some(v) ==> v@ == self.map()[name@],
    {
        proof {
            use_type_invariant(self);
            lemma_map_of_names(self@, name@);
        }
        let (at, found) = self.find(name);
        if found {
            proof {
                lemma_map_of_value(self@, at as int);
            }
            Some(&self.items[at].1)
        } else {
            None
        }
    }

    /// Gives `name` the value `value`, whether or not it had one.
    pub fn insert(&mut self, name: String, value: V)
        ensures
            final(self).well_formed(),
            final(self).map() == old(self).map().insert(name@, value@),
            has_name(old(self)@, name@) ==> final(self)@.len() == old(self)@.len(),
            !has_name(old(self)@, name@) ==> final(self)@.len() == old(self)@.len() + 1,
    {
        proof {
            use_type_invariant(&*self);
        }
        let (at, found) = self.find(name.as_str());
        let ghost before = self@;
        let ghost pair = (name@, value@);
        let mut items: Vec<(String, V)> = Vec::new();
        core::mem::swap(&mut self.items, &mut items);
        if found {
            items.set(at, (name, value));
        } else {
            items.insert(at, (name, value));
        }
        proof {
            let after = Seq::new(items@.len(), |i: int| (items@[i].0@, items@[i].1@));
            if found {
                assert(after =~= before.update(at as int, pair));
                lemma_update_keeps_order(before, at as int, pair);
                lemma_map_of_update(before, at as int, pair);
            } else {
                assert(after =~= before.insert(at as int, pair));
                lemma_insert_keeps_order(before, at as int, pair);
                lemma_map_of_insert(before, at as int, pair);
            }
        }
        self.items = items;
    }

    /// Takes `name` and its value out, if it is there.
    pub fn remove(&mut self, name: &str)
        ensures
            final(self).well_formed(),
            final(self).map() == old(self).map().remove(name@),
    {
        proof {
            use_type_invariant(&*self);
        }
        let (at, found) = self.find(name);
        let ghost before = self@;
        if found {
            let mut items: Vec<(String, V)> = Vec::new();
            core::mem::swap(&mut self.items, &mut items);
            items.remove(at);
            proof {
                let after = Seq::new(items@.len(), |i: int| (items@[i].0@, items@[i].1@));
                assert(after =~= before.remove(at as int));
                lemma_map_of_remove(before, at as int);
            }
            self.items = items;
        } else {
            proof {
                lemma_map_of_names(before, name@);
                assert(map_of(before).remove(name@) =~= map_of(before));
            }
        }
    }

    /// Collects `pairs`: where a name occurs more than once, its last value
    /// stays.
    pub fn from_pairs(pairs: Vec<(String, V)>) -> (r: Self)
        ensures
            r.well_formed(),
            r.map() == map_of(pairs_view(pairs@)),
    {
        let mut r = Entries::new();
        let ghost all = pairs_view(pairs@);
        for pair in it: pairs
            invariant
                it.seq() == pairs@,
                all == pairs_view(pairs@),
                r.well_formed(),
                r.map() == map_of(all.subrange(0, it.index() as int)),
        {
            proof {
                let next = all.subrange(0, it.index() as int + 1);
                assert(next.drop_last() =~= all.subrange(0, it.index() as int));
                assert(next.last() == (pair.0@, pair.1@));
            }
            r.insert(pair.0, pair.1);
        }
        proof {
            assert(all.subrange(0, all.len() as int) =~= all);
        }
        r
    }
}

impl<V: View + Clone> Clone for Entries<V> {
    /// The same names in the same order, each with a clone of its value; of the
    /// values the contract says nothing, as nothing is known of `V::clone`.
    fn clone(&self) -> (r: Self)
        ensures
            r.well_formed(),
            r@.len() == self@.len(),
            forall|i: int| 0 <= i < self@.len() ==> (#[trigger] r@[i]).0 == self@[i].0,
    {
        proof {
            use_type_invariant(self);
        }
        let mut items: Vec<(String, V)> = Vec::new();
        let mut i: usize = 0;
        while i < self.items.len()
            invariant
                i <= self.items@.len(),
                items@.len() == i,
                forall|k: int| 0 <= k < i ==> (#[trigger] items@[k]).0@ == self.items@[k].0@,
            decreases self.items@.len() - i,
        {
            let pair = &self.items[i];
            items.push((pair.0.clone(), pair.1.clone()));
            i = i + 1;
        }
        proof {
            let after = Seq::new(items@.len(), |k: int| (items@[k].0@, items@[k].1@));
            assert forall|a: int, b: int|
                #![trigger after[a], after[b]]
                0 <= a < b < after.len() implies precedes(after[a].0, after[b].0) by {
                assert(after[a].0 == items@[a].0@);
                assert(after[b].0 == items@[b].0@);
                assert(precedes(self@[a].0, self@[b].0));
            }
        }
        Entries { items }
    }
}

} // verus!
