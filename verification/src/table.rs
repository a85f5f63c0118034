//! A table from names to values that keeps its entries in the order in which
//! their names first arrived.
//!
//! The peer registry, the key store and the lobby's list of servers are all
//! such tables. A table is modelled by its sequence of `(name, value)` pairs,
//! in which no name occurs twice, and viewed as the map that the pairs spell
//! out.

use vstd::prelude::*;

verus! {

/// No name occurs in two pairs.
pub open spec fn distinct_names<V>(pairs: Seq<(Seq<char>, V)>) -> bool {
    forall|i: int, j: int|
        0 <= i < j < pairs.len() ==> (#[trigger] pairs[i]).0 != (#[trigger] pairs[j]).0
}

/// Some pair carries `name`.
pub open spec fn holds<V>(pairs: Seq<(Seq<char>, V)>, name: Seq<char>) -> bool {
    exists|i: int| 0 <= i < pairs.len() && (#[trigger] pairs[i]).0 == name
}

/// The position of a pair that carries `name`, where there is one.
pub open spec fn place<V>(pairs: Seq<(Seq<char>, V)>, name: Seq<char>) -> int {
    choose|i: int| 0 <= i < pairs.len() && (#[trigger] pairs[i]).0 == name
}

/// The map that the pairs spell out.
pub open spec fn as_map<V>(pairs: Seq<(Seq<char>, V)>) -> Map<Seq<char>, V> {
    Map::new(|name: Seq<char>| holds(pairs, name), |name: Seq<char>| pairs[place(pairs, name)].1)
}

/// The names of the pairs, in order.
pub open spec fn names_of<V>(pairs: Seq<(Seq<char>, V)>) -> Seq<Seq<char>> {
    Seq::new(pairs.len(), |i: int| pairs[i].0)
}

/// The pairs after `name` has been given `value`: an entry that carries the
/// name already is overwritten where it stands, a new name goes to the end.
pub open spec fn with<V>(pairs: Seq<(Seq<char>, V)>, name: Seq<char>, value: V) -> Seq<
    (Seq<char>, V),
> {
    if holds(pairs, name) {
        pairs.update(place(pairs, name), (name, value))
    } else {
        pairs.push((name, value))
    }
}

/// The pairs after `name` has been taken out; the others keep their order.
pub open spec fn without<V>(pairs: Seq<(Seq<char>, V)>, name: Seq<char>) -> Seq<(Seq<char>, V)> {
    if holds(pairs, name) {
        pairs.remove(place(pairs, name))
    } else {
        pairs
    }
}

/// Among distinct names, the pair at `i` is the one that `place` finds.
pub proof fn lemma_place_unique<V>(pairs: Seq<(Seq<char>, V)>, i: int)
    requires
        distinct_names(pairs),
        0 <= i < pairs.len(),
    ensures
        holds(pairs, pairs[i].0),
        place(pairs, pairs[i].0) == i,
{
    let name = pairs[i].0;
    assert(holds(pairs, name));
    let p = place(pairs, name);
    assert(0 <= p < pairs.len() && pairs[p].0 == name);
    if p < i {
        assert(pairs[p].0 != pairs[i].0);
    } else if i < p {
        assert(pairs[i].0 != pairs[p].0);
    }
}

/// Giving a name a value keeps the names distinct and inserts into the map.
pub proof fn lemma_with<V>(pairs: Seq<(Seq<char>, V)>, name: Seq<char>, value: V)
    requires
        distinct_names(pairs),
    ensures
        distinct_names(with(pairs, name, value)),
        as_map(with(pairs, name, value)) == as_map(pairs).insert(name, value),
        with(pairs, name, value).len() == if holds(pairs, name) {
            pairs.len()
        } else {
            pairs.len() + 1
        },
{
    let after = with(pairs, name, value);
    if holds(pairs, name) {
        let p = place(pairs, name);
        assert forall|i: int, j: int| 0 <= i < j < after.len() implies (#[trigger] after[i]).0 != (
        #[trigger] after[j]).0 by {
            assert(after[i].0 == pairs[i].0);
            assert(after[j].0 == pairs[j].0);
        }
        assert forall|n: Seq<char>| holds(after, n) == holds(pairs, n) by {
            if holds(pairs, n) {
                let i = place(pairs, n);
                assert(after[i].0 == n);
            }
            if holds(after, n) {
                let i = place(after, n);
                assert(pairs[i].0 == n);
            }
        }
        assert forall|n: Seq<char>| holds(after, n) implies as_map(after)[n] == as_map(
            pairs,
        ).insert(name, value)[n] by {
            let i = place(after, n);
            lemma_place_unique(after, i);
            assert(pairs[i].0 == n);
            lemma_place_unique(pairs, i);
        }
    } else {
        assert forall|i: int, j: int| 0 <= i < j < after.len() implies (#[trigger] after[i]).0 != (
        #[trigger] after[j]).0 by {
            assert(after[i] == pairs[i]);
            if j < pairs.len() {
                assert(after[j] == pairs[j]);
            }
        }
        assert forall|n: Seq<char>| holds(after, n) == (n == name || holds(pairs, n)) by {
            if holds(pairs, n) {
                let i = place(pairs, n);
                assert(after[i].0 == n);
            }
            if n == name {
                assert(after[pairs.len() as int].0 == n);
            }
            if holds(after, n) {
                let i = place(after, n);
                if i < pairs.len() {
                    assert(pairs[i].0 == n);
                }
            }
        }
        assert forall|n: Seq<char>| holds(after, n) implies as_map(after)[n] == as_map(
            pairs,
        ).insert(name, value)[n] by {
            let i = place(after, n);
            lemma_place_unique(after, i);
            if i < pairs.len() {
                assert(pairs[i] == after[i]);
                lemma_place_unique(pairs, i);
            }
        }
    }
    assert(as_map(after) =~= as_map(pairs).insert(name, value));
}

/// Taking a name out keeps the names distinct and removes from the map.
pub proof fn lemma_without<V>(pairs: Seq<(Seq<char>, V)>, name: Seq<char>)
    requires
        distinct_names(pairs),
    ensures
        distinct_names(without(pairs, name)),
        !holds(without(pairs, name), name),
        as_map(without(pairs, name)) == as_map(pairs).remove(name),
        without(pairs, name).len() == if holds(pairs, name) {
            pairs.len() - 1
        } else {
            pairs.len() as int
        },
{
    let after = without(pairs, name);
    if holds(pairs, name) {
        let p = place(pairs, name);
        assert forall|i: int| 0 <= i < after.len() implies #[trigger] after[i] == pairs[if i < p {
            i
        } else {
            i + 1
        }] by {}
        assert forall|i: int, j: int| 0 <= i < j < after.len() implies (#[trigger] after[i]).0 != (
        #[trigger] after[j]).0 by {
            let oi = if i < p { i } else { i + 1 };
            let oj = if j < p { j } else { j + 1 };
            assert(after[i] == pairs[oi]);
            assert(after[j] == pairs[oj]);
        }
        assert forall|n: Seq<char>| holds(after, n) == (n != name && holds(pairs, n)) by {
            if n != name && holds(pairs, n) {
                let i = place(pairs, n);
                let k = if i < p { i } else { i - 1 };
                assert(after[k] == pairs[i]);
            }
            if holds(after, n) {
                let i = place(after, n);
                let oi = if i < p { i } else { i + 1 };
                assert(after[i] == pairs[oi]);
                assert(pairs[oi].0 == n);
                if n == name {
                    lemma_place_unique(pairs, oi);
                }
            }
        }
        assert forall|n: Seq<char>| holds(after, n) implies as_map(after)[n] == as_map(
            pairs,
        ).remove(name)[n] by {
            let i = place(after, n);
            let oi = if i < p { i } else { i + 1 };
            assert(after[i] == pairs[oi]);
            lemma_place_unique(after, i);
            lemma_place_unique(pairs, oi);
        }
    }
    assert(as_map(after) =~= as_map(pairs).remove(name));
}

/// A table of distinct names has as many entries as its map has keys.
pub proof fn lemma_as_map_len<V>(pairs: Seq<(Seq<char>, V)>)
    requires
        distinct_names(pairs),
    ensures
        as_map(pairs).dom().finite(),
        as_map(pairs).dom().len() == pairs.len(),
    decreases pairs.len(),
{
    if pairs.len() == 0 {
        assert(as_map(pairs).dom() =~= Set::<Seq<char>>::empty());
    } else {
        let front = pairs.drop_last();
        let last = pairs.last();
        assert forall|i: int, j: int| 0 <= i < j < front.len() implies (#[trigger] front[i]).0 != (
        #[trigger] front[j]).0 by {
            assert(front[i] == pairs[i]);
            assert(front[j] == pairs[j]);
        }
        lemma_as_map_len(front);
        if holds(front, last.0) {
            let i = place(front, last.0);
            assert(front[i] == pairs[i]);
            assert(pairs[i].0 != pairs[pairs.len() - 1].0);
        }
        assert forall|n: Seq<char>| holds(pairs, n) == (n == last.0 || holds(front, n)) by {
            if holds(front, n) {
                let i = place(front, n);
                assert(pairs[i] == front[i]);
            }
            if n == last.0 {
                assert(pairs[pairs.len() - 1].0 == n);
            }
            if holds(pairs, n) {
                let i = place(pairs, n);
                if i < front.len() {
                    assert(front[i] == pairs[i]);
                }
            }
        }
        assert(as_map(pairs).dom() =~= as_map(front).dom().insert(last.0));
    }
}

/// The pairs that do not carry `name`, in order.
pub open spec fn others<V>(pairs: Seq<(Seq<char>, V)>, name: Seq<char>) -> Seq<(Seq<char>, V)>
    decreases pairs.len(),
{
    if pairs.len() == 0 {
        pairs
    } else if pairs.last().0 == name {
        others(pairs.drop_last(), name)
    } else {
        others(pairs.drop_last(), name).push(pairs.last())
    }
}

/// Dropping the last pair keeps the names distinct.
pub proof fn lemma_distinct_front<V>(pairs: Seq<(Seq<char>, V)>)
    requires
        distinct_names(pairs),
        pairs.len() > 0,
    ensures
        distinct_names(pairs.drop_last()),
        !holds(pairs.drop_last(), pairs.last().0),
{
    let front = pairs.drop_last();
    assert forall|i: int, j: int| 0 <= i < j < front.len() implies (#[trigger] front[i]).0 != (
    #[trigger] front[j]).0 by {
        assert(front[i] == pairs[i]);
        assert(front[j] == pairs[j]);
    }
    if holds(front, pairs.last().0) {
        let i = place(front, pairs.last().0);
        assert(front[i] == pairs[i]);
        assert(pairs[i].0 != pairs[pairs.len() - 1].0);
    }
}

/// Among distinct names, taking a name out leaves the pairs that do not
/// carry it.
pub proof fn lemma_without_is_others<V>(pairs: Seq<(Seq<char>, V)>, name: Seq<char>)
    requires
        distinct_names(pairs),
    ensures
        without(pairs, name) == others(pairs, name),
    decreases pairs.len(),
{
    if pairs.len() > 0 {
        let front = pairs.drop_last();
        let last = pairs.last();
        lemma_distinct_front(pairs);
        lemma_without_is_others(front, name);
        if last.0 == name {
            lemma_place_unique(pairs, pairs.len() - 1);
            assert(without(pairs, name) =~= front);
        } else {
            if holds(front, name) {
                let p = place(front, name);
                assert(pairs[p] == front[p]);
                lemma_place_unique(pairs, p);
                assert(without(pairs, name) =~= front.remove(p).push(last));
            } else {
                if holds(pairs, name) {
                    let p = place(pairs, name);
                    assert(front[p] == pairs[p]);
                }
                assert(pairs =~= front.push(last));
            }
        }
    }
}

/// The pairs after each of `names` has been taken out.
pub open spec fn without_all<V>(pairs: Seq<(Seq<char>, V)>, names: Seq<Seq<char>>) -> Seq<
    (Seq<char>, V),
>
    decreases names.len(),
{
    if names.len() == 0 {
        pairs
    } else {
        without(without_all(pairs, names.drop_last()), names.last())
    }
}

/// Taking several names out keeps the names distinct, removes exactly those
/// names, and leaves every other name with its value.
pub proof fn lemma_without_all<V>(pairs: Seq<(Seq<char>, V)>, names: Seq<Seq<char>>)
    requires
        distinct_names(pairs),
    ensures
        distinct_names(without_all(pairs, names)),
        as_map(without_all(pairs, names)) == as_map(pairs).remove_keys(names.to_set()),
        forall|name: Seq<char>|
            #![trigger holds(without_all(pairs, names), name)]
            holds(without_all(pairs, names), name) <==> holds(pairs, name) && !names.contains(
                name,
            ),
    decreases names.len(),
{
    if names.len() == 0 {
        assert(as_map(pairs) =~= as_map(pairs).remove_keys(names.to_set()));
    } else {
        let front = names.drop_last();
        let mid = without_all(pairs, front);
        lemma_without_all(pairs, front);
        lemma_without(mid, names.last());
        assert(names =~= front.push(names.last()));
        assert(names.to_set() =~= front.to_set().insert(names.last())) by {
            assert forall|name: Seq<char>| names.contains(name) <==> front.contains(name) || name
                == names.last() by {
                if front.contains(name) {
                    let i = choose|i: int| 0 <= i < front.len() && front[i] == name;
                    assert(names[i] == name);
                }
                if names.contains(name) {
                    let i = choose|i: int| 0 <= i < names.len() && names[i] == name;
                    if i < front.len() {
                        assert(front[i] == name);
                    }
                }
                if name == names.last() {
                    assert(names[names.len() - 1] == name);
                }
            }
        }
        assert(as_map(without_all(pairs, names)) =~= as_map(pairs).remove_keys(names.to_set()));
    }
    assert forall|name: Seq<char>|
        #![trigger holds(without_all(pairs, names), name)]
        holds(without_all(pairs, names), name) <==> holds(pairs, name) && !names.contains(
            name,
        ) by {
        assert(as_map(without_all(pairs, names)).contains_key(name) == holds(
            without_all(pairs, names),
            name,
        ));
        assert(as_map(pairs).contains_key(name) == holds(pairs, name));
        assert(names.to_set().contains(name) == names.contains(name));
    }
}

/// A table from names to values, in order of first arrival.
pub struct NameTable<V> {
    entries: Vec<(String, V)>,
}

impl<V> NameTable<V> {
    /// The table's entries as `(name, value)` pairs, in order.
    pub closed spec fn pairs(&self) -> Seq<(Seq<char>, V)> {
        Seq::new(self.entries@.len(), |i: int| (self.entries@[i].0@, self.entries@[i].1))
    }

    /// No name occurs twice.
    pub open spec fn wf(&self) -> bool {
        distinct_names(self.pairs())
    }

    /// The table as a map from names to values.
    pub open spec fn view(&self) -> Map<Seq<char>, V> {
        as_map(self.pairs())
    }

    /// An empty table.
    pub fn new() -> (t: Self)
        ensures
            t.wf(),
            t.pairs() == Seq::<(Seq<char>, V)>::empty(),
            t@ == Map::<Seq<char>, V>::empty(),
    {
        let t = NameTable { entries: Vec::new() };
        proof {
            assert(t.pairs() =~= Seq::<(Seq<char>, V)>::empty());
            assert(t@ =~= Map::<Seq<char>, V>::empty());
        }
        t
    }

    /// The number of entries, which in a well-formed table is the number of
    /// names.
    pub fn len(&self) -> (n: usize)
        ensures
            n == self.pairs().len(),
            self.wf() ==> self@.dom().finite() && n == self@.dom().len(),
    {
        proof {
            if self.wf() {
                lemma_as_map_len(self.pairs());
            }
        }
        self.entries.len()
    }

    /// Where `name` stands, if it is in the table.
    fn position(&self, name: &String) -> (r: Option<usize>)
        requires
            self.wf(),
        ensures
            match r {
                Some(i) => i < self.pairs().len() && self.pairs()[i as int].0 == name@ && place(
                    self.pairs(),
                    name@,
                ) == i && holds(self.pairs(), name@),
                None => !holds(self.pairs(), name@),
            },
    {
        let mut i: usize = 0;
        while i < self.entries.len()
            invariant
                self.wf(),
                i <= self.entries.len(),
                forall|j: int| 0 <= j < i ==> (#[trigger] self.pairs()[j]).0 != name@,
            decreases self.entries.len() - i,
        {
            if self.entries[i].0 == *name {
                proof {
                    assert(self.pairs()[i as int].0 == name@);
                    lemma_place_unique(self.pairs(), i as int);
                }
                return Some(i);
            }
            assert(self.pairs()[i as int].0 != name@);
            i += 1;
        }
        None
    }

    /// Whether `name` is in the table.
    pub fn contains(&self, name: &str) -> (b: bool)
        requires
            self.wf(),
        ensures
            b == self@.contains_key(name@),
    {
        let probe = name.to_owned();
        self.position(&probe).is_some()
    }

    /// The value that `name` has, if it is in the table.
    pub fn get(&self, name: &str) -> (r: Option<&V>)
        requires
            self.wf(),
        ensures
            match r {
                Some(v) => self@.contains_key(name@) && self@[name@] == *v,
                None => !self@.contains_key(name@),
            },
    {
        let probe = name.to_owned();
        match self.position(&probe) {
            Some(i) => Some(&self.entries[i].1),
            None => None,
        }
    }

    /// Gives `name` the value `value`. A value that the name had before is
    /// overwritten where it stands; the result says whether there was one.
    pub fn insert(&mut self, name: String, value: V) -> (replaced: bool)
        requires
            old(self).wf(),
        ensures
            final(self).wf(),
            final(self).pairs() == with(old(self).pairs(), name@, value),
            final(self)@ == old(self)@.insert(name@, value),
            replaced == old(self)@.contains_key(name@),
    {
        proof {
            lemma_with(self.pairs(), name@, value);
        }
        match self.position(&name) {
            Some(i) => {
                self.entries.set(i, (name, value));
                proof {
                    assert(self.pairs() =~= with(old(self).pairs(), name@, value));
                }
                true
            },
            None => {
                self.entries.push((name, value));
                proof {
                    assert(self.pairs() =~= with(old(self).pairs(), name@, value));
                }
                false
            },
        }
    }

    /// Takes `name` out of the table and hands back the value it had. A name
    /// that is not in the table leaves the table as it is.
    pub fn remove(&mut self, name: &str) -> (r: Option<V>)
        requires
            old(self).wf(),
        ensures
            final(self).wf(),
            final(self).pairs() == without(old(self).pairs(), name@),
            final(self)@ == old(self)@.remove(name@),
            r == if old(self)@.contains_key(name@) {
                Some(old(self)@[name@])
            } else {
                None
            },
    {
        proof {
            lemma_without(self.pairs(), name@);
        }
        let probe = name.to_owned();
        match self.position(&probe) {
            Some(i) => {
                let gone = self.entries.remove(i);
                proof {
                    assert(self.pairs() =~= without(old(self).pairs(), name@));
                }
                Some(gone.1)
            },
            None => None,
        }
    }

    /// The name of the entry at `i`.
    pub fn name_at(&self, i: usize) -> (name: &String)
        requires
            i < self.pairs().len(),
        ensures
            name@ == self.pairs()[i as int].0,
    {
        &self.entries[i].0
    }

    /// The value of the entry at `i`.
    pub fn value_at(&self, i: usize) -> (value: &V)
        requires
            i < self.pairs().len(),
        ensures
            *value == self.pairs()[i as int].1,
    {
        &self.entries[i].1
    }
}

} // verus!
