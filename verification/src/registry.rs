//! The registry of connected peers: which identity writes to which handle.
//!
//! A handle is whatever the embedding program writes a line to; the
//! registry only keeps it and hands out copies. An identity has at most one
//! handle: a second registration under the same identity takes the place of
//! the first.

use vstd::prelude::*;
use crate::table::{
    as_map,
    distinct_names,
    holds,
    lemma_without,
    lemma_without_is_others,
    others,
    place,
    without,
    NameTable,
};

verus! {

/// The `(identity, handle)` pairs that a list of entries holds.
pub open spec fn listing<H>(entries: Seq<(String, H)>) -> Seq<(Seq<char>, H)> {
    Seq::new(entries.len(), |i: int| (entries[i].0@, entries[i].1))
}

/// `copy` has the identities of `pairs`, in order, each with a clone of its
/// handle.
pub open spec fn copies<H: Clone>(pairs: Seq<(Seq<char>, H)>, copy: Seq<(Seq<char>, H)>) -> bool {
    copy.len() == pairs.len() && forall|i: int|
        0 <= i < pairs.len() ==> (#[trigger] copy[i]).0 == pairs[i].0 && cloned(
            pairs[i].1,
            copy[i].1,
        )
}

/// A copy carries exactly the identities of what it copies, each once.
pub proof fn lemma_copies_identities<H: Clone>(
    pairs: Seq<(Seq<char>, H)>,
    copy: Seq<(Seq<char>, H)>,
)
    requires
        copies(pairs, copy),
    ensures
        distinct_names(pairs) ==> distinct_names(copy),
        forall|name: Seq<char>| holds(copy, name) == holds(pairs, name),
{
    if distinct_names(pairs) {
        assert forall|i: int, j: int| 0 <= i < j < copy.len() implies (#[trigger] copy[i]).0 != (
        #[trigger] copy[j]).0 by {
            assert(pairs[i].0 != pairs[j].0);
        }
    }
    assert forall|name: Seq<char>| holds(copy, name) == holds(pairs, name) by {
        if holds(copy, name) {
            let i = place(copy, name);
            assert(pairs[i].0 == name);
        }
        if holds(pairs, name) {
            let i = place(pairs, name);
            assert(copy[i].0 == name);
        }
    }
}

/// The registry of connected peers.
pub struct SessionRegistry<H> {
    peers: NameTable<H>,
}

impl<H> SessionRegistry<H> {
    /// The registered `(identity, handle)` pairs, in order of first
    /// registration.
    pub closed spec fn pairs(&self) -> Seq<(Seq<char>, H)> {
        self.peers.pairs()
    }

    /// No identity is registered twice.
    pub open spec fn wf(&self) -> bool {
        distinct_names(self.pairs())
    }

    /// The registry as a map from identities to handles.
    pub open spec fn view(&self) -> Map<Seq<char>, H> {
        as_map(self.pairs())
    }

    /// A registry without peers.
    pub fn new() -> (r: Self)
        ensures
            r.wf(),
            r.pairs() == Seq::<(Seq<char>, H)>::empty(),
            r@ == Map::<Seq<char>, H>::empty(),
    {
        SessionRegistry { peers: NameTable::new() }
    }

    /// The number of registered identities.
    pub fn len(&self) -> (n: usize)
        requires
            self.wf(),
        ensures
            n == self.pairs().len(),
            self@.dom().finite(),
            n == self@.dom().len(),
    {
        self.peers.len()
    }

    /// Whether `identity` is registered.
    pub fn is_registered(&self, identity: &str) -> (b: bool)
        requires
            self.wf(),
        ensures
            b == self@.contains_key(identity@),
    {
        self.peers.contains(identity)
    }

    /// Registers `handle` under `identity`. A handle that the identity had
    /// before is dropped: the last registration wins. The result says
    /// whether there was one.
    pub fn register(&mut self, identity: String, handle: H) -> (replaced: bool)
        requires
            old(self).wf(),
        ensures
            final(self).wf(),
            final(self).pairs() == crate::table::with(old(self).pairs(), identity@, handle),
            final(self)@ == old(self)@.insert(identity@, handle),
            replaced == old(self)@.contains_key(identity@),
    {
        self.peers.insert(identity, handle)
    }

    /// Takes `identity` out of the registry. An identity that is not
    /// registered leaves the registry as it is; the result says whether it
    /// was registered.
    pub fn unregister(&mut self, identity: &str) -> (removed: bool)
        requires
            old(self).wf(),
        ensures
            final(self).wf(),
            final(self).pairs() == without(old(self).pairs(), identity@),
            final(self)@ == old(self)@.remove(identity@),
            removed == old(self)@.contains_key(identity@),
    {
        self.peers.remove(identity).is_some()
    }

    /// The registered identities, in order of first registration.
    pub fn identities(&self) -> (r: Vec<String>)
        requires
            self.wf(),
        ensures
            crate::text::texts(r@) == crate::table::names_of(self.pairs()),
    {
        let n: usize = self.peers.len();
        let mut r: Vec<String> = Vec::new();
        let mut i: usize = 0;
        while i < n
            invariant
                n == self.pairs().len(),
                i <= n,
                r@.len() == i,
                forall|j: int| 0 <= j < i ==> (#[trigger] r@[j])@ == self.pairs()[j].0,
            decreases n - i,
        {
            r.push(self.peers.name_at(i).clone());
            i += 1;
        }
        assert(crate::text::texts(r@) =~= crate::table::names_of(self.pairs()));
        r
    }
}

impl<H: Clone> SessionRegistry<H> {
    /// The registered peers other than `identity`, as they stand at the
    /// moment of the call: their identities in order of first registration,
    /// each with a clone of its handle. The registry is left as it is, and
    /// what is done with the clones does not hold it up.
    pub fn snapshot_excluding(&self, identity: &str) -> (r: Vec<(String, H)>)
        requires
            self.wf(),
        ensures
            copies(without(self.pairs(), identity@), listing(r@)),
            distinct_names(listing(r@)),
            forall|name: Seq<char>|
                holds(listing(r@), name) <==> name != identity@ && self@.contains_key(name),
            r@.len() == if self@.contains_key(identity@) {
                self.pairs().len() - 1
            } else {
                self.pairs().len() as int
            },
    {
        let probe = identity.to_owned();
        let n: usize = self.peers.len();
        let mut r: Vec<(String, H)> = Vec::new();
        let mut i: usize = 0;
        while i < n
            invariant
                probe@ == identity@,
                n == self.pairs().len(),
                i <= n,
                copies(others(self.pairs().take(i as int), identity@), listing(r@)),
            decreases n - i,
        {
            let ghost before = others(self.pairs().take(i as int), identity@);
            let ghost seen = listing(r@);
            let name = self.peers.name_at(i);
            proof {
                assert(self.pairs().take(i + 1).drop_last() =~= self.pairs().take(i as int));
                assert(self.pairs().take(i + 1).last() == self.pairs()[i as int]);
            }
            if *name != probe {
                let handle = self.peers.value_at(i).clone();
                r.push((name.clone(), handle));
                proof {
                    let after = others(self.pairs().take(i + 1), identity@);
                    assert(after == before.push(self.pairs()[i as int]));
                    assert forall|j: int| 0 <= j < after.len() implies (#[trigger] listing(
                        r@,
                    )[j]).0 == after[j].0 && cloned(after[j].1, listing(r@)[j].1) by {
                        if j < before.len() {
                            assert(listing(r@)[j] == seen[j]);
                            assert(after[j] == before[j]);
                        }
                    }
                }
            }
            i += 1;
        }
        proof {
            assert(self.pairs().take(n as int) =~= self.pairs());
            lemma_without_is_others(self.pairs(), identity@);
            lemma_without(self.pairs(), identity@);
            lemma_copies_identities(without(self.pairs(), identity@), listing(r@));
            assert forall|name: Seq<char>| holds(listing(r@), name) <==> name != identity@
                && self@.contains_key(name) by {
                assert(as_map(without(self.pairs(), identity@)).contains_key(name) == holds(
                    without(self.pairs(), identity@),
                    name,
                ));
            }
        }
        r
    }
}

/// One change to the registry.
pub enum Change<H> {
    /// A connection registers under an identity, with its handle.
    Join(Seq<char>, H),
    /// The connection of an identity ends.
    Leave(Seq<char>),
}

/// The registry's pairs after `changes`, applied in order to an empty
/// registry.
pub open spec fn replay<H>(changes: Seq<Change<H>>) -> Seq<(Seq<char>, H)>
    decreases changes.len(),
{
    if changes.len() == 0 {
        Seq::empty()
    } else {
        match changes.last() {
            Change::Join(identity, handle) => crate::table::with(
                replay(changes.drop_last()),
                identity,
                handle,
            ),
            Change::Leave(identity) => without(replay(changes.drop_last()), identity),
        }
    }
}

/// The handle under which `identity` is connected after `changes`: that of
/// its last registration, unless the identity has left since.
pub open spec fn connected<H>(changes: Seq<Change<H>>, identity: Seq<char>) -> Option<H>
    decreases changes.len(),
{
    if changes.len() == 0 {
        None
    } else {
        match changes.last() {
            Change::Join(name, handle) => if name == identity {
                Some(handle)
            } else {
                connected(changes.drop_last(), identity)
            },
            Change::Leave(name) => if name == identity {
                None
            } else {
                connected(changes.drop_last(), identity)
            },
        }
    }
}

/// Whether `changes` are registrations under identities that all differ.
pub open spec fn distinct_joins<H>(changes: Seq<Change<H>>) -> bool {
    &&& forall|i: int| 0 <= i < changes.len() ==> (#[trigger] changes[i]) is Join
    &&& forall|i: int, j: int|
        0 <= i < j < changes.len() ==> (#[trigger] changes[i])->Join_0 != (
        #[trigger] changes[j])->Join_0
}

/// After any sequence of registrations and departures the registry holds
/// exactly the identities that are still connected, each once and each with
/// the handle of its last registration; its size is their number.
pub proof fn lemma_registry_tracks_connections<H>(changes: Seq<Change<H>>)
    ensures
        distinct_names(replay(changes)),
        forall|identity: Seq<char>|
            #![trigger connected(changes, identity)]
            as_map(replay(changes)).contains_key(identity) <==> connected(
                changes,
                identity,
            ) is Some,
        forall|identity: Seq<char>|
            #![trigger connected(changes, identity)]
            connected(changes, identity) is Some ==> as_map(replay(changes))[identity]
                == connected(changes, identity)->0,
        as_map(replay(changes)).dom().finite(),
        replay(changes).len() == as_map(replay(changes)).dom().len(),
        as_map(replay(changes)).dom() == Set::new(
            |identity: Seq<char>| connected(changes, identity) is Some,
        ),
    decreases changes.len(),
{
    if changes.len() == 0 {
        assert forall|identity: Seq<char>| !holds(replay(changes), identity) by {}
    } else {
        let before = changes.drop_last();
        lemma_registry_tracks_connections(before);
        match changes.last() {
            Change::Join(name, handle) => {
                crate::table::lemma_with(replay(before), name, handle);
            },
            Change::Leave(name) => {
                lemma_without(replay(before), name);
            },
        }
        assert forall|identity: Seq<char>|
            #![trigger connected(changes, identity)]
            as_map(replay(changes)).contains_key(identity) <==> connected(
                changes,
                identity,
            ) is Some by {
            assert(as_map(replay(before)).contains_key(identity) <==> connected(
                before,
                identity,
            ) is Some);
        }
        assert forall|identity: Seq<char>|
            #![trigger connected(changes, identity)]
            connected(changes, identity) is Some implies as_map(replay(changes))[identity]
            == connected(changes, identity)->0 by {
            assert(connected(before, identity) is Some ==> as_map(replay(before))[identity]
                == connected(before, identity)->0);
        }
    }
    crate::table::lemma_as_map_len(replay(changes));
    assert(as_map(replay(changes)).dom() =~= Set::new(
        |identity: Seq<char>| connected(changes, identity) is Some,
    ));
}

/// After registrations under identities that all differ, the registry has
/// as many entries as there were registrations.
pub proof fn lemma_distinct_registrations_count<H>(changes: Seq<Change<H>>)
    requires
        distinct_joins(changes),
    ensures
        replay(changes).len() == changes.len(),
        forall|i: int|
            0 <= i < changes.len() ==> holds(replay(changes), (#[trigger] changes[i])->Join_0),
    decreases changes.len(),
{
    if changes.len() > 0 {
        let before = changes.drop_last();
        assert forall|i: int| 0 <= i < before.len() implies (#[trigger] before[i]) is Join by {
            assert(before[i] == changes[i]);
        }
        assert forall|i: int, j: int| 0 <= i < j < before.len() implies (
        #[trigger] before[i])->Join_0 != (#[trigger] before[j])->Join_0 by {
            assert(before[i] == changes[i]);
            assert(before[j] == changes[j]);
        }
        lemma_distinct_registrations_count(before);
        lemma_registry_tracks_connections(before);
        let name = changes.last()->Join_0;
        let handle = changes.last()->Join_1;
        assert(changes.last() is Join);
        lemma_not_connected_without_join(before, name);
        crate::table::lemma_with(replay(before), name, handle);
        assert forall|i: int| 0 <= i < changes.len() implies holds(
            replay(changes),
            (#[trigger] changes[i])->Join_0,
        ) by {
            let n = changes[i]->Join_0;
            if i < before.len() {
                assert(before[i] == changes[i]);
                assert(holds(replay(before), n));
            }
            assert(as_map(replay(changes)).contains_key(n));
        }
    }
}

/// An identity that no change names is not connected.
pub proof fn lemma_not_connected_without_join<H>(changes: Seq<Change<H>>, identity: Seq<char>)
    requires
        forall|i: int|
            0 <= i < changes.len() ==> !((#[trigger] changes[i]) matches Change::Join(name, _)
                && name == identity),
    ensures
        connected(changes, identity) is None,
        !holds(replay(changes), identity),
    decreases changes.len(),
{
    if changes.len() > 0 {
        let before = changes.drop_last();
        assert forall|i: int| 0 <= i < before.len() implies !((
        #[trigger] before[i]) matches Change::Join(name, _) && name == identity) by {
            assert(before[i] == changes[i]);
        }
        lemma_not_connected_without_join(before, identity);
        assert(!(changes[changes.len() - 1] matches Change::Join(name, _) && name == identity));
    }
    lemma_registry_tracks_connections(changes);
    assert(as_map(replay(changes)).contains_key(identity) == holds(replay(changes), identity));
}

} // verus!
