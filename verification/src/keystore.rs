//! The public keys that encryption-capable clients have offered.
//!
//! A key is kept from the moment its client offers it until the client's
//! identity leaves the relay.

use vstd::prelude::*;
use rsa::RsaPublicKey;
use crate::table::{as_map, distinct_names, with, without, NameTable};

verus! {

/// The store of the clients' public keys, by identity.
pub struct KeyStore {
    keys: NameTable<RsaPublicKey>,
}

impl KeyStore {
    /// The stored `(identity, key)` pairs, in order of first arrival.
    pub closed spec fn pairs(&self) -> Seq<(Seq<char>, RsaPublicKey)> {
        self.keys.pairs()
    }

    /// No identity has two keys.
    pub open spec fn wf(&self) -> bool {
        distinct_names(self.pairs())
    }

    /// The store as a map from identities to keys.
    pub open spec fn view(&self) -> Map<Seq<char>, RsaPublicKey> {
        as_map(self.pairs())
    }

    /// A store without keys.
    pub fn new() -> (r: Self)
        ensures
            r.wf(),
            r.pairs() == Seq::<(Seq<char>, RsaPublicKey)>::empty(),
            r@ == Map::<Seq<char>, RsaPublicKey>::empty(),
    {
        KeyStore { keys: NameTable::new() }
    }

    /// The number of identities that have a key.
    pub fn len(&self) -> (n: usize)
        requires
            self.wf(),
        ensures
            n == self.pairs().len(),
            self@.dom().finite(),
            n == self@.dom().len(),
    {
        self.keys.len()
    }

    /// Whether `identity` has a key in the store.
    pub fn has_key(&self, identity: &str) -> (b: bool)
        requires
            self.wf(),
        ensures
            b == self@.contains_key(identity@),
    {
        self.keys.contains(identity)
    }

    /// The key of `identity`, if the store has one.
    pub fn key_of(&self, identity: &str) -> (r: Option<&RsaPublicKey>)
        requires
            self.wf(),
        ensures
            match r {
                Some(key) => self@.contains_key(identity@) && self@[identity@] == *key,
                None => !self@.contains_key(identity@),
            },
    {
        self.keys.get(identity)
    }

    /// Keeps `key` as the key of `identity`, in place of any earlier one.
    pub fn store(&mut self, identity: String, key: RsaPublicKey)
        requires
            old(self).wf(),
        ensures
            final(self).wf(),
            final(self).pairs() == with(old(self).pairs(), identity@, key),
            final(self)@ == old(self)@.insert(identity@, key),
    {
        self.keys.insert(identity, key);
    }

    /// Drops the key of `identity`, if the store has one.
    pub fn forget(&mut self, identity: &str)
        requires
            old(self).wf(),
        ensures
            final(self).wf(),
            final(self).pairs() == without(old(self).pairs(), identity@),
            final(self)@ == old(self)@.remove(identity@),
    {
        self.keys.remove(identity);
    }
}

} // verus!
