//! The relay's shared state and its broadcast engine.
//!
//! A broadcast has two parts. The first takes a snapshot of the peers to
//! write to, which leaves out the sender. The embedding program then writes
//! to each of them, and reports the identities whose write failed. The
//! second part takes those identities out of the registry and of the key
//! store. No write happens while the state is being changed.

use vstd::prelude::*;
use crate::codec::{key_offer_of, key_reply_line, username_of};
use crate::crypto::{
    parse_public_key,
    parsed_key,
    random_bytes,
    wrap_secret,
    wraps,
    SESSION_KEY_LEN,
    WRAP_OVERHEAD,
};
use crate::handshake::{Introduction, Phase, Session};
use crate::keystore::KeyStore;
use crate::registry::{copies, listing, SessionRegistry};
use crate::table::{distinct_names, holds, with, without, without_all};
use crate::text::texts;

verus! {

/// What went wrong with a connection's introduction. Neither ends the
/// connection: it goes on as a plaintext client.
#[derive(Clone, Copy, Debug, PartialEq, Eq, Structural)]
pub enum Fault {
    /// The first line was neither a plaintext introduction nor a key offer.
    MalformedIntroduction,
    /// The offered key could not be read, or the session key could not be
    /// wrapped under it.
    KeyWrapFailure,
}

/// What the relay answers to a connection's first line.
#[derive(Debug)]
pub struct Greeting {
    /// The line to send to the client, if any.
    pub reply: Option<String>,
    /// What went wrong, if anything did.
    pub fault: Option<Fault>,
}

/// The state that the relay's connections share.
pub struct ServerState<H> {
    clients: SessionRegistry<H>,
    pubkeys: KeyStore,
    aes_key: Vec<u8>,
}

impl<H> ServerState<H> {
    /// The registry of connected peers.
    pub closed spec fn clients(&self) -> SessionRegistry<H> {
        self.clients
    }

    /// The store of offered public keys.
    pub closed spec fn pubkeys(&self) -> KeyStore {
        self.pubkeys
    }

    /// The session key.
    pub closed spec fn session_key(&self) -> Seq<u8> {
        self.aes_key@
    }

    /// The registry and the key store are well formed, and the session key
    /// has its length.
    pub open spec fn wf(&self) -> bool {
        &&& self.clients().wf()
        &&& self.pubkeys().wf()
        &&& self.session_key().len() == SESSION_KEY_LEN
    }

    /// A relay without peers, with the session key `key`. The key must have
    /// thirty-two bytes; any other length gives `None`.
    pub fn with_session_key(key: Vec<u8>) -> (r: Option<Self>)
        ensures
            r is Some <==> key@.len() == SESSION_KEY_LEN,
            r matches Some(state) ==> {
                &&& state.wf()
                &&& state.session_key() == key@
                &&& state.clients().pairs().len() == 0
                &&& state.pubkeys().pairs().len() == 0
            },
    {
        if key.len() == SESSION_KEY_LEN {
            Some(
                ServerState {
                    clients: SessionRegistry::new(),
                    pubkeys: KeyStore::new(),
                    aes_key: key,
                },
            )
        } else {
            None
        }
    }

    /// A relay without peers, with a fresh random session key. The result is
    /// `None` only where the operating system gives no random bytes.
    pub fn new() -> (r: Option<Self>)
        ensures
            r matches Some(state) ==> {
                &&& state.wf()
                &&& state.clients().pairs().len() == 0
                &&& state.pubkeys().pairs().len() == 0
            },
    {
        let drawn = random_bytes(SESSION_KEY_LEN);
        Self::with_drawn_key(drawn)
    }

    /// Takes what drawing random bytes gave: thirty-two bytes make a relay
    /// without peers that has them as its session key; a failure, or any
    /// other number of bytes, makes none.
    pub fn with_drawn_key(drawn: Result<Vec<u8>, rand::Error>) -> (r: Option<Self>)
        ensures
            r is Some <==> (drawn matches Ok(key) && key@.len() == SESSION_KEY_LEN),
            r matches Some(state) ==> {
                &&& state.wf()
                &&& drawn matches Ok(key) && state.session_key() == key@
                &&& state.clients().pairs().len() == 0
                &&& state.pubkeys().pairs().len() == 0
            },
    {
        match drawn {
            Ok(key) => Self::with_session_key(key),
            Err(_) => None,
        }
    }

    /// The session key.
    pub fn key(&self) -> (r: &Vec<u8>)
        ensures
            r@ == self.session_key(),
    {
        &self.aes_key
    }

    /// The registry of connected peers.
    pub fn peers(&self) -> (r: &SessionRegistry<H>)
        ensures
            *r == self.clients(),
    {
        &self.clients
    }

    /// The store of offered public keys.
    pub fn keys(&self) -> (r: &KeyStore)
        ensures
            *r == self.pubkeys(),
    {
        &self.pubkeys
    }

    /// Answers a connection's first line.
    ///
    /// A plaintext introduction names the client. A key offer names it too;
    /// if the offered text is a public key, that key is stored under the
    /// client's identity and the session key is wrapped under it, and if
    /// that succeeds the reply carries the wrapped key. Where the key
    /// cannot be read or the wrapping fails, the client goes on as a
    /// plaintext client. After any other first line the client goes by its
    /// peer address. The registry is not touched.
    pub fn greet(&mut self, session: &mut Session, first_line: &str) -> (g: Greeting)
        requires
            old(self).wf(),
            old(session).phase() == Phase::New,
        ensures
            final(self).wf(),
            final(self).clients() == old(self).clients(),
            final(self).session_key() == old(self).session_key(),
            final(session).phase() == Phase::Identified || final(session).phase()
                == Phase::KeyDelivered,
            final(session).phase() == Phase::KeyDelivered <==> g.reply is Some,
            match username_of(first_line@) {
                Some(name) => {
                    &&& final(session).identity() == name
                    &&& final(session).phase() == Phase::Identified
                    &&& g.fault is None
                    &&& final(self).pubkeys() == old(self).pubkeys()
                },
                None => match key_offer_of(first_line@) {
                    Some((name, pem)) => {
                        &&& final(session).identity() == name
                        &&& g.fault == if final(session).phase() == Phase::KeyDelivered {
                            None
                        } else {
                            Some(Fault::KeyWrapFailure)
                        }
                        &&& match parsed_key(pem) {
                            Some(key) => {
                                &&& final(self).pubkeys().pairs() == with(
                                    old(self).pubkeys().pairs(),
                                    name,
                                    key,
                                )
                                &&& g.reply matches Some(line) ==> exists|wrapped: Seq<u8>|
                                    #![trigger key_reply_line(wrapped)]
                                    {
                                        &&& line@ == key_reply_line(wrapped)
                                        &&& wraps(key, old(self).session_key(), wrapped)
                                        &&& wrapped.len() >= SESSION_KEY_LEN + WRAP_OVERHEAD
                                    }
                            },
                            None => {
                                &&& final(self).pubkeys() == old(self).pubkeys()
                                &&& final(session).phase() == Phase::Identified
                            },
                        }
                    },
                    None => {
                        &&& final(session).identity() == old(session).identity()
                        &&& final(session).phase() == Phase::Identified
                        &&& g.fault == Some(Fault::MalformedIntroduction)
                        &&& final(self).pubkeys() == old(self).pubkeys()
                    },
                },
            },
    {
        match session.introduce(first_line) {
            Introduction::Plain => Greeting { reply: None, fault: None },
            Introduction::Malformed => Greeting {
                reply: None,
                fault: Some(Fault::MalformedIntroduction),
            },
            Introduction::KeyOffer(pem) => match parse_public_key(pem.as_str()) {
                Ok(key) => {
                    let wrapped = wrap_secret(&key, self.aes_key.as_slice());
                    self.pubkeys.store(session.name().clone(), key);
                    match wrapped {
                        Ok(bytes) => {
                            let ghost carried = bytes@;
                            let reply = session.deliver(Some(bytes));
                            assert(reply->0@ == key_reply_line(carried));
                            Greeting { reply, fault: None }
                        },
                        Err(_) => {
                            let reply = session.deliver(None);
                            Greeting { reply, fault: Some(Fault::KeyWrapFailure) }
                        },
                    }
                },
                Err(_) => {
                    let reply = session.deliver(None);
                    Greeting { reply, fault: Some(Fault::KeyWrapFailure) }
                },
            },
        }
    }

    /// Registers an introduced connection under its identity, with the
    /// handle that the relay is to write to. An earlier registration under
    /// the same identity is overwritten.
    pub fn join(&mut self, session: &mut Session, handle: H)
        requires
            old(self).wf(),
            old(session).phase() == Phase::Identified || old(session).phase()
                == Phase::KeyDelivered,
        ensures
            final(self).wf(),
            final(session).phase() == Phase::Active,
            final(session).identity() == old(session).identity(),
            final(self).clients().pairs() == with(
                old(self).clients().pairs(),
                old(session).identity(),
                handle,
            ),
            final(self).clients()@ == old(self).clients()@.insert(old(session).identity(), handle),
            final(self).pubkeys() == old(self).pubkeys(),
            final(self).session_key() == old(self).session_key(),
    {
        self.clients.register(session.name().clone(), handle);
        session.activate();
    }

    /// Takes `identity` out of the registry and of the key store. An
    /// identity that is in neither leaves both as they are.
    pub fn remove_peer(&mut self, identity: &str)
        requires
            old(self).wf(),
        ensures
            final(self).wf(),
            final(self).clients().pairs() == without(old(self).clients().pairs(), identity@),
            final(self).clients()@ == old(self).clients()@.remove(identity@),
            final(self).pubkeys().pairs() == without(old(self).pubkeys().pairs(), identity@),
            final(self).pubkeys()@ == old(self).pubkeys()@.remove(identity@),
            final(self).session_key() == old(self).session_key(),
    {
        self.clients.unregister(identity);
        self.pubkeys.forget(identity);
    }

    /// Ends an active connection whose stream has closed or failed: its
    /// identity leaves the registry and the key store.
    pub fn leave(&mut self, session: &mut Session)
        requires
            old(self).wf(),
            old(session).phase() == Phase::Active,
        ensures
            final(self).wf(),
            final(session).phase() == Phase::Disconnected,
            final(session).identity() == old(session).identity(),
            final(self).clients().pairs() == without(
                old(self).clients().pairs(),
                old(session).identity(),
            ),
            final(self).clients()@ == old(self).clients()@.remove(old(session).identity()),
            final(self).pubkeys().pairs() == without(
                old(self).pubkeys().pairs(),
                old(session).identity(),
            ),
            final(self).session_key() == old(self).session_key(),
    {
        session.close();
        self.remove_peer(session.name().as_str());
    }

    /// The second part of a broadcast: takes the identities whose write
    /// failed out of the registry and of the key store.
    pub fn evict(&mut self, failed: &Vec<String>)
        requires
            old(self).wf(),
        ensures
            final(self).wf(),
            final(self).clients().pairs() == without_all(
                old(self).clients().pairs(),
                texts(failed@),
            ),
            final(self).clients()@ == old(self).clients()@.remove_keys(texts(failed@).to_set()),
            final(self).pubkeys().pairs() == without_all(
                old(self).pubkeys().pairs(),
                texts(failed@),
            ),
            final(self).pubkeys()@ == old(self).pubkeys()@.remove_keys(texts(failed@).to_set()),
            final(self).session_key() == old(self).session_key(),
    {
        let n: usize = failed.len();
        let mut i: usize = 0;
        while i < n
            invariant
                n == failed.len(),
                i <= n,
                self.wf(),
                self.session_key() == old(self).session_key(),
                self.clients().pairs() == without_all(
                    old(self).clients().pairs(),
                    texts(failed@).take(i as int),
                ),
                self.pubkeys().pairs() == without_all(
                    old(self).pubkeys().pairs(),
                    texts(failed@).take(i as int),
                ),
            decreases n - i,
        {
            proof {
                let names = texts(failed@);
                assert(names.take(i + 1).drop_last() =~= names.take(i as int));
                assert(names.take(i + 1).last() == failed@[i as int]@);
            }
            self.remove_peer(failed[i].as_str());
            i += 1;
        }
        proof {
            let names = texts(failed@);
            assert(names.take(n as int) =~= names);
            crate::table::lemma_without_all(old(self).clients().pairs(), names);
            crate::table::lemma_without_all(old(self).pubkeys().pairs(), names);
        }
    }
}

impl<H: Clone> ServerState<H> {
    /// The first part of a broadcast from `sender`: the peers to write to,
    /// which are all registered peers but the sender, each with a clone of
    /// its handle.
    pub fn broadcast_targets(&self, sender: &str) -> (r: Vec<(String, H)>)
        requires
            self.wf(),
        ensures
            copies(without(self.clients().pairs(), sender@), listing(r@)),
            distinct_names(listing(r@)),
            forall|name: Seq<char>|
                holds(listing(r@), name) <==> name != sender@ && self.clients()@.contains_key(
                    name,
                ),
            r@.len() == if self.clients()@.contains_key(sender@) {
                self.clients().pairs().len() - 1
            } else {
                self.clients().pairs().len() as int
            },
    {
        self.clients.snapshot_excluding(sender)
    }
}

/// Whether the write to the target at `i` failed. A write that was not
/// reported counts as failed.
pub open spec fn write_failed(wrote: Seq<bool>, i: int) -> bool {
    !(0 <= i < wrote.len() && wrote[i])
}

/// The identities of the targets whose write failed, in the targets' order.
pub open spec fn failed_names<H>(targets: Seq<(Seq<char>, H)>, wrote: Seq<bool>) -> Seq<Seq<char>>
    decreases targets.len(),
{
    if targets.len() == 0 {
        Seq::empty()
    } else if write_failed(wrote, targets.len() - 1) {
        failed_names(targets.drop_last(), wrote).push(targets.last().0)
    } else {
        failed_names(targets.drop_last(), wrote)
    }
}

/// An identity is among the failed names if and only if the write to a
/// target of that identity failed.
pub proof fn lemma_failed_names<H>(targets: Seq<(Seq<char>, H)>, wrote: Seq<bool>)
    ensures
        forall|name: Seq<char>|
            #![trigger failed_names(targets, wrote).contains(name)]
            failed_names(targets, wrote).contains(name) <==> exists|i: int|
                0 <= i < targets.len() && (#[trigger] targets[i]).0 == name && write_failed(
                    wrote,
                    i,
                ),
    decreases targets.len(),
{
    let all = failed_names(targets, wrote);
    if targets.len() == 0 {
        assert forall|name: Seq<char>| !all.contains(name) by {
            if all.contains(name) {
                let k = choose|k: int| 0 <= k < all.len() && all[k] == name;
            }
        }
    } else {
        let front = targets.drop_last();
        let some = failed_names(front, wrote);
        let last = targets.len() - 1;
        lemma_failed_names(front, wrote);
        assert forall|name: Seq<char>|
            #![trigger failed_names(targets, wrote).contains(name)]
            all.contains(name) <==> exists|i: int|
                0 <= i < targets.len() && (#[trigger] targets[i]).0 == name && write_failed(
                    wrote,
                    i,
                ) by {
            if all.contains(name) {
                let k = choose|k: int| 0 <= k < all.len() && all[k] == name;
                if k < some.len() {
                    assert(some[k] == name);
                    assert(some.contains(name));
                    let i = choose|i: int|
                        0 <= i < front.len() && (#[trigger] front[i]).0 == name && write_failed(
                            wrote,
                            i,
                        );
                    assert(targets[i] == front[i]);
                } else {
                    assert(targets[last].0 == name && write_failed(wrote, last));
                }
            }
            if exists|i: int|
                0 <= i < targets.len() && (#[trigger] targets[i]).0 == name && write_failed(
                    wrote,
                    i,
                ) {
                let i = choose|i: int|
                    0 <= i < targets.len() && (#[trigger] targets[i]).0 == name && write_failed(
                        wrote,
                        i,
                    );
                if i < last {
                    assert(front[i] == targets[i]);
                    assert(some.contains(name));
                    let k = choose|k: int| 0 <= k < some.len() && some[k] == name;
                    assert(all[k] == name);
                } else {
                    assert(all[all.len() - 1] == name);
                }
            }
        }
    }
}

/// A broadcast is written to every registered identity but the sender, to
/// each once, and to nobody else; what it is written to is a clone of the
/// handle that the identity is registered with.
pub proof fn lemma_broadcast_reaches_all_others<H: Clone>(
    registry: Seq<(Seq<char>, H)>,
    sender: Seq<char>,
    targets: Seq<(Seq<char>, H)>,
)
    requires
        distinct_names(registry),
        copies(without(registry, sender), targets),
    ensures
        distinct_names(targets),
        !holds(targets, sender),
        forall|name: Seq<char>|
            #![trigger holds(targets, name)]
            holds(targets, name) <==> holds(registry, name) && name != sender,
        forall|i: int|
            0 <= i < targets.len() ==> cloned(
                crate::table::as_map(registry)[(#[trigger] targets[i]).0],
                targets[i].1,
            ),
{
    let rest = without(registry, sender);
    crate::table::lemma_without(registry, sender);
    crate::registry::lemma_copies_identities(rest, targets);
    assert forall|name: Seq<char>|
        #![trigger holds(targets, name)]
        holds(targets, name) <==> holds(registry, name) && name != sender by {
        assert(crate::table::as_map(rest).contains_key(name) == holds(rest, name));
        assert(crate::table::as_map(registry).contains_key(name) == holds(registry, name));
    }
    assert forall|i: int| 0 <= i < targets.len() implies cloned(
        crate::table::as_map(registry)[(#[trigger] targets[i]).0],
        targets[i].1,
    ) by {
        crate::table::lemma_place_unique(rest, i);
        assert(crate::table::as_map(rest)[rest[i].0] == rest[i].1);
        assert(crate::table::as_map(rest).contains_key(rest[i].0));
    }
}

/// After a broadcast, the peers whose write failed are gone from the
/// registry, however many they were; the peers that were written to are
/// still registered with the handles they had; and so is the sender.
pub proof fn lemma_broken_peers_are_evicted<H: Clone>(
    registry: Seq<(Seq<char>, H)>,
    sender: Seq<char>,
    targets: Seq<(Seq<char>, H)>,
    wrote: Seq<bool>,
)
    requires
        distinct_names(registry),
        copies(without(registry, sender), targets),
    ensures
        distinct_names(without_all(registry, failed_names(targets, wrote))),
        forall|i: int|
            0 <= i < targets.len() ==> (holds(
                without_all(registry, failed_names(targets, wrote)),
                (#[trigger] targets[i]).0,
            ) <==> !write_failed(wrote, i)),
        forall|i: int|
            0 <= i < targets.len() && !write_failed(wrote, i) ==> crate::table::as_map(
                without_all(registry, failed_names(targets, wrote)),
            )[(#[trigger] targets[i]).0] == crate::table::as_map(registry)[targets[i].0],
        holds(registry, sender) ==> holds(
            without_all(registry, failed_names(targets, wrote)),
            sender,
        ) && crate::table::as_map(without_all(registry, failed_names(targets, wrote)))[sender]
            == crate::table::as_map(registry)[sender],
{
    let failed = failed_names(targets, wrote);
    let after = without_all(registry, failed);
    lemma_broadcast_reaches_all_others(registry, sender, targets);
    lemma_failed_names(targets, wrote);
    crate::table::lemma_without_all(registry, failed);
    assert forall|i: int| 0 <= i < targets.len() implies (holds(after, (#[trigger] targets[i]).0)
        <==> !write_failed(wrote, i)) by {
        let name = targets[i].0;
        assert(holds(targets, name));
        if failed.contains(name) {
            let j = choose|j: int|
                0 <= j < targets.len() && (#[trigger] targets[j]).0 == name && write_failed(
                    wrote,
                    j,
                );
            if i < j {
                assert(targets[i].0 != targets[j].0);
            } else if j < i {
                assert(targets[j].0 != targets[i].0);
            }
        }
    }
    assert forall|i: int| 0 <= i < targets.len() && !write_failed(wrote, i) implies
        crate::table::as_map(after)[(#[trigger] targets[i]).0] == crate::table::as_map(
        registry,
    )[targets[i].0] by {
        let name = targets[i].0;
        assert(holds(after, name));
        assert(crate::table::as_map(after).contains_key(name));
    }
    if holds(registry, sender) {
        if failed.contains(sender) {
            let j = choose|j: int|
                0 <= j < targets.len() && (#[trigger] targets[j]).0 == sender && write_failed(
                    wrote,
                    j,
                );
            assert(holds(targets, sender));
        }
        assert(holds(after, sender));
        assert(crate::table::as_map(after).contains_key(sender));
    }
}

/// An identity that has left the registry is not written to by a later
/// broadcast and is not brought back by an eviction.
pub proof fn lemma_departed_peer_stays_away<H>(
    registry: Seq<(Seq<char>, H)>,
    gone: Seq<char>,
    sender: Seq<char>,
    failed: Seq<Seq<char>>,
)
    requires
        distinct_names(registry),
    ensures
        !holds(without(registry, gone), gone),
        !holds(without(without(registry, gone), sender), gone),
        !holds(without_all(without(registry, gone), failed), gone),
{
    let rest = without(registry, gone);
    crate::table::lemma_without(registry, gone);
    crate::table::lemma_without(rest, sender);
    crate::table::lemma_without_all(rest, failed);
    assert(crate::table::as_map(without(rest, sender)).contains_key(gone) == holds(
        without(rest, sender),
        gone,
    ));
    assert(crate::table::as_map(rest).contains_key(gone) == holds(rest, gone));
}

/// The third step of a broadcast: the identities of the targets whose
/// write failed. `wrote` says of each target, in order, whether the write
/// to it succeeded.
pub fn collect_failed<H>(targets: &Vec<(String, H)>, wrote: &Vec<bool>) -> (failed: Vec<String>)
    ensures
        texts(failed@) == failed_names(listing(targets@), wrote@),
{
    let n: usize = targets.len();
    let mut failed: Vec<String> = Vec::new();
    let mut i: usize = 0;
    proof {
        assert(texts(failed@) =~= failed_names(listing(targets@).take(0), wrote@));
    }
    while i < n
        invariant
            n == targets.len(),
            i <= n,
            texts(failed@) == failed_names(listing(targets@).take(i as int), wrote@),
        decreases n - i,
    {
        let ghost done = listing(targets@).take(i as int);
        let ghost next = listing(targets@).take(i + 1);
        proof {
            assert(next.drop_last() =~= done);
            assert(next.last().0 == targets@[i as int].0@);
        }
        if !(i < wrote.len() && wrote[i]) {
            let ghost before = failed@;
            failed.push(targets[i].0.clone());
            proof {
                assert(texts(failed@) =~= texts(before).push(targets@[i as int].0@));
            }
        }
        i += 1;
    }
    proof {
        assert(listing(targets@).take(n as int) =~= listing(targets@));
    }
    failed
}

} // verus!
