//! The life of one connection, from its first line to its end.
//!
//! A plaintext client goes `New`, `Identified`, `Active`; a client that
//! offers a key goes `New`, `KeyOffered`, `KeyDelivered`, `Active`, or falls
//! back to `Identified` where its key cannot be used. From `Active` a
//! connection can only go to `Disconnected`.

use vstd::prelude::*;
use crate::codec::{
    chat_line,
    format_chat_line,
    format_key_reply,
    has_encrypted_prefix,
    is_encrypted_frame,
    key_offer_of,
    key_reply_line,
    parse_key_offer,
    parse_username,
    strip_newline,
    username_of,
    without_newline,
};
use crate::text::{trim, trimmed};

verus! {

/// Where a connection stands in the protocol.
#[derive(Clone, Copy, Debug, PartialEq, Eq, Structural)]
pub enum Phase {
    /// Accepted; its first line has not been read.
    New,
    /// Known by an identity, as a plaintext client.
    Identified,
    /// Has offered a public key; the session key has not been sent.
    KeyOffered,
    /// The wrapped session key is on its way to the client.
    KeyDelivered,
    /// Registered; its lines are relayed.
    Active,
    /// Gone.
    Disconnected,
}

/// Whether the protocol lets a connection go from `from` to `to` in one
/// step.
pub open spec fn may_follow(from: Phase, to: Phase) -> bool {
    match (from, to) {
        (Phase::New, Phase::Identified) => true,
        (Phase::New, Phase::KeyOffered) => true,
        (Phase::KeyOffered, Phase::KeyDelivered) => true,
        (Phase::KeyOffered, Phase::Identified) => true,
        (Phase::Identified, Phase::Active) => true,
        (Phase::KeyDelivered, Phase::Active) => true,
        (Phase::Active, Phase::Disconnected) => true,
        _ => false,
    }
}

/// How far a phase is from the start of a connection.
pub open spec fn progress(phase: Phase) -> nat {
    match phase {
        Phase::New => 0,
        Phase::KeyOffered => 1,
        Phase::Identified => 2,
        Phase::KeyDelivered => 2,
        Phase::Active => 3,
        Phase::Disconnected => 4,
    }
}

/// Every step takes a connection forward: it never comes back to a phase
/// that it has left. From `Active` the only step is to `Disconnected`, and
/// from `Disconnected` there is none.
pub proof fn lemma_phases_only_advance(from: Phase, to: Phase)
    requires
        may_follow(from, to),
    ensures
        progress(from) < progress(to),
        from == Phase::Active ==> to == Phase::Disconnected,
        from != Phase::Disconnected,
        to == Phase::Active ==> from == Phase::Identified || from == Phase::KeyDelivered,
{
}

/// What a connection's first line makes of it.
#[derive(Debug)]
pub enum Introduction {
    /// A plaintext introduction: the client goes by the identity it gave.
    Plain,
    /// A key offer: the client goes by the identity it gave, and this is
    /// the PEM text of its public key.
    KeyOffer(String),
    /// Neither: the client goes by its peer address.
    Malformed,
}

/// What the relay does with a line of an active connection.
#[derive(Debug)]
pub enum RelayStep {
    /// Send this line to every other peer.
    Forward(String),
    /// The connection ends: the line was empty, or there was no line.
    Disconnect,
}

/// What reading from a connection gave.
#[derive(Debug)]
pub enum ReadEvent {
    /// A line, as it was read.
    Line(String),
    /// The peer has closed the stream.
    EndOfStream,
    /// Reading failed.
    ReadError,
}

/// One connection, as the protocol sees it.
pub struct Session {
    phase: Phase,
    identity: String,
}

impl Session {
    /// Where the connection stands.
    pub closed spec fn phase(&self) -> Phase {
        self.phase
    }

    /// The identity that the connection goes by.
    pub closed spec fn identity(&self) -> Seq<char> {
        self.identity@
    }

    /// A connection that has just been accepted from `peer`. Until it
    /// introduces itself it goes by its peer address.
    pub fn new(peer: &str) -> (s: Self)
        ensures
            s.phase() == Phase::New,
            s.identity() == peer@,
    {
        Session { phase: Phase::New, identity: peer.to_owned() }
    }

    /// Where the connection stands.
    pub fn current_phase(&self) -> (p: Phase)
        ensures
            p == self.phase(),
    {
        self.phase
    }

    /// The identity that the connection goes by.
    pub fn name(&self) -> (r: &String)
        ensures
            r@ == self.identity(),
    {
        &self.identity
    }

    /// Reads the connection's first line. A plaintext introduction or a key
    /// offer gives the connection its identity; after any other line it
    /// keeps its peer address and goes on as a plaintext client.
    pub fn introduce(&mut self, first_line: &str) -> (r: Introduction)
        requires
            old(self).phase() == Phase::New,
        ensures
            may_follow(old(self).phase(), final(self).phase()),
            match username_of(first_line@) {
                Some(name) => {
                    &&& r is Plain
                    &&& final(self).phase() == Phase::Identified
                    &&& final(self).identity() == name
                },
                None => match key_offer_of(first_line@) {
                    Some((name, pem)) => {
                        &&& r matches Introduction::KeyOffer(text)
                        &&& text@ == pem
                        &&& final(self).phase() == Phase::KeyOffered
                        &&& final(self).identity() == name
                    },
                    None => {
                        &&& r is Malformed
                        &&& final(self).phase() == Phase::Identified
                        &&& final(self).identity() == old(self).identity()
                    },
                },
            },
    {
        match parse_username(first_line) {
            Some(name) => {
                self.identity = name;
                self.phase = Phase::Identified;
                Introduction::Plain
            },
            None => match parse_key_offer(first_line) {
                Some((name, pem)) => {
                    self.identity = name;
                    self.phase = Phase::KeyOffered;
                    Introduction::KeyOffer(pem)
                },
                None => {
                    self.phase = Phase::Identified;
                    Introduction::Malformed
                },
            },
        }
    }

    /// Settles a key offer. With the session key wrapped under the client's
    /// key, the result is the line that carries it to the client; without
    /// it the client goes on as a plaintext client and is sent nothing.
    pub fn deliver(&mut self, wrapped: Option<Vec<u8>>) -> (reply: Option<String>)
        requires
            old(self).phase() == Phase::KeyOffered,
        ensures
            may_follow(old(self).phase(), final(self).phase()),
            final(self).identity() == old(self).identity(),
            match wrapped {
                Some(bytes) => {
                    &&& final(self).phase() == Phase::KeyDelivered
                    &&& reply matches Some(line)
                    &&& line@ == key_reply_line(bytes@)
                },
                None => final(self).phase() == Phase::Identified && reply is None,
            },
    {
        match wrapped {
            Some(bytes) => {
                self.phase = Phase::KeyDelivered;
                Some(format_key_reply(bytes.as_slice()))
            },
            None => {
                self.phase = Phase::Identified;
                None
            },
        }
    }

    /// Marks the connection as registered: from now on its lines are
    /// relayed.
    pub fn activate(&mut self)
        requires
            old(self).phase() == Phase::Identified || old(self).phase() == Phase::KeyDelivered,
        ensures
            may_follow(old(self).phase(), final(self).phase()),
            final(self).phase() == Phase::Active,
            final(self).identity() == old(self).identity(),
    {
        self.phase = Phase::Active;
    }

    /// Takes a line that the connection has sent. An encrypted frame is
    /// passed on as it came, without the line feed that ends it. A line
    /// that is empty but for whitespace ends the connection. Any other line
    /// is chat text, passed on without the whitespace around it and with
    /// the sender's identity in front.
    pub fn receive(&mut self, line: &str) -> (step: RelayStep)
        requires
            old(self).phase() == Phase::Active,
        ensures
            final(self).identity() == old(self).identity(),
            final(self).phase() == old(self).phase() || may_follow(
                old(self).phase(),
                final(self).phase(),
            ),
            match step {
                RelayStep::Forward(payload) => {
                    &&& final(self).phase() == Phase::Active
                    &&& relayed(old(self).identity(), line@) == Some(payload@)
                },
                RelayStep::Disconnect => {
                    &&& final(self).phase() == Phase::Disconnected
                    &&& relayed(old(self).identity(), line@) is None
                },
            },
    {
        if has_encrypted_prefix(line) {
            RelayStep::Forward(strip_newline(line))
        } else {
            let text = trimmed(line);
            if text.as_str().unicode_len() == 0 {
                self.phase = Phase::Disconnected;
                RelayStep::Disconnect
            } else {
                RelayStep::Forward(format_chat_line(self.identity.as_str(), text.as_str()))
            }
        }
    }

    /// Takes what reading from the connection gave. A line is handled as
    /// `receive` says; the end of the stream and a failed read end the
    /// connection.
    pub fn step(&mut self, event: &ReadEvent) -> (step: RelayStep)
        requires
            old(self).phase() == Phase::Active,
        ensures
            final(self).identity() == old(self).identity(),
            match step {
                RelayStep::Forward(payload) => {
                    &&& final(self).phase() == Phase::Active
                    &&& after_read(old(self).identity(), *event) == Some(payload@)
                },
                RelayStep::Disconnect => {
                    &&& final(self).phase() == Phase::Disconnected
                    &&& after_read(old(self).identity(), *event) is None
                },
            },
    {
        match event {
            ReadEvent::Line(line) => self.receive(line.as_str()),
            ReadEvent::EndOfStream => {
                self.close();
                RelayStep::Disconnect
            },
            ReadEvent::ReadError => {
                self.close();
                RelayStep::Disconnect
            },
        }
    }

    /// Ends the connection: its stream has closed or failed.
    pub fn close(&mut self)
        requires
            old(self).phase() == Phase::Active,
        ensures
            may_follow(old(self).phase(), final(self).phase()),
            final(self).phase() == Phase::Disconnected,
            final(self).identity() == old(self).identity(),
    {
        self.phase = Phase::Disconnected;
    }
}

/// What the relay sends on for a line from `identity`, or `None` where the
/// line ends the connection.
pub open spec fn relayed(identity: Seq<char>, line: Seq<char>) -> Option<Seq<char>> {
    if is_encrypted_frame(line) {
        Some(without_newline(line))
    } else if trim(line).len() == 0 {
        None
    } else {
        Some(chat_line(identity, trim(line)))
    }
}

/// What the relay sends on after a read from the connection of `identity`,
/// or `None` where the read ends the connection.
pub open spec fn after_read(identity: Seq<char>, event: ReadEvent) -> Option<Seq<char>> {
    match event {
        ReadEvent::Line(line) => relayed(identity, line@),
        ReadEvent::EndOfStream => None,
        ReadEvent::ReadError => None,
    }
}

/// An encrypted frame is relayed as it was sent: whoever sends it, the relay
/// passes on the received line without the line feed that ended it, so that
/// the line it writes, ended by a line feed again, is the line it read.
pub proof fn lemma_encrypted_frame_is_relayed_verbatim(
    identity: Seq<char>,
    other: Seq<char>,
    line: Seq<char>,
)
    requires
        is_encrypted_frame(line),
    ensures
        relayed(identity, line) == Some(without_newline(line)),
        relayed(identity, line) == relayed(other, line),
        line.len() > 0 && line.last() == '\n' ==> relayed(identity, line)->0 + seq!['\n']
            == line,
        is_encrypted_frame(relayed(identity, line)->0),
{
    crate::codec::lemma_encrypted_frame_passes_unchanged(line);
}

/// Chat text is relayed with the sender's identity in front, and a line
/// that holds only whitespace is not relayed at all.
pub proof fn lemma_chat_text_is_relayed_with_identity(identity: Seq<char>, line: Seq<char>)
    requires
        !is_encrypted_frame(line),
    ensures
        trim(line).len() == 0 ==> relayed(identity, line) is None,
        trim(line).len() > 0 ==> relayed(identity, line) == Some(
            chat_line(identity, trim(line)),
        ),
{
}

} // verus!
