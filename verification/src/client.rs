//! The client's side of the key exchange and of the encrypted frames.
//!
//! A client offers its public key, takes the session key out of the relay's
//! answer, and from then on seals what it sends and opens what it receives.
//! Before it has the session key it sends and shows plain text.

use vstd::prelude::*;
use vstd::utf8::encode_utf8;
use rsa::{RsaPrivateKey, RsaPublicKey};
use crate::codec::{
    chat_line,
    encrypted_frame_of,
    encrypted_line,
    format_chat_line,
    format_encrypted_line,
    format_key_offer,
    key_offer_line,
    key_reply_of,
    parse_encrypted_frame,
    parse_key_reply,
};
use crate::crypto::{
    generate_key_pair,
    modulus_bits,
    modulus_size,
    open,
    opened,
    pem_text,
    public_half,
    public_key_pem,
    public_of,
    random_bytes,
    seal,
    sealed,
    unwrap_secret,
    unwrapped,
    CLIENT_KEY_BITS,
    MAX_KEY_BITS,
    MIN_KEY_BITS,
    NONCE_LEN,
    SESSION_KEY_LEN,
};
use crate::text::{trim, trimmed};

verus! {

/// What a client makes of a line from the relay.
#[derive(Debug)]
pub enum Incoming {
    /// A line to show as it is, without the whitespace around it.
    Text(String),
    /// The bytes that an encrypted frame held.
    Plaintext(Vec<u8>),
}

/// What a client shows for `line` while it holds `session_key`: the opened
/// bytes of an encrypted frame that the key opens, and the line itself,
/// without the whitespace around it, in every other case.
pub open spec fn shown(session_key: Option<Seq<u8>>, line: Seq<char>) -> Either {
    match (session_key, encrypted_frame_of(line)) {
        (Some(key), Some((nonce, ciphertext))) => if nonce.len() == NONCE_LEN {
            match opened(key, nonce, ciphertext) {
                Some(plaintext) => Either::Bytes(plaintext),
                None => Either::Chars(trim(line)),
            }
        } else {
            Either::Chars(trim(line))
        },
        _ => Either::Chars(trim(line)),
    }
}

/// What a client shows: text or bytes.
pub enum Either {
    /// Text.
    Chars(Seq<char>),
    /// Bytes.
    Bytes(Seq<u8>),
}

/// What a client sends for the message `msg`. With a session key it is the
/// encrypted frame of the message's UTF-8 bytes under `nonce`, or nothing
/// where the nonce has the wrong length or the cipher refuses the message.
/// Without one it is the message as chat text, with the client's name in
/// front.
pub open spec fn composed(
    session_key: Option<Seq<u8>>,
    username: Seq<char>,
    msg: Seq<char>,
    nonce: Seq<u8>,
) -> Option<Seq<char>> {
    match session_key {
        Some(key) => if nonce.len() == NONCE_LEN {
            match sealed(key, nonce, encode_utf8(msg)) {
                Some(ciphertext) => Some(encrypted_line(nonce, ciphertext)),
                None => None,
            }
        } else {
            None
        },
        None => Some(chat_line(username, msg)),
    }
}

/// The session key of a client that held `current` and has unwrapped a key
/// reply: what came out becomes the session key if it has thirty-two bytes,
/// and anything else leaves the client with the key it held.
pub open spec fn accepted(current: Option<Seq<u8>>, unwrapped: Option<Seq<u8>>) -> Option<
    Seq<u8>,
> {
    match unwrapped {
        Some(key) => if key.len() == SESSION_KEY_LEN {
            Some(key)
        } else {
            current
        },
        None => current,
    }
}

/// A client's key pair, and the session key once the relay has sent it.
pub struct ClientKeys {
    priv_key: RsaPrivateKey,
    pub_key: RsaPublicKey,
    aes_key: Option<Vec<u8>>,
}

impl ClientKeys {
    /// The session key, if the client has one.
    pub closed spec fn session_key(&self) -> Option<Seq<u8>> {
        match self.aes_key {
            Some(key) => Some(key@),
            None => None,
        }
    }

    /// The public key is the public half of the key pair, and a session key
    /// that the client holds has thirty-two bytes.
    pub open spec fn wf(&self) -> bool {
        &&& self.public_key() == public_of(self.private_key())
        &&& self.session_key() matches Some(key) ==> key.len() == SESSION_KEY_LEN
    }

    /// A client that holds the key pair `key`, with its public half, and no
    /// session key.
    pub fn with_private_key(key: RsaPrivateKey) -> (r: Self)
        ensures
            r.wf(),
            r.private_key() == key,
            r.public_key() == public_of(key),
            r.session_key() is None,
    {
        let pub_key = public_half(&key);
        ClientKeys { priv_key: key, pub_key, aes_key: None }
    }

    /// A client with a fresh key pair of `bits` bits and no session key. Sizes
    /// below `MIN_KEY_BITS` or above `MAX_KEY_BITS` give `None`, and so does a
    /// failed generation.
    pub fn generate(bits: usize) -> (r: Option<Self>)
        ensures
            bits < MIN_KEY_BITS || bits > MAX_KEY_BITS ==> r is None,
            r matches Some(keys) ==> {
                &&& keys.wf()
                &&& modulus_bits(keys.public_key()) == bits
                &&& keys.session_key() is None
            },
    {
        if bits < MIN_KEY_BITS || bits > MAX_KEY_BITS {
            return None;
        }
        let generated = generate_key_pair(bits);
        Self::from_generated(generated)
    }

    /// A client with a fresh key pair of `CLIENT_KEY_BITS` bits and no
    /// session key. The result is `None` where no key pair could be
    /// generated.
    pub fn new() -> (r: Option<Self>)
        ensures
            r matches Some(keys) ==> {
                &&& keys.wf()
                &&& modulus_bits(keys.public_key()) == CLIENT_KEY_BITS
                &&& keys.session_key() is None
            },
    {
        Self::generate(CLIENT_KEY_BITS)
    }

    /// The number of bits of the modulus of the client's key pair.
    pub fn key_bits(&self) -> (bits: usize)
        ensures
            bits == modulus_bits(self.public_key()),
    {
        modulus_size(&self.pub_key)
    }

    /// Whether the client has the session key.
    pub fn has_session_key(&self) -> (b: bool)
        ensures
            b == self.session_key() is Some,
    {
        self.aes_key.is_some()
    }

    /// The session key, if the client has one.
    pub fn session_key_bytes(&self) -> (r: Option<&Vec<u8>>)
        ensures
            match r {
                Some(key) => self.session_key() == Some(key@),
                None => self.session_key() is None,
            },
    {
        self.aes_key.as_ref()
    }

    /// The key offer that introduces the client as `username`: it carries
    /// the PEM text of the client's public key, without the whitespace
    /// around it, so that the offer does not end with a line feed. The
    /// result is `None` where the public key cannot be written as PEM text.
    pub fn key_offer(&self, username: &str) -> (r: Option<String>)
        ensures
            match pem_text(self.public_key()) {
                Some(pem) => r matches Some(line) && line@ == key_offer_line(username@, trim(pem)),
                None => r is None,
            },
    {
        let written = public_key_pem(&self.pub_key);
        offer_from_pem(username, written)
    }

    /// The key pair that the client holds.
    pub closed spec fn private_key(&self) -> RsaPrivateKey {
        self.priv_key
    }

    /// The public key that the client offers.
    pub closed spec fn public_key(&self) -> RsaPublicKey {
        self.pub_key
    }

    /// Takes what generating a key pair gave: a key pair makes a client that
    /// holds it, with its public half, and no session key; a failure makes
    /// none.
    pub fn from_generated(generated: Result<RsaPrivateKey, rsa::Error>) -> (r: Option<Self>)
        ensures
            match generated {
                Ok(key) => {
                    &&& r matches Some(keys)
                    &&& keys.wf()
                    &&& keys.private_key() == key
                    &&& keys.public_key() == public_of(key)
                    &&& keys.session_key() is None
                },
                Err(_) => r is None,
            },
    {
        match generated {
            Ok(key) => Some(Self::with_private_key(key)),
            Err(_) => None,
        }
    }

    /// Takes what unwrapping the relay's answer gave. A key of thirty-two
    /// bytes becomes the session key; anything else leaves the client as
    /// it is.
    pub fn accept_key(&mut self, unwrapped: Option<Vec<u8>>)
        requires
            old(self).wf(),
        ensures
            final(self).wf(),
            final(self).private_key() == old(self).private_key(),
            final(self).public_key() == old(self).public_key(),
            final(self).session_key() == accepted(
                old(self).session_key(),
                match unwrapped {
                    Some(key) => Some(key@),
                    None => None,
                },
            ),
    {
        match unwrapped {
            Some(key) => {
                if key.len() == SESSION_KEY_LEN {
                    self.aes_key = Some(key);
                }
            },
            None => {},
        }
    }

    /// Takes a line from the relay.
    ///
    /// The relay's answer to the key offer is unwrapped with the private
    /// key, and what comes out is taken as `accept_key` says; the line
    /// itself is shown. Every other line leaves the client as it is, and is
    /// shown as `shown` says.
    pub fn receive(&mut self, line: &str) -> (r: Incoming)
        requires
            old(self).wf(),
        ensures
            final(self).wf(),
            final(self).private_key() == old(self).private_key(),
            final(self).public_key() == old(self).public_key(),
            match key_reply_of(line@) {
                Some(wrapped) => {
                    &&& r matches Incoming::Text(text)
                    &&& text@ == trim(line@)
                    &&& final(self).session_key() == accepted(
                        old(self).session_key(),
                        unwrapped(old(self).private_key(), wrapped),
                    )
                },
                None => {
                    &&& final(self).session_key() == old(self).session_key()
                    &&& match r {
                        Incoming::Text(text) => shown(old(self).session_key(), line@)
                            == Either::Chars(text@),
                        Incoming::Plaintext(bytes) => shown(old(self).session_key(), line@)
                            == Either::Bytes(bytes@),
                    }
                },
            },
    {
        match parse_key_reply(line) {
            Some(wrapped) => {
                let unwrapped = match unwrap_secret(&self.priv_key, wrapped.as_slice()) {
                    Ok(key) => Some(key),
                    Err(_) => None,
                };
                self.accept_key(unwrapped);
                Incoming::Text(trimmed(line))
            },
            None => match parse_encrypted_frame(line) {
                Some((nonce, ciphertext)) => match &self.aes_key {
                    Some(key) => {
                        if nonce.len() == NONCE_LEN {
                            match open(key.as_slice(), nonce.as_slice(), ciphertext.as_slice()) {
                                Ok(plaintext) => Incoming::Plaintext(plaintext),
                                Err(_) => Incoming::Text(trimmed(line)),
                            }
                        } else {
                            Incoming::Text(trimmed(line))
                        }
                    },
                    None => Incoming::Text(trimmed(line)),
                },
                None => Incoming::Text(trimmed(line)),
            },
        }
    }

    /// The line that carries `msg` to the relay, sealed under `nonce` where
    /// the client has the session key.
    pub fn compose_with_nonce(&self, username: &str, msg: &str, nonce: &[u8]) -> (r: Option<
        String,
    >)
        requires
            self.wf(),
        ensures
            match r {
                Some(line) => composed(self.session_key(), username@, msg@, nonce@) == Some(
                    line@,
                ),
                None => composed(self.session_key(), username@, msg@, nonce@) is None,
            },
    {
        match &self.aes_key {
            Some(key) => {
                if nonce.len() != NONCE_LEN {
                    return None;
                }
                match seal(key.as_slice(), nonce, msg.as_bytes()) {
                    Ok(ciphertext) => Some(format_encrypted_line(nonce, ciphertext.as_slice())),
                    Err(_) => None,
                }
            },
            None => Some(format_chat_line(username, msg)),
        }
    }

    /// The line that carries `msg` to the relay. With the session key it is
    /// an encrypted frame under a fresh random nonce; `None` says that no
    /// nonce could be drawn or that the cipher refused the message.
    /// Without the session key it is the message as chat text.
    pub fn compose(&self, username: &str, msg: &str) -> (r: Option<String>)
        requires
            self.wf(),
        ensures
            match self.session_key() {
                Some(key) => r matches Some(line) ==> exists|nonce: Seq<u8>|
                    #![trigger composed(self.session_key(), username@, msg@, nonce)]
                    nonce.len() == NONCE_LEN && composed(
                        self.session_key(),
                        username@,
                        msg@,
                        nonce,
                    ) == Some(line@),
                None => r matches Some(line) && line@ == chat_line(username@, msg@),
            },
    {
        if self.aes_key.is_none() {
            return Some(format_chat_line(username, msg));
        }
        match random_bytes(NONCE_LEN) {
            Ok(nonce) => {
                let r = self.compose_with_nonce(username, msg, nonce.as_slice());
                proof {
                    if r is Some {
                        assert(composed(self.session_key(), username@, msg@, nonce@) == Some(
                            r->0@,
                        ));
                    }
                }
                r
            },
            Err(_) => None,
        }
    }
}

/// Takes what writing a public key as PEM text gave. PEM text makes the key
/// offer of `username` that carries it, without the whitespace around it, so
/// that the offer does not end with a line feed; a failure makes no offer.
pub fn offer_from_pem(username: &str, written: Result<String, rsa::pkcs1::Error>) -> (r: Option<
    String,
>)
    ensures
        match written {
            Ok(pem) => r matches Some(line) && line@ == key_offer_line(username@, trim(pem@)),
            Err(_) => r is None,
        },
{
    match written {
        Ok(pem) => {
            let text = trimmed(pem.as_str());
            Some(format_key_offer(username, text.as_str()))
        },
        Err(_) => None,
    }
}

} // verus!
