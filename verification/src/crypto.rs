//! The cryptographic operations of the key exchange and of the encrypted
//! frames, as the `rsa`, `aes-gcm` and `rand` crates provide them.
//!
//! Nothing in this module is proved: each function states what its crate
//! documents of the call, and the rest of the library is proved against
//! these statements.

use vstd::prelude::*;
use aes_gcm::aead::generic_array::GenericArray;
use aes_gcm::aead::Aead;
use aes_gcm::{Aes256Gcm, KeyInit};
use rand::rngs::OsRng;
use rand::RngCore;
use rsa::pkcs1::{DecodeRsaPublicKey, EncodeRsaPublicKey, LineEnding};
use rsa::traits::PublicKeyParts;
use rsa::{Pkcs1v15Encrypt, RsaPrivateKey, RsaPublicKey};

verus! {

/// The length of the session key, in bytes.
pub const SESSION_KEY_LEN: usize = 32;

/// The length of the nonce of an encrypted frame, in bytes.
pub const NONCE_LEN: usize = 12;

/// The size of the key pair that a client generates, in bits.
pub const CLIENT_KEY_BITS: usize = 2048;

/// The smallest key pair that a client generates, in bits.
pub const MIN_KEY_BITS: usize = 512;

/// The largest key pair that a client generates, in bits, which is the
/// largest that a relay reads.
pub const MAX_KEY_BITS: usize = 4096;

/// What PKCS#1 v1.5 padding adds to a message, at the least, in bytes.
pub const WRAP_OVERHEAD: usize = 11;

/// An RSA public key of the `rsa` crate.
#[verifier::external_type_specification]
#[verifier::external_body]
pub struct ExRsaPublicKey(rsa::RsaPublicKey);

/// An RSA key pair of the `rsa` crate.
#[verifier::external_type_specification]
#[verifier::external_body]
pub struct ExRsaPrivateKey(rsa::RsaPrivateKey);

/// The error of the `rsa` crate's operations.
#[verifier::external_type_specification]
#[verifier::external_body]
pub struct ExRsaError(rsa::Error);

/// The error of the `pkcs1` crate's encoders and decoders.
#[verifier::external_type_specification]
#[verifier::external_body]
pub struct ExPkcs1Error(rsa::pkcs1::Error);

/// The error of the `aes-gcm` crate's operations.
#[verifier::external_type_specification]
#[verifier::external_body]
pub struct ExAeadError(aes_gcm::Error);

/// The error of a random number generator of the `rand` crate.
#[verifier::external_type_specification]
#[verifier::external_body]
pub struct ExRandError(rand::Error);

/// The key that `RsaPublicKey::from_pkcs1_pem` reads from `pem`, or `None`
/// where it does not accept the text as a PEM-encoded PKCS#1 public key.
pub uninterp spec fn parsed_key(pem: Seq<char>) -> Option<rsa::RsaPublicKey>;

/// The PEM text that `RsaPublicKey::to_pkcs1_pem` writes for `key`, with
/// line feeds as line endings, or `None` where it cannot write the key.
pub uninterp spec fn pem_text(key: rsa::RsaPublicKey) -> Option<Seq<char>>;

/// The public half of a key pair, as `RsaPrivateKey::to_public_key` gives it.
pub uninterp spec fn public_of(key: rsa::RsaPrivateKey) -> rsa::RsaPublicKey;

/// The number of bits of a key's modulus.
pub uninterp spec fn modulus_bits(key: rsa::RsaPublicKey) -> nat;

/// Whether `wrapped` is one of the ciphertexts that `RsaPublicKey::encrypt`
/// can give for `secret` under `key`, with PKCS#1 v1.5 padding. The padding
/// is random, so a secret has many.
pub uninterp spec fn wraps(key: rsa::RsaPublicKey, secret: Seq<u8>, wrapped: Seq<u8>) -> bool;

/// What `RsaPrivateKey::decrypt` gives for `wrapped` under `key`, with
/// PKCS#1 v1.5 padding: the message, or `None` where it refuses the
/// ciphertext.
pub uninterp spec fn unwrapped(key: rsa::RsaPrivateKey, wrapped: Seq<u8>) -> Option<Seq<u8>>;

/// What AES-256-GCM encryption of `plaintext` under `key` and `nonce` gives,
/// with no associated data: the ciphertext with its tag, or `None` where
/// the cipher refuses the message.
pub uninterp spec fn sealed(key: Seq<u8>, nonce: Seq<u8>, plaintext: Seq<u8>) -> Option<Seq<u8>>;

/// What AES-256-GCM decryption of `ciphertext` under `key` and `nonce`
/// gives, with no associated data: the plaintext, or `None` where the tag
/// does not match.
pub uninterp spec fn opened(key: Seq<u8>, nonce: Seq<u8>, ciphertext: Seq<u8>) -> Option<Seq<u8>>;

/// Calls `OsRng.try_fill_bytes` on a buffer of `len` bytes. Of the bytes
/// only their number is known.
#[verifier::external_body]
pub(crate) fn random_bytes(len: usize) -> (r: Result<Vec<u8>, rand::Error>)
    ensures
        r matches Ok(bytes) ==> bytes@.len() == len,
{
    let mut bytes = vec![0u8; len];
    match OsRng.try_fill_bytes(&mut bytes) {
        Ok(()) => Ok(bytes),
        Err(e) => Err(e),
    }
}

/// Calls `RsaPublicKey::from_pkcs1_pem`, which parses a PEM-encoded PKCS#1
/// public key. The result depends on the text alone.
#[verifier::external_body]
pub(crate) fn parse_public_key(pem: &str) -> (r: Result<RsaPublicKey, rsa::pkcs1::Error>)
    ensures
        match r {
            Ok(key) => parsed_key(pem@) == Some(key),
            Err(_) => parsed_key(pem@) is None,
        },
{
    RsaPublicKey::from_pkcs1_pem(pem)
}

/// Calls `RsaPublicKey::encrypt` with PKCS#1 v1.5 padding and the operating
/// system's random number generator. The padding is random, so two calls
/// differ: of a ciphertext it is known that it is one that the call can
/// give for this key and this message, and that it is as long as the key's
/// modulus, which the call requires to exceed the message by the padding's
/// eleven bytes. The generator stops the thread where the operating system
/// gives it no random bytes.
#[verifier::external_body]
pub(crate) fn wrap_secret(key: &RsaPublicKey, secret: &[u8]) -> (r: Result<Vec<u8>, rsa::Error>)
    ensures
        r matches Ok(wrapped) ==> wraps(*key, secret@, wrapped@) && wrapped@.len() >= secret@.len()
            + WRAP_OVERHEAD,
{
    key.encrypt(&mut OsRng, Pkcs1v15Encrypt, secret)
}

/// Calls `RsaPrivateKey::decrypt` with PKCS#1 v1.5 padding and no blinding.
/// The result depends on the key and the ciphertext alone.
#[verifier::external_body]
pub(crate) fn unwrap_secret(key: &RsaPrivateKey, wrapped: &[u8]) -> (r: Result<
    Vec<u8>,
    rsa::Error,
>)
    ensures
        match r {
            Ok(secret) => unwrapped(*key, wrapped@) == Some(secret@),
            Err(_) => unwrapped(*key, wrapped@) is None,
        },
{
    key.decrypt(Pkcs1v15Encrypt, wrapped)
}

/// Calls `RsaPrivateKey::new` with the operating system's random number
/// generator, which generates a key pair of `bits` bits. Of the key only
/// the size of its modulus is known, which the call makes sure of; the
/// sizes are kept to those that a relay accepts and that can wrap a session
/// key.
#[verifier::external_body]
pub(crate) fn generate_key_pair(bits: usize) -> (r: Result<RsaPrivateKey, rsa::Error>)
    requires
        MIN_KEY_BITS <= bits <= MAX_KEY_BITS,
    ensures
        r matches Ok(key) ==> modulus_bits(public_of(key)) == bits,
{
    RsaPrivateKey::new(&mut OsRng, bits)
}

/// Calls `RsaPrivateKey::to_public_key`, which copies the public half of a
/// key pair.
#[verifier::external_body]
pub(crate) fn public_half(key: &RsaPrivateKey) -> (r: RsaPublicKey)
    ensures
        r == public_of(*key),
{
    key.to_public_key()
}

/// Calls `BigUint::bits` on the modulus of `key`, which counts its bits.
#[verifier::external_body]
pub(crate) fn modulus_size(key: &RsaPublicKey) -> (r: usize)
    ensures
        r == modulus_bits(*key),
{
    key.n().bits()
}

/// Calls `RsaPublicKey::to_pkcs1_pem` with line feeds as line endings, which
/// writes the key as PEM-encoded PKCS#1. The result depends on the key
/// alone.
#[verifier::external_body]
pub(crate) fn public_key_pem(key: &RsaPublicKey) -> (r: Result<String, rsa::pkcs1::Error>)
    ensures
        match r {
            Ok(text) => pem_text(*key) == Some(text@),
            Err(_) => pem_text(*key) is None,
        },
{
    key.to_pkcs1_pem(LineEnding::LF)
}

/// Calls `Aes256Gcm::encrypt` under `key` and `nonce`, with no associated
/// data. The result depends on the three arguments alone.
#[verifier::external_body]
pub(crate) fn seal(key: &[u8], nonce: &[u8], plaintext: &[u8]) -> (r: Result<
    Vec<u8>,
    aes_gcm::Error,
>)
    requires
        key@.len() == SESSION_KEY_LEN,
        nonce@.len() == NONCE_LEN,
    ensures
        match r {
            Ok(ciphertext) => sealed(key@, nonce@, plaintext@) == Some(ciphertext@),
            Err(_) => sealed(key@, nonce@, plaintext@) is None,
        },
{
    let cipher = Aes256Gcm::new(GenericArray::from_slice(key));
    cipher.encrypt(GenericArray::from_slice(nonce), plaintext)
}

/// Calls `Aes256Gcm::decrypt` under `key` and `nonce`, with no associated
/// data. The result depends on the three arguments alone.
#[verifier::external_body]
pub(crate) fn open(key: &[u8], nonce: &[u8], ciphertext: &[u8]) -> (r: Result<
    Vec<u8>,
    aes_gcm::Error,
>)
    requires
        key@.len() == SESSION_KEY_LEN,
        nonce@.len() == NONCE_LEN,
    ensures
        match r {
            Ok(plaintext) => opened(key@, nonce@, ciphertext@) == Some(plaintext@),
            Err(_) => opened(key@, nonce@, ciphertext@) is None,
        },
{
    let cipher = Aes256Gcm::new(GenericArray::from_slice(key));
    cipher.decrypt(GenericArray::from_slice(nonce), ciphertext)
}

} // verus!
