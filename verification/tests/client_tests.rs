use chat_relay::client::{offer_from_pem, ClientKeys, Incoming};
use chat_relay::codec::{format_key_reply, parse_encrypted_frame, parse_key_offer};
use rand::rngs::OsRng;
use rsa::pkcs1::DecodeRsaPublicKey;
use rsa::{Pkcs1v15Encrypt, RsaPrivateKey, RsaPublicKey};

fn client() -> ClientKeys {
    ClientKeys::with_private_key(RsaPrivateKey::new(&mut OsRng, 1024).expect("key pair"))
}

fn client_with_key(key: Vec<u8>) -> ClientKeys {
    let mut keys = client();
    keys.accept_key(Some(key));
    keys
}

fn text_of(incoming: Incoming) -> String {
    match incoming {
        Incoming::Text(text) => text,
        Incoming::Plaintext(bytes) => panic!("unexpected plaintext {:?}", bytes),
    }
}

fn bytes_of(incoming: Incoming) -> Vec<u8> {
    match incoming {
        Incoming::Plaintext(bytes) => bytes,
        Incoming::Text(text) => panic!("unexpected text {:?}", text),
    }
}

#[test]
fn a_client_starts_without_a_session_key() {
    let keys = client();
    assert!(!keys.has_session_key());
    assert_eq!(keys.session_key_bytes(), None);
}

#[test]
fn a_key_offer_carries_the_public_key() {
    let private = RsaPrivateKey::new(&mut OsRng, 1024).expect("key pair");
    let keys = ClientKeys::with_private_key(private.clone());
    let offer = keys.key_offer("bob").expect("offer");
    let (name, pem) = parse_key_offer(&offer).expect("a key offer");
    assert_eq!(name, "bob");
    let public = RsaPublicKey::from_pkcs1_pem(&pem).expect("a public key");
    assert_eq!(public, private.to_public_key());
}

#[test]
fn only_a_key_of_thirty_two_bytes_is_accepted() {
    let mut keys = client();
    keys.accept_key(None);
    assert!(!keys.has_session_key());
    keys.accept_key(Some(vec![1u8; 16]));
    assert!(!keys.has_session_key());
    keys.accept_key(Some(vec![1u8; 33]));
    assert!(!keys.has_session_key());
    keys.accept_key(Some(vec![1u8; 32]));
    assert_eq!(keys.session_key_bytes(), Some(&vec![1u8; 32]));
    keys.accept_key(Some(vec![2u8; 8]));
    assert_eq!(keys.session_key_bytes(), Some(&vec![1u8; 32]));
    keys.accept_key(None);
    assert_eq!(keys.session_key_bytes(), Some(&vec![1u8; 32]));
    keys.accept_key(Some(vec![3u8; 32]));
    assert_eq!(keys.session_key_bytes(), Some(&vec![3u8; 32]));
}

#[test]
fn the_relays_answer_gives_the_session_key() {
    let private = RsaPrivateKey::new(&mut OsRng, 1024).expect("key pair");
    let wrapped = private
        .to_public_key()
        .encrypt(&mut OsRng, Pkcs1v15Encrypt, &[9u8; 32])
        .expect("wrap");
    let mut keys = ClientKeys::with_private_key(private);
    let line = format!("{}\n", format_key_reply(&wrapped));
    assert_eq!(text_of(keys.receive(&line)), line.trim());
    assert_eq!(keys.session_key_bytes(), Some(&vec![9u8; 32]));
}

#[test]
fn an_answer_that_does_not_unwrap_is_ignored() {
    let mut keys = client();
    assert_eq!(text_of(keys.receive("AESKEY 00112233\n")), "AESKEY 00112233");
    assert!(!keys.has_session_key());
    assert_eq!(text_of(keys.receive("AESKEY nothex\n")), "AESKEY nothex");
    assert!(!keys.has_session_key());

    let other = RsaPrivateKey::new(&mut OsRng, 1024).expect("key pair");
    let wrapped = other
        .to_public_key()
        .encrypt(&mut OsRng, Pkcs1v15Encrypt, &[9u8; 32])
        .expect("wrap");
    let line = format_key_reply(&wrapped);
    keys.receive(&line);
    assert_ne!(keys.session_key_bytes(), Some(&vec![9u8; 32]));
}

#[test]
fn an_answer_with_a_key_of_another_length_is_ignored() {
    let private = RsaPrivateKey::new(&mut OsRng, 1024).expect("key pair");
    let wrapped = private
        .to_public_key()
        .encrypt(&mut OsRng, Pkcs1v15Encrypt, &[9u8; 16])
        .expect("wrap");
    let mut keys = ClientKeys::with_private_key(private);
    keys.receive(&format_key_reply(&wrapped));
    assert!(!keys.has_session_key());
}

#[test]
fn without_the_key_a_message_goes_out_as_chat_text() {
    let keys = client();
    assert_eq!(keys.compose("bob", "hi there"), Some("bob: hi there".to_string()));
    assert_eq!(
        keys.compose_with_nonce("bob", "hi there", &[0u8; 12]),
        Some("bob: hi there".to_string())
    );
    assert_eq!(
        keys.compose_with_nonce("bob", "hi there", &[]),
        Some("bob: hi there".to_string())
    );
}

#[test]
fn with_the_key_a_message_is_sealed_under_the_nonce() {
    let keys = client_with_key(vec![0u8; 32]);
    assert_eq!(
        keys.compose_with_nonce("bob", "", &[0u8; 12]),
        Some("ENC 000000000000000000000000 530f8afbc74536b9a963b4f1c4cb738b".to_string())
    );
    let zeros = "\0\0\0\0\0\0\0\0\0\0\0\0\0\0\0\0";
    assert_eq!(
        keys.compose_with_nonce("bob", zeros, &[0u8; 12]),
        Some(
            "ENC 000000000000000000000000 \
             cea7403d4d606b6e074ec5d3baf39d18d0d1c8a799996bf0265b98b5d48ab919"
                .to_string()
        )
    );
}

#[test]
fn a_nonce_of_another_length_seals_nothing() {
    let keys = client_with_key(vec![0u8; 32]);
    assert_eq!(keys.compose_with_nonce("bob", "hi", &[0u8; 11]), None);
    assert_eq!(keys.compose_with_nonce("bob", "hi", &[0u8; 13]), None);
    assert_eq!(keys.compose_with_nonce("bob", "hi", &[]), None);
}

#[test]
fn every_frame_gets_a_fresh_nonce() {
    let keys = client_with_key(vec![5u8; 32]);
    let first = keys.compose("bob", "same text").expect("frame");
    let second = keys.compose("bob", "same text").expect("frame");
    assert_ne!(first, second);
    let (nonce, ciphertext) = parse_encrypted_frame(&first).expect("a frame");
    assert_eq!(nonce.len(), 12);
    assert_eq!(ciphertext.len(), "same text".len() + 16);
}

#[test]
fn a_frame_is_opened_by_a_client_with_the_same_key() {
    let sender = client_with_key(vec![5u8; 32]);
    let mut receiver = client_with_key(vec![5u8; 32]);
    let frame = sender.compose("bob", "grüße, alice").expect("frame");
    assert_eq!(bytes_of(receiver.receive(&frame)), "grüße, alice".as_bytes().to_vec());
    let with_ending = format!("{}\r\n", frame);
    assert_eq!(bytes_of(receiver.receive(&with_ending)), "grüße, alice".as_bytes().to_vec());
}

#[test]
fn a_known_frame_is_opened() {
    let mut keys = client_with_key(vec![0u8; 32]);
    let frame = "ENC 000000000000000000000000 \
                 cea7403d4d606b6e074ec5d3baf39d18d0d1c8a799996bf0265b98b5d48ab919";
    assert_eq!(bytes_of(keys.receive(frame)), vec![0u8; 16]);
}

#[test]
fn a_frame_that_cannot_be_opened_is_shown_as_it_is() {
    let sender = client_with_key(vec![5u8; 32]);
    let frame = sender.compose("bob", "secret").expect("frame");

    let mut other_key = client_with_key(vec![6u8; 32]);
    assert_eq!(text_of(other_key.receive(&frame)), frame);

    let mut no_key = client();
    assert_eq!(text_of(no_key.receive(&format!("  {} \n", frame))), frame);

    let mut receiver = client_with_key(vec![5u8; 32]);
    let mut tampered = frame.clone();
    let last = tampered.pop().expect("a character");
    tampered.push(if last == '0' { '1' } else { '0' });
    assert_eq!(text_of(receiver.receive(&tampered)), tampered);
}

#[test]
fn a_frame_with_a_nonce_of_another_length_is_shown_as_it_is() {
    let mut keys = client_with_key(vec![0u8; 32]);
    assert_eq!(text_of(keys.receive("ENC 00 aabbcc\n")), "ENC 00 aabbcc");
    assert_eq!(text_of(keys.receive("ENC  aabbcc\n")), "ENC  aabbcc");
    assert_eq!(
        text_of(keys.receive("ENC 00000000000000000000000000 aabbcc\n")),
        "ENC 00000000000000000000000000 aabbcc"
    );
    assert_eq!(text_of(keys.receive("ENC 000000000000000000000000 aa\n")),
        "ENC 000000000000000000000000 aa");
}

#[test]
fn chat_text_is_shown_without_the_whitespace_around_it() {
    let mut keys = client_with_key(vec![0u8; 32]);
    assert_eq!(text_of(keys.receive("alice: hello\n")), "alice: hello");
    assert_eq!(text_of(keys.receive("  spaced  \r\n")), "spaced");
    assert_eq!(text_of(keys.receive("")), "");
    assert_eq!(keys.session_key_bytes(), Some(&vec![0u8; 32]));
}

#[test]
fn a_client_generates_a_key_pair_of_the_size_asked_for() {
    let keys = ClientKeys::generate(512).expect("key pair");
    assert!(!keys.has_session_key());
    assert_eq!(keys.key_bits(), 512);
    let offer = keys.key_offer("bob").expect("offer");
    let (_, pem) = parse_key_offer(&offer).expect("a key offer");
    let public = RsaPublicKey::from_pkcs1_pem(&pem).expect("a public key");
    assert_eq!(rsa::traits::PublicKeyParts::size(&public), 64);
    let other = ClientKeys::generate(512).expect("key pair");
    assert_ne!(other.key_offer("bob"), Some(offer));
}

#[test]
fn key_pairs_of_other_sizes_are_not_generated() {
    assert!(ClientKeys::generate(0).is_none());
    assert!(ClientKeys::generate(511).is_none());
    assert!(ClientKeys::generate(4097).is_none());
    assert!(ClientKeys::generate(usize::MAX).is_none());
}

#[test]
fn a_generated_key_pair_makes_a_client_that_holds_it() {
    let private = RsaPrivateKey::new(&mut OsRng, 1024).expect("key pair");
    let wrapped = private
        .to_public_key()
        .encrypt(&mut OsRng, Pkcs1v15Encrypt, &[4u8; 32])
        .expect("wrap");
    let mut keys = ClientKeys::from_generated(Ok(private.clone())).expect("a client");
    assert!(!keys.has_session_key());
    let offer = keys.key_offer("bob").expect("offer");
    let (_, pem) = parse_key_offer(&offer).expect("a key offer");
    assert_eq!(RsaPublicKey::from_pkcs1_pem(&pem).expect("a public key"), private.to_public_key());
    keys.receive(&format_key_reply(&wrapped));
    assert_eq!(keys.session_key_bytes(), Some(&vec![4u8; 32]));
}

#[test]
fn a_failed_generation_makes_no_client() {
    assert!(ClientKeys::from_generated(Err(rsa::Error::Internal)).is_none());
    assert!(ClientKeys::from_generated(Err(rsa::Error::TooFewPrimes)).is_none());
}

#[test]
fn pem_text_makes_an_offer_without_the_whitespace_around_it() {
    assert_eq!(
        offer_from_pem("bob", Ok("-----BEGIN K-----\nAA\n-----END K-----\n".to_string())),
        Some("PUBKEY bob -----BEGIN K-----\nAA\n-----END K-----".to_string())
    );
    assert_eq!(
        offer_from_pem("bob", Ok("  key \r\n".to_string())),
        Some("PUBKEY bob key".to_string())
    );
    assert_eq!(offer_from_pem("", Ok("".to_string())), Some("PUBKEY  ".to_string()));
}

#[test]
fn a_key_that_cannot_be_written_makes_no_offer() {
    assert_eq!(offer_from_pem("bob", Err(rsa::pkcs1::Error::Crypto)), None);
    assert_eq!(offer_from_pem("bob", Err(rsa::pkcs1::Error::Version)), None);
}

#[test]
fn a_client_knows_the_size_of_its_key_pair() {
    let private = RsaPrivateKey::new(&mut OsRng, 1024).expect("key pair");
    assert_eq!(ClientKeys::with_private_key(private).key_bits(), 1024);
    let private = RsaPrivateKey::new(&mut OsRng, 768).expect("key pair");
    assert_eq!(ClientKeys::with_private_key(private).key_bits(), 768);
}

#[test]
fn the_offer_carries_the_pem_text_of_the_public_half() {
    let private = RsaPrivateKey::new(&mut OsRng, 1024).expect("key pair");
    let pem = rsa::pkcs1::EncodeRsaPublicKey::to_pkcs1_pem(
        &private.to_public_key(),
        rsa::pkcs1::LineEnding::LF,
    )
    .expect("pem");
    let keys = ClientKeys::with_private_key(private);
    assert_eq!(keys.key_offer("bob"), Some(format!("PUBKEY bob {}", pem.trim())));
    assert_eq!(keys.key_offer("bob"), keys.key_offer("bob"));
}
