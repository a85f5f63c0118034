use chat_relay::client::{ClientKeys, Incoming};
use chat_relay::codec::wants_more_intro;
use chat_relay::handshake::{Phase, RelayStep, Session};
use chat_relay::relay::ServerState;
use rand::rngs::OsRng;
use rsa::RsaPrivateKey;

fn fresh_client() -> ClientKeys {
    ClientKeys::with_private_key(RsaPrivateKey::new(&mut OsRng, 1024).expect("key pair"))
}

fn forwarded(step: RelayStep) -> String {
    match step {
        RelayStep::Forward(payload) => payload,
        RelayStep::Disconnect => panic!("the line should have been forwarded"),
    }
}

#[test]
fn plaintext_and_encrypted_clients_talk_through_the_relay() {
    let key = vec![7u8; 32];
    let mut state: ServerState<u32> = ServerState::with_session_key(key.clone()).unwrap();

    let mut alice = Session::new("10.0.0.1:5000");
    let greeting = state.greet(&mut alice, "client alice\n");
    assert!(greeting.reply.is_none());
    assert!(greeting.fault.is_none());
    assert_eq!(alice.current_phase(), Phase::Identified);
    state.join(&mut alice, 1);
    assert_eq!(alice.current_phase(), Phase::Active);

    let mut bob_keys = fresh_client();
    let offer = bob_keys.key_offer("bob").expect("offer");
    assert!(offer.starts_with("PUBKEY bob -----BEGIN RSA PUBLIC KEY-----\n"));
    assert!(offer.ends_with("\n-----END RSA PUBLIC KEY-----"));
    let mut bob = Session::new("10.0.0.2:5000");
    let greeting = state.greet(&mut bob, &offer);
    assert!(greeting.fault.is_none());
    let reply = greeting.reply.expect("the relay answers a key offer");
    assert!(reply.starts_with("AESKEY "));
    assert_eq!(bob.current_phase(), Phase::KeyDelivered);
    assert_eq!(bob.name(), "bob");
    assert!(state.keys().has_key("bob"));
    state.join(&mut bob, 2);

    match bob_keys.receive(&reply) {
        Incoming::Text(text) => assert_eq!(text, reply),
        Incoming::Plaintext(_) => panic!("a key reply is shown as text"),
    }
    assert_eq!(bob_keys.session_key_bytes(), Some(&key));

    let hello = forwarded(alice.receive("hello\n"));
    assert_eq!(hello, "alice: hello");
    let targets = state.broadcast_targets(alice.name());
    assert_eq!(targets, vec![("bob".to_string(), 2)]);
    match bob_keys.receive(&hello) {
        Incoming::Text(text) => assert_eq!(text, "alice: hello"),
        Incoming::Plaintext(_) => panic!("chat text is shown as text"),
    }

    let frame = bob_keys.compose("bob", "hi alice").expect("frame");
    assert!(frame.starts_with("ENC "));
    let sent = format!("{}\n", frame);
    let relayed = forwarded(bob.receive(&sent));
    assert_eq!(relayed, frame);
    let targets = state.broadcast_targets(bob.name());
    assert_eq!(targets, vec![("alice".to_string(), 1)]);

    let mut alice_keys = fresh_client();
    match alice_keys.receive(&relayed) {
        Incoming::Text(text) => assert_eq!(text, frame),
        Incoming::Plaintext(_) => panic!("a client without the key cannot open a frame"),
    }
    match bob_keys.receive(&relayed) {
        Incoming::Plaintext(bytes) => assert_eq!(bytes, b"hi alice".to_vec()),
        Incoming::Text(_) => panic!("a client with the key opens the frame"),
    }
}

#[test]
fn a_key_offer_read_line_by_line_is_accepted() {
    let bob_keys = fresh_client();
    let offer = bob_keys.key_offer("bob").expect("offer");
    let sent = format!("{}\nhello\n", offer);
    let mut lines = sent.split_inclusive('\n');

    let mut intro = lines.next().expect("a first line").to_string();
    let mut last = intro.clone();
    while wants_more_intro(&intro, &last) {
        last = lines.next().expect("the offer goes on").to_string();
        intro.push_str(&last);
    }
    assert_eq!(intro, format!("{}\n", offer));
    assert_eq!(lines.next(), Some("hello\n"));

    let mut state: ServerState<u32> = ServerState::with_session_key(vec![7u8; 32]).unwrap();
    let mut bob = Session::new("10.0.0.2:5000");
    let greeting = state.greet(&mut bob, &intro);
    assert!(greeting.reply.is_some());
    assert_eq!(bob.current_phase(), Phase::KeyDelivered);
    assert_eq!(bob.name(), "bob");
}
