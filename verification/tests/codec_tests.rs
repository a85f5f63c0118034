use chat_relay::codec::{
    format_chat_line, format_encrypted_line, format_intro, format_key_offer, format_key_reply,
    has_encrypted_prefix, parse_encrypted_frame, parse_key_offer, parse_key_reply,
    parse_username, strip_newline, wants_more_intro,
};

#[test]
fn parse_username_reads_a_plaintext_introduction() {
    assert_eq!(parse_username("client alice"), Some("alice".to_string()));
    assert_eq!(parse_username("client alice\n"), Some("alice".to_string()));
    assert_eq!(parse_username("  client \t bob \r\n"), Some("bob".to_string()));
}

#[test]
fn parse_username_refuses_other_lines() {
    assert_eq!(parse_username(""), None);
    assert_eq!(parse_username("client"), None);
    assert_eq!(parse_username("client alice smith"), None);
    assert_eq!(parse_username("Client alice"), None);
    assert_eq!(parse_username("clients alice"), None);
    assert_eq!(parse_username("server alice"), None);
    assert_eq!(parse_username("hello there"), None);
    assert_eq!(parse_username("PUBKEY bob"), None);
}

#[test]
fn parse_key_offer_splits_identity_and_pem() {
    assert_eq!(
        parse_key_offer("PUBKEY bob -----BEGIN X-----\nAAAA\n-----END X-----\n"),
        Some(("bob".to_string(), "-----BEGIN X-----\nAAAA\n-----END X-----".to_string()))
    );
    assert_eq!(parse_key_offer("PUBKEY bob key"), Some(("bob".to_string(), "key".to_string())));
    assert_eq!(
        parse_key_offer("PUBKEY   bob  key with spaces  "),
        Some(("bob".to_string(), " key with spaces".to_string()))
    );
}

#[test]
fn parse_key_offer_refuses_other_lines() {
    assert_eq!(parse_key_offer("PUBKEY bob"), None);
    assert_eq!(parse_key_offer("PUBKEY bob\n"), None);
    assert_eq!(parse_key_offer("PUBKEY "), None);
    assert_eq!(parse_key_offer("PUBKEY"), None);
    assert_eq!(parse_key_offer("PUBKEY\tbob key"), None);
    assert_eq!(parse_key_offer(" PUBKEY bob key"), None);
    assert_eq!(parse_key_offer("pubkey bob key"), None);
    assert_eq!(parse_key_offer("client bob"), None);
    assert_eq!(parse_key_offer(""), None);
}

#[test]
fn parse_key_offer_splits_at_the_first_space_only() {
    assert_eq!(
        parse_key_offer("PUBKEY bob\tb k"),
        Some(("bob\tb".to_string(), "k".to_string()))
    );
}

#[test]
fn has_encrypted_prefix_looks_at_four_characters() {
    assert!(has_encrypted_prefix("ENC 00 11"));
    assert!(has_encrypted_prefix("ENC "));
    assert!(has_encrypted_prefix("ENC not hex at all"));
    assert!(!has_encrypted_prefix("ENC"));
    assert!(!has_encrypted_prefix("ENC\t00 11"));
    assert!(!has_encrypted_prefix(" ENC 00 11"));
    assert!(!has_encrypted_prefix("enc 00 11"));
    assert!(!has_encrypted_prefix("hello"));
    assert!(!has_encrypted_prefix(""));
}

#[test]
fn strip_newline_takes_one_line_feed() {
    assert_eq!(strip_newline("ENC 00 11\n"), "ENC 00 11");
    assert_eq!(strip_newline("ENC 00 11"), "ENC 00 11");
    assert_eq!(strip_newline("ENC 00 11\r\n"), "ENC 00 11\r");
    assert_eq!(strip_newline("ENC 00 11 \n"), "ENC 00 11 ");
    assert_eq!(strip_newline("a\n\n"), "a\n");
    assert_eq!(strip_newline("\n"), "");
    assert_eq!(strip_newline(""), "");
}

#[test]
fn lines_are_written_as_the_framing_says() {
    assert_eq!(format_chat_line("alice", "hello"), "alice: hello");
    assert_eq!(format_chat_line("", ""), ": ");
    assert_eq!(format_key_reply(&[0xde, 0xad, 0xbe, 0xef]), "AESKEY deadbeef");
    assert_eq!(format_encrypted_line(&[0, 1, 2], &[0xff, 0x10]), "ENC 000102 ff10");
    assert_eq!(format_intro("alice"), "client alice");
    assert_eq!(format_key_offer("bob", "PEM"), "PUBKEY bob PEM");
}

#[test]
fn parse_key_reply_reads_the_wrapped_key() {
    assert_eq!(parse_key_reply("AESKEY deadbeef"), Some(vec![0xde, 0xad, 0xbe, 0xef]));
    assert_eq!(parse_key_reply("AESKEY DEADBEEF\n"), Some(vec![0xde, 0xad, 0xbe, 0xef]));
    assert_eq!(parse_key_reply("AESKEY   00ff  \r\n"), Some(vec![0x00, 0xff]));
    assert_eq!(parse_key_reply("AESKEY "), Some(vec![]));
}

#[test]
fn parse_key_reply_refuses_other_lines() {
    assert_eq!(parse_key_reply("AESKEY"), None);
    assert_eq!(parse_key_reply("AESKEY abc"), None);
    assert_eq!(parse_key_reply("AESKEY zz"), None);
    assert_eq!(parse_key_reply("AESKEY 00 11"), None);
    assert_eq!(parse_key_reply("aeskey 00"), None);
    assert_eq!(parse_key_reply(" AESKEY 00"), None);
    assert_eq!(parse_key_reply("ENC 00 11"), None);
    assert_eq!(parse_key_reply(""), None);
}

#[test]
fn parse_encrypted_frame_reads_nonce_and_ciphertext() {
    assert_eq!(
        parse_encrypted_frame("ENC 000102 ff10"),
        Some((vec![0, 1, 2], vec![0xff, 0x10]))
    );
    assert_eq!(
        parse_encrypted_frame("ENC   000102 \t FF10 \r\n"),
        Some((vec![0, 1, 2], vec![0xff, 0x10]))
    );
}

#[test]
fn parse_encrypted_frame_refuses_other_lines() {
    assert_eq!(parse_encrypted_frame("ENC 000102"), None);
    assert_eq!(parse_encrypted_frame("ENC 000102 ff10 00"), None);
    assert_eq!(parse_encrypted_frame("ENC 00010 ff10"), None);
    assert_eq!(parse_encrypted_frame("ENC 000102 fg10"), None);
    assert_eq!(parse_encrypted_frame("ENC "), None);
    assert_eq!(parse_encrypted_frame("ENC"), None);
    assert_eq!(parse_encrypted_frame("enc 00 11"), None);
    assert_eq!(parse_encrypted_frame("alice: ENC 00 11"), None);
    assert_eq!(parse_encrypted_frame(""), None);
}

#[test]
fn what_is_written_is_read_back() {
    let nonce = vec![9u8; 12];
    let ciphertext = vec![0u8, 1, 2, 3, 250, 251, 252];
    let line = format_encrypted_line(&nonce, &ciphertext);
    assert!(has_encrypted_prefix(&line));
    assert_eq!(parse_encrypted_frame(&line), Some((nonce, ciphertext)));

    let wrapped = vec![7u8, 0, 255, 16];
    assert_eq!(parse_key_reply(&format_key_reply(&wrapped)), Some(wrapped));

    assert_eq!(parse_username(&format_intro("alice")), Some("alice".to_string()));
    assert_eq!(parse_key_offer(&format_intro("alice")), None);

    let offer = format_key_offer("bob", "-----BEGIN K-----\nAA\n-----END K-----\n");
    assert_eq!(
        parse_key_offer(&offer),
        Some(("bob".to_string(), "-----BEGIN K-----\nAA\n-----END K-----".to_string()))
    );
    assert_eq!(parse_username(&offer), None);
}

#[test]
fn a_key_offer_goes_on_until_the_pem_text_ends() {
    let first = "PUBKEY bob -----BEGIN RSA PUBLIC KEY-----\n";
    assert!(wants_more_intro(first, first));
    let second = "MIGJAoGBAOk4sSVAy3PbujXJyTMbg2uu3\n";
    let so_far = format!("{}{}", first, second);
    assert!(wants_more_intro(&so_far, second));
    let last = "-----END RSA PUBLIC KEY-----\n";
    let whole = format!("{}{}", so_far, last);
    assert!(!wants_more_intro(&whole, last));
}

#[test]
fn other_introductions_end_with_their_first_line() {
    let lines =
        ["client alice\n", "PUBKEY bob key\n", "PUBKEY bob\n", "hello\n", "", "-----BEGIN X\n"];
    for line in lines {
        assert!(!wants_more_intro(line, line));
    }
}

#[test]
fn an_introduction_is_not_read_without_end() {
    let mut intro = "PUBKEY bob -----BEGIN RSA PUBLIC KEY-----\n".to_string();
    while intro.chars().count() < 16383 {
        intro.push('A');
    }
    assert!(wants_more_intro(&intro, "AAAA\n"));
    intro.push('A');
    assert!(!wants_more_intro(&intro, "AAAA\n"));
}
