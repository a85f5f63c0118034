use chat_relay::hexcode::{from_hex, to_hex};

#[test]
fn to_hex_writes_two_lower_case_digits_for_each_byte() {
    assert_eq!(to_hex(b"Hello world!"), "48656c6c6f20776f726c6421");
    assert_eq!(to_hex(&[1, 2, 3, 15, 16]), "0102030f10");
    assert_eq!(to_hex(&[0x00, 0xff, 0xa0, 0x0a]), "00ffa00a");
    assert_eq!(to_hex(&[]), "");
}

#[test]
fn from_hex_reads_both_cases() {
    assert_eq!(from_hex("48656c6c6f20776f726c6421"), Some(b"Hello world!".to_vec()));
    assert_eq!(from_hex("f9b4ca"), Some(vec![0xf9, 0xb4, 0xca]));
    assert_eq!(from_hex("F9B4CA"), Some(vec![0xf9, 0xb4, 0xca]));
    assert_eq!(from_hex("f9B4Ca"), Some(vec![0xf9, 0xb4, 0xca]));
    assert_eq!(from_hex(""), Some(vec![]));
}

#[test]
fn from_hex_refuses_an_odd_number_of_digits() {
    assert_eq!(from_hex("123"), None);
    assert_eq!(from_hex("a"), None);
}

#[test]
fn from_hex_refuses_other_characters() {
    assert_eq!(from_hex("foo"), None);
    assert_eq!(from_hex("fg"), None);
    assert_eq!(from_hex("0x"), None);
    assert_eq!(from_hex(" 00"), None);
    assert_eq!(from_hex("00 "), None);
    assert_eq!(from_hex("é"), None);
    assert_eq!(from_hex("0é1"), None);
    assert_eq!(from_hex("\u{ff10}\u{ff11}"), None);
}

#[test]
fn from_hex_undoes_to_hex() {
    let mut bytes: Vec<u8> = Vec::new();
    let mut b: u16 = 0;
    while b < 256 {
        bytes.push(b as u8);
        b += 1;
    }
    let text = to_hex(&bytes);
    assert_eq!(text.len(), 512);
    assert_eq!(from_hex(&text), Some(bytes));
}
