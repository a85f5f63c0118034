//! The line framing of the relay.
//!
//! A frame is one line of text. A connection introduces itself with
//! `client <identity>` or with `PUBKEY <identity> <pem>`; the relay answers
//! a key offer with `AESKEY <hex>`; `ENC <hex> <hex>` carries a nonce and a
//! ciphertext that only the clients read; every other line is chat text.

use vstd::prelude::*;
use crate::hexcode::{decoded, encoded, from_hex, is_hex, lemma_round_trip, to_hex};
use crate::text::{
    contains_text,
    has_prefix,
    is_whitespace,
    occurs,
    split_words,
    starts_with,
    texts,
    to_chars,
    trim,
    trim_bounds,
    words,
};

verus! {

/// The word that opens a plaintext introduction: `client`.
pub open spec fn client_tag() -> Seq<char> {
    seq!['c', 'l', 'i', 'e', 'n', 't']
}

/// What a key offer begins with: `PUBKEY` and a space.
pub open spec fn key_offer_prefix() -> Seq<char> {
    seq!['P', 'U', 'B', 'K', 'E', 'Y', ' ']
}

/// What the relay's answer to a key offer begins with: `AESKEY` and a space.
pub open spec fn key_reply_prefix() -> Seq<char> {
    seq!['A', 'E', 'S', 'K', 'E', 'Y', ' ']
}

/// What an encrypted frame begins with: `ENC` and a space.
pub open spec fn encrypted_prefix() -> Seq<char> {
    seq!['E', 'N', 'C', ' ']
}

/// What the relay puts between a sender's identity and the text: a colon and
/// a space.
pub open spec fn chat_separator() -> Seq<char> {
    seq![':', ' ']
}

/// The identity that a plaintext introduction claims: the line is the word
/// `client` and one more word, which is the identity.
pub open spec fn username_of(intro: Seq<char>) -> Option<Seq<char>> {
    let w = words(intro);
    if w.len() == 2 && w[0] == client_tag() {
        Some(w[1])
    } else {
        None
    }
}

/// The position of the first space of `s`, or its length where it has none.
pub open spec fn first_space(s: Seq<char>) -> nat
    decreases s.len(),
{
    if s.len() == 0 || s[0] == ' ' {
        0
    } else {
        1 + first_space(s.drop_first())
    }
}

/// The identity and the PEM text of a key offer: the line begins with
/// `PUBKEY` and a space; what follows, without the whitespace around it, is
/// the identity up to the first space, and the PEM text after that space.
pub open spec fn key_offer_of(intro: Seq<char>) -> Option<(Seq<char>, Seq<char>)> {
    if has_prefix(intro, key_offer_prefix()) {
        let rest = trim(intro.skip(key_offer_prefix().len() as int));
        let k = first_space(rest) as int;
        if k < rest.len() {
            Some((rest.take(k), rest.skip(k + 1)))
        } else {
            None
        }
    } else {
        None
    }
}

/// Whether `line` is an encrypted frame, which the relay passes on unread.
pub open spec fn is_encrypted_frame(line: Seq<char>) -> bool {
    has_prefix(line, encrypted_prefix())
}

/// `line` without the line feed that ends it, if one does.
pub open spec fn without_newline(line: Seq<char>) -> Seq<char> {
    if line.len() > 0 && line.last() == '\n' {
        line.drop_last()
    } else {
        line
    }
}

/// A prefix without a space that ends at a space, or at the end of `s`, ends
/// at the first space of `s`.
pub proof fn lemma_first_space_is(s: Seq<char>, n: int)
    requires
        0 <= n <= s.len(),
        forall|i: int| 0 <= i < n ==> #[trigger] s[i] != ' ',
        n < s.len() ==> s[n] == ' ',
    ensures
        first_space(s) == n,
    decreases s.len(),
{
    if n > 0 {
        let t = s.drop_first();
        assert(s[0] != ' ');
        assert forall|i: int| 0 <= i < n - 1 implies #[trigger] t[i] != ' ' by {
            assert(t[i] == s[i + 1]);
        }
        lemma_first_space_is(t, n - 1);
    }
}

/// Reads a plaintext introduction, `client <identity>`, and gives the
/// identity; any other line gives `None`.
pub fn parse_username(intro: &str) -> (r: Option<String>)
    ensures
        match r {
            Some(name) => username_of(intro@) == Some(name@),
            None => username_of(intro@) is None,
        },
{
    let mut parts = split_words(intro);
    proof {
        reveal_strlit("client");
        assert("client"@ =~= client_tag());
        assert(parts@.len() == texts(parts@).len());
        if parts@.len() == 2 {
            assert(texts(parts@)[0] == parts@[0]@);
            assert(texts(parts@)[1] == parts@[1]@);
        }
    }
    if parts.len() == 2 && parts[0] == "client".to_owned() {
        parts.pop()
    } else {
        None
    }
}

/// Reads a key offer, `PUBKEY <identity> <pem>`, and gives the identity and
/// the PEM text; any other line gives `None`.
pub fn parse_key_offer(intro: &str) -> (r: Option<(String, String)>)
    ensures
        match r {
            Some((name, pem)) => key_offer_of(intro@) == Some((name@, pem@)),
            None => key_offer_of(intro@) is None,
        },
{
    let v = to_chars(intro);
    proof {
        reveal_strlit("PUBKEY ");
        assert("PUBKEY "@ =~= key_offer_prefix());
    }
    if !starts_with(&v, "PUBKEY ") {
        return None;
    }
    let tail = intro.substring_char(7, v.len());
    let t = to_chars(tail);
    let (a, b) = trim_bounds(&t);
    let ghost rest = trim(intro@.skip(7));
    assert(rest == t@.subrange(a as int, b as int));
    let mut k: usize = a;
    while k < b && t[k] != ' '
        invariant
            a <= k <= b <= t.len(),
            forall|i: int| a <= i < k ==> #[trigger] t@[i] != ' ',
        decreases b - k,
    {
        k += 1;
    }
    proof {
        assert forall|i: int| 0 <= i < k - a implies #[trigger] rest[i] != ' ' by {
            assert(rest[i] == t@[a + i]);
        }
        lemma_first_space_is(rest, k - a);
    }
    if k < b {
        let name = tail.substring_char(a, k).to_owned();
        let pem = tail.substring_char(k + 1, b).to_owned();
        proof {
            assert(name@ =~= rest.take(k - a));
            assert(pem@ =~= rest.skip(k - a + 1));
        }
        Some((name, pem))
    } else {
        None
    }
}

/// A chat line as the relay passes it on: the sender's identity, a colon and
/// a space, and the text.
pub open spec fn chat_line(identity: Seq<char>, text: Seq<char>) -> Seq<char> {
    identity + chat_separator() + text
}

/// The relay's answer to a key offer: `AESKEY`, a space and the wrapped
/// session key in hexadecimal.
pub open spec fn key_reply_line(wrapped: Seq<u8>) -> Seq<char> {
    key_reply_prefix() + encoded(wrapped)
}

/// An encrypted frame: `ENC`, the nonce and the ciphertext, both in
/// hexadecimal, with single spaces between them.
pub open spec fn encrypted_line(nonce: Seq<u8>, ciphertext: Seq<u8>) -> Seq<char> {
    encrypted_prefix() + encoded(nonce) + seq![' '] + encoded(ciphertext)
}

/// A plaintext introduction: `client`, a space and the identity.
pub open spec fn intro_line(identity: Seq<char>) -> Seq<char> {
    client_tag() + seq![' '] + identity
}

/// A key offer: `PUBKEY`, the identity and the PEM text, with single spaces
/// between them.
pub open spec fn key_offer_line(identity: Seq<char>, pem: Seq<char>) -> Seq<char> {
    key_offer_prefix() + identity + seq![' '] + pem
}

/// The wrapped session key that a key reply carries: the line begins with
/// `AESKEY` and a space, and what follows, without the whitespace around it,
/// is hexadecimal text.
pub open spec fn key_reply_of(line: Seq<char>) -> Option<Seq<u8>> {
    let payload = trim(line.skip(key_reply_prefix().len() as int));
    if has_prefix(line, key_reply_prefix()) && is_hex(payload) {
        Some(decoded(payload))
    } else {
        None
    }
}

/// The nonce and the ciphertext that an encrypted frame carries: the line
/// begins with `ENC` and a space, and what follows is two words of
/// hexadecimal text.
pub open spec fn encrypted_frame_of(line: Seq<char>) -> Option<(Seq<u8>, Seq<u8>)> {
    let w = words(line.skip(encrypted_prefix().len() as int));
    if has_prefix(line, encrypted_prefix()) && w.len() == 2 && is_hex(w[0]) && is_hex(w[1]) {
        Some((decoded(w[0]), decoded(w[1])))
    } else {
        None
    }
}

/// Whether `line` is an encrypted frame. Only its first four characters are
/// looked at.
pub fn has_encrypted_prefix(line: &str) -> (r: bool)
    ensures
        r == is_encrypted_frame(line@),
{
    let v = to_chars(line);
    proof {
        reveal_strlit("ENC ");
        assert("ENC "@ =~= encrypted_prefix());
    }
    starts_with(&v, "ENC ")
}

/// `line` without the line feed that ends it, if one does.
pub fn strip_newline(line: &str) -> (r: String)
    ensures
        r@ == without_newline(line@),
{
    let v = to_chars(line);
    let n: usize = v.len();
    if n > 0 && v[n - 1] == '\n' {
        let r = line.substring_char(0, n - 1).to_owned();
        assert(r@ =~= line@.drop_last());
        r
    } else {
        line.to_owned()
    }
}

/// Puts the sender's identity in front of a chat text.
pub fn format_chat_line(identity: &str, text: &str) -> (r: String)
    ensures
        r@ == chat_line(identity@, text@),
{
    proof {
        reveal_strlit(": ");
        assert(": "@ =~= chat_separator());
    }
    let mut r = identity.to_owned();
    r.append(": ");
    r.append(text);
    r
}

/// Writes the relay's answer to a key offer.
pub fn format_key_reply(wrapped: &[u8]) -> (r: String)
    ensures
        r@ == key_reply_line(wrapped@),
{
    proof {
        reveal_strlit("AESKEY ");
        assert("AESKEY "@ =~= key_reply_prefix());
    }
    let mut r = "AESKEY ".to_owned();
    let digits = to_hex(wrapped);
    r.append(digits.as_str());
    r
}

/// Writes an encrypted frame.
pub fn format_encrypted_line(nonce: &[u8], ciphertext: &[u8]) -> (r: String)
    ensures
        r@ == encrypted_line(nonce@, ciphertext@),
{
    proof {
        reveal_strlit("ENC ");
        reveal_strlit(" ");
        assert("ENC "@ =~= encrypted_prefix());
        assert(" "@ =~= seq![' ']);
    }
    let mut r = "ENC ".to_owned();
    let first = to_hex(nonce);
    let second = to_hex(ciphertext);
    r.append(first.as_str());
    r.append(" ");
    r.append(second.as_str());
    r
}

/// Writes a plaintext introduction.
pub fn format_intro(identity: &str) -> (r: String)
    ensures
        r@ == intro_line(identity@),
{
    proof {
        reveal_strlit("client ");
        assert("client "@ =~= client_tag() + seq![' ']);
    }
    let mut r = "client ".to_owned();
    r.append(identity);
    r
}

/// Writes a key offer.
pub fn format_key_offer(identity: &str, pem: &str) -> (r: String)
    ensures
        r@ == key_offer_line(identity@, pem@),
{
    proof {
        reveal_strlit("PUBKEY ");
        reveal_strlit(" ");
        assert("PUBKEY "@ =~= key_offer_prefix());
        assert(" "@ =~= seq![' ']);
    }
    let mut r = "PUBKEY ".to_owned();
    r.append(identity);
    r.append(" ");
    r.append(pem);
    r
}

/// Reads the relay's answer to a key offer and gives the wrapped session
/// key; any other line gives `None`.
pub fn parse_key_reply(line: &str) -> (r: Option<Vec<u8>>)
    ensures
        match r {
            Some(wrapped) => key_reply_of(line@) == Some(wrapped@),
            None => key_reply_of(line@) is None,
        },
{
    let v = to_chars(line);
    proof {
        reveal_strlit("AESKEY ");
        assert("AESKEY "@ =~= key_reply_prefix());
    }
    if !starts_with(&v, "AESKEY ") {
        return None;
    }
    let tail = line.substring_char(7, v.len());
    let t = to_chars(tail);
    let (a, b) = trim_bounds(&t);
    let payload = tail.substring_char(a, b);
    assert(payload@ == trim(line@.skip(7)));
    from_hex(payload)
}

/// Reads an encrypted frame and gives its nonce and its ciphertext; any
/// other line gives `None`.
pub fn parse_encrypted_frame(line: &str) -> (r: Option<(Vec<u8>, Vec<u8>)>)
    ensures
        match r {
            Some((nonce, ciphertext)) => encrypted_frame_of(line@) == Some(
                (nonce@, ciphertext@),
            ),
            None => encrypted_frame_of(line@) is None,
        },
{
    let v = to_chars(line);
    proof {
        reveal_strlit("ENC ");
        assert("ENC "@ =~= encrypted_prefix());
    }
    if !starts_with(&v, "ENC ") {
        return None;
    }
    let tail = line.substring_char(4, v.len());
    assert(tail@ == line@.skip(4));
    let parts = split_words(tail);
    proof {
        assert(parts@.len() == texts(parts@).len());
        if parts@.len() == 2 {
            assert(texts(parts@)[0] == parts@[0]@);
            assert(texts(parts@)[1] == parts@[1]@);
        }
    }
    if parts.len() != 2 {
        return None;
    }
    match from_hex(parts[0].as_str()) {
        Some(nonce) => match from_hex(parts[1].as_str()) {
            Some(ciphertext) => Some((nonce, ciphertext)),
            None => None,
        },
        None => None,
    }
}

/// How many characters of an introduction the relay reads at the most.
pub const MAX_INTRO_CHARS: usize = 16384;

/// What opens PEM text: five hyphens and `BEGIN`.
pub open spec fn pem_begin_marker() -> Seq<char> {
    seq!['-', '-', '-', '-', '-', 'B', 'E', 'G', 'I', 'N']
}

/// What the last line of PEM text begins with: five hyphens and `END`.
pub open spec fn pem_end_marker() -> Seq<char> {
    seq!['-', '-', '-', '-', '-', 'E', 'N', 'D']
}

/// Whether an introduction goes on after `last_line`, the line that was
/// read last. PEM text spans several lines, so a key offer in which PEM
/// text has begun goes on until a line begins with the end marker. An
/// introduction that has reached `MAX_INTRO_CHARS` characters is not read
/// any further, and neither is any other introduction after its first
/// line.
pub open spec fn key_offer_is_open(intro: Seq<char>, last_line: Seq<char>) -> bool {
    &&& has_prefix(intro, key_offer_prefix())
    &&& occurs(intro, pem_begin_marker())
    &&& !has_prefix(last_line, pem_end_marker())
    &&& intro.len() < MAX_INTRO_CHARS
}

/// Whether the relay is to read another line of an introduction of which
/// it has read `intro` so far, `last_line` last.
pub fn wants_more_intro(intro: &str, last_line: &str) -> (r: bool)
    ensures
        r == key_offer_is_open(intro@, last_line@),
{
    let v = to_chars(intro);
    let l = to_chars(last_line);
    proof {
        reveal_strlit("PUBKEY ");
        reveal_strlit("-----BEGIN");
        reveal_strlit("-----END");
        assert("PUBKEY "@ =~= key_offer_prefix());
        assert("-----BEGIN"@ =~= pem_begin_marker());
        assert("-----END"@ =~= pem_end_marker());
    }
    starts_with(&v, "PUBKEY ") && contains_text(&v, "-----BEGIN") && !starts_with(&l, "-----END")
        && v.len() < MAX_INTRO_CHARS
}

/// Whether `s` can stand as one word of a frame: it is not empty and holds
/// no whitespace.
pub open spec fn is_word(s: Seq<char>) -> bool {
    s.len() > 0 && forall|i: int| 0 <= i < s.len() ==> !is_whitespace(#[trigger] s[i])
}

/// A key reply prefix in front of hexadecimal text is a key reply that
/// carries the bytes of that text.
proof fn lemma_key_reply_of_payload(payload: Seq<char>)
    requires
        is_hex(payload),
        trim(payload) == payload,
    ensures
        key_reply_of(key_reply_prefix() + payload) == Some(decoded(payload)),
{
    let prefix = key_reply_prefix();
    let line = prefix + payload;
    assert(prefix.len() == 7);
    assert(line.take(7) =~= prefix);
    assert(line.skip(7) =~= payload);
}

/// An encrypted prefix in front of two words of hexadecimal text, with a
/// space between them, is an encrypted frame that carries the bytes of both.
proof fn lemma_encrypted_frame_of_payload(first: Seq<char>, second: Seq<char>)
    requires
        is_hex(first),
        is_hex(second),
        is_word(first),
        is_word(second),
    ensures
        has_prefix(encrypted_prefix() + first + seq![' '] + second, encrypted_prefix()),
        encrypted_frame_of(encrypted_prefix() + first + seq![' '] + second) == Some(
            (decoded(first), decoded(second)),
        ),
{
    let prefix = encrypted_prefix();
    let line = prefix + first + seq![' '] + second;
    assert(prefix.len() == 4);
    assert(line.take(4) =~= prefix);
    assert(line.skip(4) =~= first + (seq![' '] + second));
    assert(is_whitespace(' '));
    crate::text::lemma_words_after_word(first, seq![' '] + second);
    crate::text::lemma_words_after_space(' ', second);
    assert(second + Seq::<char>::empty() =~= second);
    crate::text::lemma_words_after_word(second, Seq::empty());
    assert(words(Seq::<char>::empty()) =~= Seq::<Seq<char>>::empty());
    assert(words(line.skip(4)) =~= seq![first, second]);
}

/// The relay's answer to a key offer is one line: it holds no line feed.
pub proof fn lemma_key_reply_is_one_line(wrapped: Seq<u8>)
    ensures
        forall|i: int|
            0 <= i < key_reply_line(wrapped).len() ==> #[trigger] key_reply_line(wrapped)[i]
                != '\n',
{
    let prefix = key_reply_prefix();
    let payload = encoded(wrapped);
    let line = key_reply_line(wrapped);
    lemma_round_trip(wrapped);
    crate::hexcode::lemma_hex_has_no_whitespace(payload);
    assert forall|i: int| 0 <= i < line.len() implies #[trigger] line[i] != '\n' by {
        if i >= prefix.len() {
            assert(line[i] == payload[i - prefix.len()]);
            assert(is_whitespace('\n'));
        } else {
            assert(line[i] == prefix[i]);
        }
    }
}

/// What the relay answers to a key offer, the client reads back as the
/// same wrapped key.
pub proof fn lemma_key_reply_round_trip(wrapped: Seq<u8>)
    ensures
        key_reply_of(key_reply_line(wrapped)) == Some(wrapped),
{
    let payload = encoded(wrapped);
    lemma_round_trip(wrapped);
    assert(trim(payload) == payload) by {
        crate::hexcode::lemma_hex_has_no_whitespace(payload);
        crate::text::lemma_trim_unchanged(payload);
    }
    lemma_key_reply_of_payload(payload);
}

/// An encrypted frame that one client writes, another reads back as the
/// same nonce and ciphertext.
pub proof fn lemma_encrypted_frame_round_trip(nonce: Seq<u8>, ciphertext: Seq<u8>)
    requires
        nonce.len() > 0,
        ciphertext.len() > 0,
    ensures
        is_encrypted_frame(encrypted_line(nonce, ciphertext)),
        encrypted_frame_of(encrypted_line(nonce, ciphertext)) == Some((nonce, ciphertext)),
{
    let first = encoded(nonce);
    let second = encoded(ciphertext);
    lemma_round_trip(nonce);
    lemma_round_trip(ciphertext);
    crate::hexcode::lemma_hex_has_no_whitespace(first);
    crate::hexcode::lemma_hex_has_no_whitespace(second);
    lemma_encrypted_frame_of_payload(first, second);
}

/// A plaintext introduction that a client writes for an identity of one
/// word, the relay reads back as that identity.
pub proof fn lemma_intro_round_trip(identity: Seq<char>)
    requires
        is_word(identity),
    ensures
        username_of(intro_line(identity)) == Some(identity),
        key_offer_of(intro_line(identity)) is None,
{
    let line = intro_line(identity);
    let tag = client_tag();
    assert(line =~= tag + (seq![' '] + identity));
    assert(is_whitespace(' '));
    assert forall|i: int| 0 <= i < tag.len() implies !is_whitespace(#[trigger] tag[i]) by {}
    crate::text::lemma_words_after_word(tag, seq![' '] + identity);
    crate::text::lemma_words_after_space(' ', identity);
    assert(identity + Seq::<char>::empty() =~= identity);
    crate::text::lemma_words_after_word(identity, Seq::empty());
    assert(words(Seq::<char>::empty()) =~= Seq::<Seq<char>>::empty());
    assert(words(line) =~= seq![tag, identity]);
    assert(line[0] == 'c');
    if has_prefix(line, key_offer_prefix()) {
        assert(line.take(7)[0] == key_offer_prefix()[0]);
    }
}

/// A key offer that a client writes for an identity of one word, the relay
/// reads back as that identity and the PEM text without its trailing
/// whitespace, and not as a plaintext introduction.
pub proof fn lemma_key_offer_round_trip(identity: Seq<char>, pem: Seq<char>)
    requires
        is_word(identity),
        pem.len() > 0,
        !is_whitespace(pem[0]),
    ensures
        key_offer_of(key_offer_line(identity, pem)) == Some(
            (identity, crate::text::trim_end(pem)),
        ),
        username_of(key_offer_line(identity, pem)) is None,
{
    let line = key_offer_line(identity, pem);
    let prefix = key_offer_prefix();
    let body = identity + seq![' '] + pem;
    assert(line.take(7) =~= prefix);
    assert(line.skip(7) =~= body);
    assert(body[0] == identity[0]);
    crate::text::lemma_trim_keeps_front(body);
    crate::text::lemma_trim_keeps_front(pem);
    assert(body =~= (identity + seq![' ']) + pem);
    crate::text::lemma_trailing_whitespace_of_tail(identity + seq![' '], pem);
    let rest = trim(body);
    assert(rest =~= identity + seq![' '] + crate::text::trim_end(pem));
    assert(is_whitespace(' '));
    assert forall|i: int| 0 <= i < identity.len() implies #[trigger] rest[i] != ' ' by {
        assert(rest[i] == identity[i]);
    }
    assert(rest[identity.len() as int] == ' ');
    lemma_first_space_is(rest, identity.len() as int);
    assert(rest.take(identity.len() as int) =~= identity);
    assert(rest.skip(identity.len() as int + 1) =~= crate::text::trim_end(pem));
    // The line's first word is the tag of a key offer, not that of an introduction.
    let tag = seq!['P', 'U', 'B', 'K', 'E', 'Y'];
    assert(line =~= tag + (seq![' '] + body));
    assert forall|i: int| 0 <= i < tag.len() implies !is_whitespace(#[trigger] tag[i]) by {}
    crate::text::lemma_words_after_word(tag, seq![' '] + body);
    assert(words(line)[0] == tag);
    assert(tag[0] != client_tag()[0]);
}

/// A key offer that carries trimmed text, as a client writes it, is read
/// back by the relay as the client's identity and that same text.
pub proof fn lemma_trimmed_offer_round_trip(identity: Seq<char>, pem: Seq<char>)
    requires
        is_word(identity),
        trim(pem).len() > 0,
    ensures
        key_offer_of(key_offer_line(identity, trim(pem))) == Some((identity, trim(pem))),
        username_of(key_offer_line(identity, trim(pem))) is None,
{
    let text = trim(pem);
    crate::text::lemma_trim_is_trimmed(pem);
    crate::text::lemma_trim_keeps_front(text);
    lemma_key_offer_round_trip(identity, text);
}

/// The relay does not change an encrypted frame: what it passes on does not
/// depend on the sender's identity, is the line it received without the
/// line feed that ended it, and is an encrypted frame still.
pub proof fn lemma_encrypted_frame_passes_unchanged(line: Seq<char>)
    requires
        is_encrypted_frame(line),
    ensures
        is_encrypted_frame(without_newline(line)),
        line.len() > 0 && line.last() == '\n' ==> without_newline(line) + seq!['\n'] == line,
        !(line.len() > 0 && line.last() == '\n') ==> without_newline(line) == line,
{
    let kept = without_newline(line);
    let prefix = encrypted_prefix();
    assert(line.take(4) == prefix);
    if line.len() > 0 && line.last() == '\n' {
        assert(kept + seq!['\n'] =~= line);
        if line.len() == 4 {
            assert(line.take(4)[3] == prefix[3]);
            assert(line[3] == ' ');
        }
        assert(kept.take(4) =~= line.take(4));
    }
}

} // verus!
