//! The lobby, through which clients find a relay.
//!
//! A relay registers with `server <ip> <name>`. A client that says
//! `client <name>` is sent the numbered list of the registered relays, picks
//! one by its number, and is sent the address to connect to.

use vstd::prelude::*;
use crate::codec::client_tag;
use crate::table::{distinct_names, with, NameTable};
use crate::text::{
    has_prefix,
    join_words,
    split_words,
    starts_with,
    texts,
    to_chars,
    trim,
    trim_bounds,
    words,
};

verus! {

/// The decimal digit of a value below ten.
pub open spec fn digit_char(d: nat) -> char {
    seq!['0', '1', '2', '3', '4', '5', '6', '7', '8', '9'][d as int]
}

/// `n` in decimal, without leading zeros.
pub open spec fn decimal(n: nat) -> Seq<char>
    decreases n,
{
    if n < 10 {
        seq![digit_char(n)]
    } else {
        decimal(n / 10).push(digit_char(n % 10))
    }
}

/// The value of a decimal digit, or `None` for any other character.
pub open spec fn digit_of(c: char) -> Option<nat> {
    if '0' <= c && c <= '9' {
        Some((c as u32 - '0' as u32) as nat)
    } else {
        None
    }
}

/// Whether `s` is made of decimal digits only.
pub open spec fn all_digits(s: Seq<char>) -> bool {
    forall|i: int| 0 <= i < s.len() ==> (#[trigger] digit_of(s[i])) is Some
}

/// The value of a sequence of decimal digits.
pub open spec fn digits_value(s: Seq<char>) -> nat
    decreases s.len(),
{
    if s.len() == 0 {
        0
    } else {
        10 * digits_value(s.drop_last()) + digit_of(s.last()).unwrap()
    }
}

/// The number that `s` writes: one or more decimal digits, which a plus
/// sign may precede. Any other text writes no number.
pub open spec fn number_of(s: Seq<char>) -> Option<nat> {
    let digits = if s.len() > 0 && s[0] == '+' {
        s.skip(1)
    } else {
        s
    };
    if digits.len() > 0 && all_digits(digits) {
        Some(digits_value(digits))
    } else {
        None
    }
}

/// The entry that a client picks from a list of `count` entries, counted
/// from zero: the selection, without the whitespace around it, writes a
/// number from one to `count`.
pub open spec fn selected(selection: Seq<char>, count: nat) -> Option<nat> {
    match number_of(trim(selection)) {
        Some(n) => if 1 <= n <= count {
            Some((n - 1) as nat)
        } else {
            None
        },
        None => None,
    }
}

/// The address and the name that a relay registers with. The request has
/// at least three words: the second is the address, and the words from the
/// third on, joined by single spaces, are the name. A shorter request gives
/// the address `unknown` and the name `unnamed`.
pub open spec fn server_info_of(request: Seq<char>) -> (Seq<char>, Seq<char>) {
    let w = words(request);
    if w.len() < 3 {
        (unknown_address(), unnamed_server())
    } else {
        (w[1], join_words(w.skip(2)))
    }
}

/// The address of a relay that gave none: `unknown`.
pub open spec fn unknown_address() -> Seq<char> {
    seq!['u', 'n', 'k', 'n', 'o', 'w', 'n']
}

/// The name of a relay that gave none: `unnamed`.
pub open spec fn unnamed_server() -> Seq<char> {
    seq!['u', 'n', 'n', 'a', 'm', 'e', 'd']
}

/// Reads a relay's registration, `server <ip> <name>`, and gives the address
/// and the name.
pub fn get_server_info(request: &str) -> (r: (String, String))
    ensures
        (r.0@, r.1@) == server_info_of(request@),
{
    let parts = split_words(request);
    proof {
        reveal_strlit("unknown");
        reveal_strlit("unnamed");
        reveal_strlit(" ");
        assert("unknown"@ =~= unknown_address());
        assert("unnamed"@ =~= unnamed_server());
        assert(parts@.len() == texts(parts@).len());
    }
    let n: usize = parts.len();
    if n < 3 {
        return ("unknown".to_owned(), "unnamed".to_owned());
    }
    let ghost w = words(request@);
    let address = parts[1].clone();
    let mut name = parts[2].clone();
    let mut i: usize = 3;
    proof {
        assert(texts(parts@)[1] == parts@[1]@);
        assert(texts(parts@)[2] == parts@[2]@);
        assert(w.skip(2).take(1) =~= seq![w[2]]);
        assert(join_words(seq![w[2]]) == w[2]);
    }
    while i < n
        invariant
            n == parts.len(),
            3 <= i <= n,
            w == texts(parts@),
            " "@ == seq![' '],
            name@ == join_words(w.skip(2).take(i - 2)),
        decreases n - i,
    {
        proof {
            let done = w.skip(2).take(i - 2);
            let next = w.skip(2).take(i - 1);
            assert(next.drop_last() =~= done);
            assert(next.last() == w[i as int]);
            assert(texts(parts@)[i as int] == parts@[i as int]@);
        }
        name.append(" ");
        name.append(parts[i].as_str());
        i += 1;
    }
    proof {
        assert(w.skip(2).take(n - 2) =~= w.skip(2));
    }
    (address, name)
}

/// The port on which every relay listens.
pub open spec fn relay_port() -> Seq<char> {
    seq!['8', '0', '8', '1']
}

/// What the lobby answers to a selection that picks no relay.
pub open spec fn invalid_selection_text() -> Seq<char> {
    "Invalid selection. Please restart and choose a valid server.\n"@
}

/// The line that the lobby sends in place of the list where no relay has
/// registered.
pub open spec fn no_servers_text() -> Seq<char> {
    "No servers available.\n"@
}

/// The `(address, name)` pairs that a list of relays holds.
pub open spec fn catalog(list: Seq<(String, String)>) -> Seq<(Seq<char>, Seq<char>)> {
    Seq::new(list.len(), |i: int| (list[i].0@, list[i].1@))
}

/// One line of the list: the number, a full stop and a space, the relay's
/// name, a hyphen between spaces, the relay's address, and a line feed.
pub open spec fn list_entry(number: nat, address: Seq<char>, name: Seq<char>) -> Seq<char> {
    decimal(number) + seq!['.', ' '] + name + seq![' ', '-', ' '] + address + seq!['\n']
}

/// The lines of the list, numbered from one.
pub open spec fn list_entries(list: Seq<(Seq<char>, Seq<char>)>) -> Seq<char>
    decreases list.len(),
{
    if list.len() == 0 {
        Seq::empty()
    } else {
        list_entries(list.drop_last()) + list_entry(list.len(), list.last().0, list.last().1)
    }
}

/// What the lobby sends to a client that asks for the relays: the numbered
/// list, or a line that says that there are none, and then an empty line,
/// which tells the client that the list has ended.
pub open spec fn server_list_text(list: Seq<(Seq<char>, Seq<char>)>) -> Seq<char> {
    if list.len() == 0 {
        no_servers_text() + seq!['\n']
    } else {
        list_entries(list) + seq!['\n']
    }
}

/// Whether `text` ends with an empty line: with a line feed that ends a
/// line, and one more after it.
pub open spec fn ends_with_empty_line(text: Seq<char>) -> bool {
    text.len() >= 2 && text[text.len() - 2] == '\n' && text[text.len() - 1] == '\n'
}

/// Whatever relays have registered, what the lobby sends to a client ends
/// with an empty line, so that a client that reads up to it does not wait
/// for more.
pub proof fn lemma_server_list_ends_with_empty_line(list: Seq<(Seq<char>, Seq<char>)>)
    ensures
        ends_with_empty_line(server_list_text(list)),
{
    let text = server_list_text(list);
    if list.len() == 0 {
        reveal_strlit("No servers available.\n");
        let line = no_servers_text();
        assert(line.len() == 22);
        assert(line[21] == '\n');
        assert(text[text.len() - 2] == line[21]);
    } else {
        let before = list_entries(list.drop_last());
        let entry = list_entry(list.len(), list.last().0, list.last().1);
        let entries = list_entries(list);
        assert(entries == before + entry);
        assert(entry[entry.len() - 1] == '\n');
        assert(entries[entries.len() - 1] == entry[entry.len() - 1]);
        assert(text[text.len() - 2] == entries[entries.len() - 1]);
    }
}

/// What the lobby answers to a client's selection: the address of the
/// picked relay with the relays' port, or a line that says that the
/// selection picks none.
pub open spec fn selection_reply(selection: Seq<char>, list: Seq<(Seq<char>, Seq<char>)>) -> Seq<
    char,
> {
    match selected(selection, list.len()) {
        Some(i) => list[i as int].0 + seq![':'] + relay_port() + seq!['\n'],
        None => invalid_selection_text(),
    }
}

/// The value of digits does not shrink when more digits follow.
pub proof fn lemma_digits_value_grows(s: Seq<char>, k: int)
    requires
        0 <= k <= s.len(),
    ensures
        digits_value(s.take(k)) <= digits_value(s),
    decreases s.len() - k,
{
    if k < s.len() {
        lemma_digits_value_grows(s, k + 1);
        assert(s.take(k + 1).drop_last() =~= s.take(k));
    } else {
        assert(s.take(k) =~= s);
    }
}

/// The text of one decimal digit.
fn digit_text(d: usize) -> (r: &'static str)
    requires
        d < 10,
    ensures
        r@ == seq![digit_char(d as nat)],
{
    proof {
        reveal_strlit("0");
        reveal_strlit("1");
        reveal_strlit("2");
        reveal_strlit("3");
        reveal_strlit("4");
        reveal_strlit("5");
        reveal_strlit("6");
        reveal_strlit("7");
        reveal_strlit("8");
        reveal_strlit("9");
    }
    let r = if d == 0 {
        "0"
    } else if d == 1 {
        "1"
    } else if d == 2 {
        "2"
    } else if d == 3 {
        "3"
    } else if d == 4 {
        "4"
    } else if d == 5 {
        "5"
    } else if d == 6 {
        "6"
    } else if d == 7 {
        "7"
    } else if d == 8 {
        "8"
    } else {
        "9"
    };
    assert(r@ =~= seq![digit_char(d as nat)]);
    r
}

/// `n` in decimal.
pub fn to_decimal(n: usize) -> (r: String)
    ensures
        r@ == decimal(n as nat),
    decreases n,
{
    if n < 10 {
        digit_text(n).to_owned()
    } else {
        let mut r = to_decimal(n / 10);
        r.append(digit_text(n % 10));
        r
    }
}

/// Reads a client's selection from a list of `count` entries and gives the
/// position of the picked entry, counted from zero.
pub fn parse_selection(selection: &str, count: usize) -> (r: Option<usize>)
    ensures
        match r {
            Some(i) => selected(selection@, count as nat) == Some(i as nat),
            None => selected(selection@, count as nat) is None,
        },
{
    let v = to_chars(selection);
    let (a, b) = trim_bounds(&v);
    let ghost text = trim(selection@);
    let start: usize = if a < b && v[a] == '+' {
        a + 1
    } else {
        a
    };
    let ghost digits = if text.len() > 0 && text[0] == '+' {
        text.skip(1)
    } else {
        text
    };
    assert(digits =~= v@.subrange(start as int, b as int));
    if start == b {
        return None;
    }
    let mut value: usize = 0;
    let mut i: usize = start;
    while i < b
        invariant
            start <= i <= b <= v.len(),
            start < b,
            text == trim(selection@),
            digits == if text.len() > 0 && text[0] == '+' {
                text.skip(1)
            } else {
                text
            },
            digits == v@.subrange(start as int, b as int),
            all_digits(digits.take(i - start)),
            value == digits_value(digits.take(i - start)),
            value <= count,
        decreases b - i,
    {
        let c = v[i];
        let ghost seen = digits.take(i - start);
        let ghost more = digits.take(i - start + 1);
        proof {
            assert(more.drop_last() =~= seen);
            assert(more.last() == c);
            assert(digits[i - start] == c);
        }
        if !(c >= '0' && c <= '9') {
            proof {
                assert(digit_of(digits[i - start]) is None);
            }
            return None;
        }
        let d: u128 = (c as u32 - '0' as u32) as u128;
        let next: u128 = (value as u128) * 10 + d;
        proof {
            assert(digit_of(c) == Some(d as nat));
            assert(digits_value(more) == next);
        }
        if next > count as u128 {
            proof {
                lemma_digits_value_grows(digits, i - start + 1);
            }
            return None;
        }
        proof {
            assert forall|j: int| 0 <= j < more.len() implies (#[trigger] digit_of(
                more[j],
            )) is Some by {
                if j < seen.len() {
                    assert(more[j] == seen[j]);
                }
            }
        }
        value = next as usize;
        i += 1;
    }
    proof {
        assert(digits.take(b - start) =~= digits);
    }
    if value >= 1 {
        Some(value - 1)
    } else {
        None
    }
}

/// The relays that have registered with the lobby.
pub struct Lobby {
    servers: NameTable<String>,
}

impl Lobby {
    /// The registered relays as `(address, name)` pairs, in order of first
    /// registration.
    pub closed spec fn relays(&self) -> Seq<(Seq<char>, Seq<char>)> {
        viewed(self.servers.pairs())
    }

    /// No address is registered twice.
    pub open spec fn wf(&self) -> bool {
        distinct_names(self.relays())
    }

    /// A lobby without relays.
    pub fn new() -> (r: Self)
        ensures
            r.wf(),
            r.relays().len() == 0,
    {
        Lobby { servers: NameTable::new() }
    }

    /// Registers a relay by its address. A relay that registers again under
    /// the same address takes the new name and keeps its place.
    pub fn add_server(&mut self, ip: String, name: String)
        requires
            old(self).wf(),
        ensures
            final(self).wf(),
            final(self).relays() == with(old(self).relays(), ip@, name@),
    {
        proof {
            lemma_relays_wf(self.servers.pairs());
            crate::table::lemma_with(self.servers.pairs(), ip@, name);
            crate::table::lemma_with(self.relays(), ip@, name@);
            lemma_relays_with(self.servers.pairs(), ip@, name);
        }
        self.servers.insert(ip, name);
    }

    /// The registered relays as `(address, name)` pairs, in order of first
    /// registration.
    pub fn server_list(&self) -> (r: Vec<(String, String)>)
        ensures
            catalog(r@) == self.relays(),
    {
        let n: usize = self.servers.len();
        let mut r: Vec<(String, String)> = Vec::new();
        let mut i: usize = 0;
        while i < n
            invariant
                n == self.servers.pairs().len(),
                i <= n,
                r@.len() == i,
                forall|j: int|
                    0 <= j < i ==> (#[trigger] r@[j]).0@ == self.servers.pairs()[j].0 && r@[j].1@
                        == self.servers.pairs()[j].1@,
            decreases n - i,
        {
            r.push((self.servers.name_at(i).clone(), self.servers.value_at(i).clone()));
            i += 1;
        }
        assert(catalog(r@) =~= self.relays());
        r
    }
}

/// The pairs of a table of names, with each name viewed as text.
pub open spec fn viewed(pairs: Seq<(Seq<char>, String)>) -> Seq<(Seq<char>, Seq<char>)> {
    Seq::new(pairs.len(), |i: int| (pairs[i].0, pairs[i].1@))
}

/// Viewing the names as text keeps the addresses as they are.
pub proof fn lemma_relays_wf(pairs: Seq<(Seq<char>, String)>)
    ensures
        distinct_names(viewed(pairs)) == distinct_names(pairs),
        forall|ip: Seq<char>|
            crate::table::holds(viewed(pairs), ip) == crate::table::holds(pairs, ip),
{
    let v = viewed(pairs);
    if distinct_names(pairs) {
        assert forall|i: int, j: int| 0 <= i < j < v.len() implies (#[trigger] v[i]).0 != (
        #[trigger] v[j]).0 by {
            assert(pairs[i].0 != pairs[j].0);
        }
    }
    if distinct_names(v) {
        assert forall|i: int, j: int| 0 <= i < j < pairs.len() implies (#[trigger] pairs[i]).0 != (
        #[trigger] pairs[j]).0 by {
            assert(v[i].0 != v[j].0);
        }
    }
    assert forall|ip: Seq<char>| crate::table::holds(v, ip) == crate::table::holds(pairs, ip) by {
        if crate::table::holds(v, ip) {
            let i = crate::table::place(v, ip);
            assert(pairs[i].0 == ip);
        }
        if crate::table::holds(pairs, ip) {
            let i = crate::table::place(pairs, ip);
            assert(v[i].0 == ip);
        }
    }
}

/// Viewing the names as text commutes with giving an address a name.
pub proof fn lemma_relays_with(pairs: Seq<(Seq<char>, String)>, ip: Seq<char>, name: String)
    requires
        distinct_names(pairs),
    ensures
        viewed(with(pairs, ip, name)) == with(viewed(pairs), ip, name@),
{
    lemma_relays_wf(pairs);
    let v = viewed(pairs);
    if crate::table::holds(pairs, ip) {
        let i = crate::table::place(pairs, ip);
        crate::table::lemma_place_unique(pairs, i);
        assert(v[i].0 == ip);
        crate::table::lemma_place_unique(v, i);
    }
    assert(viewed(with(pairs, ip, name)) =~= with(v, ip, name@));
}

/// Writes the list that the lobby sends to a client. It ends with an empty
/// line, whether there are relays or not.
pub fn format_server_list(list: &Vec<(String, String)>) -> (r: String)
    ensures
        r@ == server_list_text(catalog(list@)),
        ends_with_empty_line(r@),
{
    let n: usize = list.len();
    proof {
        lemma_server_list_ends_with_empty_line(catalog(list@));
        reveal_strlit(". ");
        reveal_strlit(" - ");
        reveal_strlit("\n");
        assert(". "@ =~= seq!['.', ' ']);
        assert(" - "@ =~= seq![' ', '-', ' ']);
        assert("\n"@ =~= seq!['\n']);
    }
    if n == 0 {
        let mut r = "No servers available.\n".to_owned();
        r.append("\n");
        return r;
    }
    let mut r = String::new();
    let mut i: usize = 0;
    while i < n
        invariant
            n == list.len(),
            i <= n,
            ". "@ == seq!['.', ' '],
            " - "@ == seq![' ', '-', ' '],
            "\n"@ == seq!['\n'],
            r@ == list_entries(catalog(list@).take(i as int)),
        decreases n - i,
    {
        proof {
            let done = catalog(list@).take(i as int);
            let next = catalog(list@).take(i + 1);
            assert(next.drop_last() =~= done);
            assert(next.last() == catalog(list@)[i as int]);
        }
        let number = to_decimal(i + 1);
        r.append(number.as_str());
        r.append(". ");
        r.append(list[i].1.as_str());
        r.append(" - ");
        r.append(list[i].0.as_str());
        r.append("\n");
        proof {
            let next = catalog(list@).take(i + 1);
            assert(r@ =~= list_entries(next.drop_last()) + list_entry(
                next.len(),
                next.last().0,
                next.last().1,
            ));
        }
        i += 1;
    }
    proof {
        assert(catalog(list@).take(n as int) =~= catalog(list@));
    }
    r.append("\n");
    r
}

/// Answers a client's selection from the list that it was sent.
pub fn reply_to_selection(selection: &str, list: &Vec<(String, String)>) -> (r: String)
    ensures
        r@ == selection_reply(selection@, catalog(list@)),
{
    match parse_selection(selection, list.len()) {
        Some(i) => {
            proof {
                reveal_strlit(":8081\n");
                assert(":8081\n"@ =~= seq![':'] + relay_port() + seq!['\n']);
            }
            let mut r = list[i].0.clone();
            r.append(":8081\n");
            assert(r@ =~= catalog(list@)[i as int].0 + seq![':'] + relay_port() + seq!['\n']);
            r
        },
        None => "Invalid selection. Please restart and choose a valid server.\n".to_owned(),
    }
}

/// What a connection asks of the lobby with its first line.
#[derive(Clone, Copy, Debug, PartialEq, Eq, Structural)]
pub enum Request {
    /// A relay registers.
    Register,
    /// A client asks for the list of relays.
    List,
    /// Neither: the lobby does nothing.
    Unknown,
}

/// What a relay's registration begins with: `server`.
pub open spec fn server_tag() -> Seq<char> {
    seq!['s', 'e', 'r', 'v', 'e', 'r']
}

/// What a first line asks of the lobby, by what it begins with.
pub open spec fn request_kind(request: Seq<char>) -> Request {
    if has_prefix(request, server_tag()) {
        Request::Register
    } else if has_prefix(request, client_tag()) {
        Request::List
    } else {
        Request::Unknown
    }
}

/// Tells a relay's registration from a client's request.
pub fn classify_request(request: &str) -> (r: Request)
    ensures
        r == request_kind(request@),
{
    let v = to_chars(request);
    proof {
        reveal_strlit("server");
        reveal_strlit("client");
        assert("server"@ =~= server_tag());
        assert("client"@ =~= client_tag());
    }
    if starts_with(&v, "server") {
        Request::Register
    } else if starts_with(&v, "client") {
        Request::List
    } else {
        Request::Unknown
    }
}

impl Lobby {
    /// Takes a relay's registration: the relay is listed under the address
    /// and the name that the request gives.
    pub fn register(&mut self, request: &str)
        requires
            old(self).wf(),
        ensures
            final(self).wf(),
            final(self).relays() == with(
                old(self).relays(),
                server_info_of(request@).0,
                server_info_of(request@).1,
            ),
    {
        let (ip, name) = get_server_info(request);
        self.add_server(ip, name);
    }
}

} // verus!
