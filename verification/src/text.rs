//! Whitespace, trimming and word splitting on sequences of characters.
//!
//! Every line parser of the crate is stated over these functions, so that
//! "surrounding whitespace" and "a word" mean one thing throughout.

use vstd::prelude::*;

verus! {

/// Whether `c` carries the Unicode property `White_Space`.
pub open spec fn is_whitespace(c: char) -> bool {
    ('\u{9}' <= c && c <= '\u{d}') || c == ' ' || c == '\u{85}' || c == '\u{a0}' || c
        == '\u{1680}' || ('\u{2000}' <= c && c <= '\u{200a}') || c == '\u{2028}' || c
        == '\u{2029}' || c == '\u{202f}' || c == '\u{205f}' || c == '\u{3000}'
}

/// How many characters at the front of `s` are whitespace.
pub open spec fn leading_whitespace(s: Seq<char>) -> nat
    decreases s.len(),
{
    if s.len() > 0 && is_whitespace(s[0]) {
        1 + leading_whitespace(s.drop_first())
    } else {
        0
    }
}

/// How many characters at the back of `s` are whitespace.
pub open spec fn trailing_whitespace(s: Seq<char>) -> nat
    decreases s.len(),
{
    if s.len() > 0 && is_whitespace(s.last()) {
        1 + trailing_whitespace(s.drop_last())
    } else {
        0
    }
}

/// How many characters at the front of `s` are not whitespace.
pub open spec fn word_len(s: Seq<char>) -> nat
    decreases s.len(),
{
    if s.len() > 0 && !is_whitespace(s[0]) {
        1 + word_len(s.drop_first())
    } else {
        0
    }
}

/// `s` without its leading whitespace.
pub open spec fn trim_start(s: Seq<char>) -> Seq<char> {
    s.skip(leading_whitespace(s) as int)
}

/// `s` without its trailing whitespace.
pub open spec fn trim_end(s: Seq<char>) -> Seq<char> {
    s.take(s.len() - trailing_whitespace(s))
}

/// `s` without its leading and trailing whitespace.
pub open spec fn trim(s: Seq<char>) -> Seq<char> {
    trim_end(trim_start(s))
}

/// The maximal runs of non-whitespace characters of `s`, in order.
pub open spec fn words(s: Seq<char>) -> Seq<Seq<char>>
    decreases s.len(),
{
    if s.len() == 0 {
        Seq::empty()
    } else if is_whitespace(s[0]) {
        words(s.drop_first())
    } else {
        proof {
            lemma_word_len_bounds(s);
        }
        seq![s.take(word_len(s) as int)] + words(s.skip(word_len(s) as int))
    }
}

/// `ws` joined by single spaces.
pub open spec fn join_words(ws: Seq<Seq<char>>) -> Seq<char>
    decreases ws.len(),
{
    if ws.len() == 0 {
        Seq::empty()
    } else if ws.len() == 1 {
        ws[0]
    } else {
        join_words(ws.drop_last()) + seq![' '] + ws.last()
    }
}

/// Whether `s` begins with `prefix`.
pub open spec fn has_prefix(s: Seq<char>, prefix: Seq<char>) -> bool {
    prefix.len() <= s.len() && s.take(prefix.len() as int) == prefix
}

/// A prefix of whitespace that ends at a non-whitespace character, or at the
/// end of `s`, is all the leading whitespace that `s` has.
pub proof fn lemma_leading_whitespace_is(s: Seq<char>, n: int)
    requires
        0 <= n <= s.len(),
        forall|i: int| 0 <= i < n ==> is_whitespace(#[trigger] s[i]),
        n < s.len() ==> !is_whitespace(s[n]),
    ensures
        leading_whitespace(s) == n,
    decreases s.len(),
{
    if n > 0 {
        let t = s.drop_first();
        assert(is_whitespace(s[0]));
        assert forall|i: int| 0 <= i < n - 1 implies is_whitespace(#[trigger] t[i]) by {
            assert(t[i] == s[i + 1]);
        }
        lemma_leading_whitespace_is(t, n - 1);
    }
}

/// The trailing whitespace of `s` is a run of whitespace at its end, and the
/// character before the run, if there is one, is not whitespace.
pub proof fn lemma_trailing_whitespace_bounds(s: Seq<char>)
    ensures
        trailing_whitespace(s) <= s.len(),
        forall|i: int|
            s.len() - trailing_whitespace(s) <= i < s.len() ==> is_whitespace(#[trigger] s[i]),
        trailing_whitespace(s) < s.len() ==> !is_whitespace(
            s[s.len() - trailing_whitespace(s) - 1],
        ),
    decreases s.len(),
{
    if s.len() > 0 && is_whitespace(s.last()) {
        let t = s.drop_last();
        lemma_trailing_whitespace_bounds(t);
        assert forall|i: int| s.len() - trailing_whitespace(s) <= i < s.len() implies is_whitespace(
            #[trigger] s[i],
        ) by {
            if i < s.len() - 1 {
                assert(s[i] == t[i]);
            }
        }
        if trailing_whitespace(s) < s.len() {
            assert(s[s.len() - trailing_whitespace(s) - 1] == t[t.len() - trailing_whitespace(t)
                - 1]);
        }
    }
}

/// A suffix of whitespace that starts after a non-whitespace character, or at
/// the start of `s`, is all the trailing whitespace that `s` has.
pub proof fn lemma_trailing_whitespace_is(s: Seq<char>, n: int)
    requires
        0 <= n <= s.len(),
        forall|i: int| s.len() - n <= i < s.len() ==> is_whitespace(#[trigger] s[i]),
        n < s.len() ==> !is_whitespace(s[s.len() - n - 1]),
    ensures
        trailing_whitespace(s) == n,
    decreases s.len(),
{
    if n > 0 {
        let t = s.drop_last();
        assert(is_whitespace(s[s.len() - 1]));
        assert forall|i: int| t.len() - (n - 1) <= i < t.len() implies is_whitespace(
            #[trigger] t[i],
        ) by {
            assert(t[i] == s[i]);
        }
        if n - 1 < t.len() {
            assert(t[t.len() - (n - 1) - 1] == s[s.len() - n - 1]);
        }
        lemma_trailing_whitespace_is(t, n - 1);
    }
}

/// The first `word_len(s)` characters of `s` are not whitespace, and the
/// character after them, if there is one, is.
pub proof fn lemma_word_len_bounds(s: Seq<char>)
    ensures
        word_len(s) <= s.len(),
        forall|i: int| 0 <= i < word_len(s) ==> !is_whitespace(#[trigger] s[i]),
        word_len(s) < s.len() ==> is_whitespace(s[word_len(s) as int]),
    decreases s.len(),
{
    if s.len() > 0 && !is_whitespace(s[0]) {
        let t = s.drop_first();
        lemma_word_len_bounds(t);
        assert forall|i: int| 0 <= i < word_len(s) implies !is_whitespace(#[trigger] s[i]) by {
            if i > 0 {
                assert(s[i] == t[i - 1]);
            }
        }
        if word_len(s) < s.len() {
            assert(s[word_len(s) as int] == t[word_len(t) as int]);
        }
    }
}

/// A prefix without whitespace that ends at a whitespace character, or at the
/// end of `s`, is the first word of `s`.
pub proof fn lemma_word_len_is(s: Seq<char>, n: int)
    requires
        0 <= n <= s.len(),
        forall|i: int| 0 <= i < n ==> !is_whitespace(#[trigger] s[i]),
        n < s.len() ==> is_whitespace(s[n]),
    ensures
        word_len(s) == n,
    decreases s.len(),
{
    if n > 0 {
        let t = s.drop_first();
        assert(!is_whitespace(s[0]));
        assert forall|i: int| 0 <= i < n - 1 implies !is_whitespace(#[trigger] t[i]) by {
            assert(t[i] == s[i + 1]);
        }
        lemma_word_len_is(t, n - 1);
    }
}

/// Text that neither begins nor ends with whitespace is its own trimmed
/// text.
pub proof fn lemma_trim_unchanged(s: Seq<char>)
    requires
        s.len() > 0 ==> !is_whitespace(s[0]) && !is_whitespace(s.last()),
    ensures
        trim(s) == s,
{
    lemma_leading_whitespace_is(s, 0);
    assert(trim_start(s) =~= s);
    lemma_trailing_whitespace_is(s, 0);
    assert(trim(s) =~= s);
}

/// Trimmed text neither begins nor ends with whitespace, so that it has no
/// whitespace left to trim.
pub proof fn lemma_trim_is_trimmed(s: Seq<char>)
    ensures
        trim(s).len() > 0 ==> !is_whitespace(trim(s)[0]) && !is_whitespace(trim(s).last()),
        trim(trim(s)) == trim(s),
{
    let t = trim(s);
    let front = trim_start(s);
    lemma_leading_whitespace_shape(s);
    lemma_trailing_whitespace_bounds(front);
    if t.len() > 0 {
        assert(t[0] == front[0]);
        assert(front[0] == s[leading_whitespace(s) as int]);
        assert(t.last() == front[front.len() - trailing_whitespace(front) - 1]);
    }
    lemma_trim_unchanged(t);
}

/// The leading whitespace of `s` is a run of whitespace at its start, and
/// the character after the run, if there is one, is not whitespace.
pub proof fn lemma_leading_whitespace_shape(s: Seq<char>)
    ensures
        leading_whitespace(s) <= s.len(),
        forall|i: int| 0 <= i < leading_whitespace(s) ==> is_whitespace(#[trigger] s[i]),
        leading_whitespace(s) < s.len() ==> !is_whitespace(s[leading_whitespace(s) as int]),
    decreases s.len(),
{
    if s.len() > 0 && is_whitespace(s[0]) {
        let t = s.drop_first();
        lemma_leading_whitespace_shape(t);
        assert forall|i: int| 0 <= i < leading_whitespace(s) implies is_whitespace(
            #[trigger] s[i],
        ) by {
            if i > 0 {
                assert(s[i] == t[i - 1]);
            }
        }
        if leading_whitespace(s) < s.len() {
            assert(s[leading_whitespace(s) as int] == t[leading_whitespace(t) as int]);
        }
    }
}

/// Text that begins with a character that is not whitespace keeps all that
/// stands before its trailing whitespace when it is trimmed.
pub proof fn lemma_trim_keeps_front(s: Seq<char>)
    requires
        s.len() > 0,
        !is_whitespace(s[0]),
    ensures
        trim(s) == trim_end(s),
        trailing_whitespace(s) < s.len(),
{
    lemma_leading_whitespace_is(s, 0);
    assert(trim_start(s) =~= s);
    lemma_trailing_whitespace_bounds(s);
    if trailing_whitespace(s) == s.len() {
        assert(is_whitespace(s[0]));
    }
}

/// The trailing whitespace of a text is that of its last part, where that
/// part holds a character that is not whitespace.
pub proof fn lemma_trailing_whitespace_of_tail(front: Seq<char>, tail: Seq<char>)
    requires
        trailing_whitespace(tail) < tail.len(),
    ensures
        trailing_whitespace(front + tail) == trailing_whitespace(tail),
        trim_end(front + tail) == front + trim_end(tail),
{
    let s = front + tail;
    let n = trailing_whitespace(tail) as int;
    lemma_trailing_whitespace_bounds(tail);
    assert forall|i: int| s.len() - n <= i < s.len() implies is_whitespace(#[trigger] s[i]) by {
        assert(s[i] == tail[i - front.len()]);
    }
    assert(s[s.len() - n - 1] == tail[tail.len() - n - 1]);
    lemma_trailing_whitespace_is(s, n);
    assert(trim_end(s) =~= front + trim_end(tail));
}

/// A run of characters that are not whitespace, followed by nothing or by
/// whitespace, is the first word of the text.
pub proof fn lemma_words_after_word(word: Seq<char>, rest: Seq<char>)
    requires
        word.len() > 0,
        forall|i: int| 0 <= i < word.len() ==> !is_whitespace(#[trigger] word[i]),
        rest.len() > 0 ==> is_whitespace(rest[0]),
    ensures
        words(word + rest) == seq![word] + words(rest),
{
    let s = word + rest;
    assert forall|i: int| 0 <= i < word.len() implies !is_whitespace(#[trigger] s[i]) by {
        assert(s[i] == word[i]);
    }
    if word.len() < s.len() {
        assert(s[word.len() as int] == rest[0]);
    }
    lemma_word_len_is(s, word.len() as int);
    assert(s.take(word.len() as int) =~= word);
    assert(s.skip(word.len() as int) =~= rest);
}

/// Whitespace in front of a text adds no word.
pub proof fn lemma_words_after_space(c: char, rest: Seq<char>)
    requires
        is_whitespace(c),
    ensures
        words(seq![c] + rest) == words(rest),
{
    let s = seq![c] + rest;
    assert(s.drop_first() =~= rest);
}

/// The texts that a sequence of strings holds.
pub open spec fn texts(v: Seq<String>) -> Seq<Seq<char>> {
    Seq::new(v.len(), |i: int| v[i]@)
}

/// Tests a character for the Unicode property `White_Space`.
pub fn whitespace(c: char) -> (r: bool)
    ensures
        r == is_whitespace(c),
{
    (c >= '\u{9}' && c <= '\u{d}') || c == ' ' || c == '\u{85}' || c == '\u{a0}' || c
        == '\u{1680}' || (c >= '\u{2000}' && c <= '\u{200a}') || c == '\u{2028}' || c
        == '\u{2029}' || c == '\u{202f}' || c == '\u{205f}' || c == '\u{3000}'
}

/// The characters of `s`, one element each.
pub fn to_chars(s: &str) -> (v: Vec<char>)
    ensures
        v@ == s@,
{
    let mut v: Vec<char> = Vec::new();
    for c in it: s.chars()
        invariant
            it.seq() == s@,
            v.len() == it.index(),
            forall|j: int| 0 <= j < v.len() ==> v@[j] == it.seq()[j],
    {
        v.push(c);
    }
    assert(v@ =~= s@);
    v
}

/// Where the trimmed text of `v` starts and ends.
pub fn trim_bounds(v: &Vec<char>) -> (r: (usize, usize))
    ensures
        r.0 <= r.1 <= v.len(),
        v@.subrange(r.0 as int, r.1 as int) == trim(v@),
        r.0 == leading_whitespace(v@),
{
    let n: usize = v.len();
    let mut a: usize = 0;
    while a < n && whitespace(v[a])
        invariant
            n == v.len(),
            a <= n,
            forall|i: int| 0 <= i < a ==> is_whitespace(#[trigger] v@[i]),
        decreases n - a,
    {
        a += 1;
    }
    let mut b: usize = n;
    while b > a && whitespace(v[b - 1])
        invariant
            n == v.len(),
            a <= b <= n,
            forall|i: int| b <= i < n ==> is_whitespace(#[trigger] v@[i]),
        decreases b,
    {
        b -= 1;
    }
    proof {
        lemma_leading_whitespace_is(v@, a as int);
        let t = trim_start(v@);
        assert(t =~= v@.skip(a as int));
        assert forall|i: int| t.len() - (n - b) <= i < t.len() implies is_whitespace(
            #[trigger] t[i],
        ) by {
            assert(t[i] == v@[i + a]);
        }
        if n - b < t.len() {
            assert(t[t.len() - (n - b) - 1] == v@[b - 1]);
        }
        lemma_trailing_whitespace_is(t, n - b);
        assert(v@.subrange(a as int, b as int) =~= trim(v@));
    }
    (a, b)
}

/// `s` without the whitespace around it.
pub fn trimmed(s: &str) -> (r: String)
    ensures
        r@ == trim(s@),
{
    let v = to_chars(s);
    let (a, b) = trim_bounds(&v);
    s.substring_char(a, b).to_owned()
}

/// Whether the characters `v` begin with `prefix`.
pub fn starts_with(v: &Vec<char>, prefix: &str) -> (r: bool)
    ensures
        r == has_prefix(v@, prefix@),
{
    let p = to_chars(prefix);
    if p.len() > v.len() {
        return false;
    }
    let mut i: usize = 0;
    while i < p.len()
        invariant
            p@ == prefix@,
            p.len() <= v.len(),
            i <= p.len(),
            forall|j: int| 0 <= j < i ==> v@[j] == p@[j],
        decreases p.len() - i,
    {
        if v[i] != p[i] {
            proof {
                assert(v@.take(p.len() as int)[i as int] != p@[i as int]);
            }
            return false;
        }
        i += 1;
    }
    assert(v@.take(p.len() as int) =~= p@);
    true
}

/// The words of `s`: its maximal runs of characters that are not whitespace.
pub fn split_words(s: &str) -> (r: Vec<String>)
    ensures
        texts(r@) == words(s@),
{
    let v = to_chars(s);
    let n: usize = v.len();
    let mut r: Vec<String> = Vec::new();
    let mut i: usize = 0;
    proof {
        assert(s@.skip(0) =~= s@);
        assert(texts(r@) =~= Seq::<Seq<char>>::empty());
    }
    while i < n
        invariant
            v@ == s@,
            n == v.len(),
            i <= n,
            words(s@) == texts(r@) + words(s@.skip(i as int)),
        decreases n - i,
    {
        let ghost rest = s@.skip(i as int);
        if whitespace(v[i]) {
            proof {
                assert(rest.drop_first() =~= s@.skip(i + 1));
            }
            i += 1;
        } else {
            let mut j: usize = i + 1;
            while j < n && !whitespace(v[j])
                invariant
                    v@ == s@,
                    n == v.len(),
                    i < j <= n,
                    forall|k: int| i <= k < j ==> !is_whitespace(#[trigger] v@[k]),
                decreases n - j,
            {
                j += 1;
            }
            let word = s.substring_char(i, j).to_owned();
            proof {
                assert forall|k: int| 0 <= k < j - i implies !is_whitespace(
                    #[trigger] rest[k],
                ) by {
                    assert(rest[k] == v@[i + k]);
                }
                lemma_word_len_is(rest, j - i);
                assert(rest.take(j - i) =~= word@);
                assert(rest.skip(j - i) =~= s@.skip(j as int));
                assert(texts(r@.push(word)) =~= texts(r@) + seq![word@]);
            }
            r.push(word);
            i = j;
        }
    }
    proof {
        assert(words(s@.skip(n as int)) =~= Seq::<Seq<char>>::empty());
    }
    r
}

/// Whether `pattern` stands in `text` at position `i`.
pub open spec fn occurs_at(text: Seq<char>, pattern: Seq<char>, i: int) -> bool {
    0 <= i && i + pattern.len() <= text.len() && text.subrange(i, i + pattern.len()) == pattern
}

/// Whether `pattern` stands somewhere in `text`.
pub open spec fn occurs(text: Seq<char>, pattern: Seq<char>) -> bool {
    exists|i: int| occurs_at(text, pattern, i)
}

/// Whether `pattern` stands in `v` at position `i`.
fn matches_at(v: &Vec<char>, p: &Vec<char>, i: usize) -> (r: bool)
    requires
        i + p.len() <= v.len(),
    ensures
        r == occurs_at(v@, p@, i as int),
{
    let mut k: usize = 0;
    while k < p.len()
        invariant
            i + p.len() <= v.len(),
            k <= p.len(),
            forall|j: int| 0 <= j < k ==> v@[i + j] == p@[j],
        decreases p.len() - k,
    {
        if v[i + k] != p[k] {
            proof {
                assert(v@.subrange(i as int, i + p.len())[k as int] != p@[k as int]);
            }
            return false;
        }
        k += 1;
    }
    assert(v@.subrange(i as int, i + p.len()) =~= p@);
    true
}

/// Whether `pattern` stands somewhere in the characters `v`.
pub fn contains_text(v: &Vec<char>, pattern: &str) -> (r: bool)
    ensures
        r == occurs(v@, pattern@),
{
    let p = to_chars(pattern);
    if p.len() > v.len() {
        assert forall|i: int| !occurs_at(v@, pattern@, i) by {}
        return false;
    }
    let last: usize = v.len() - p.len();
    let mut i: usize = 0;
    loop
        invariant
            p@ == pattern@,
            p.len() <= v.len(),
            last == v.len() - p.len(),
            i <= last,
            forall|j: int| 0 <= j < i ==> !occurs_at(v@, pattern@, j),
        decreases last - i,
    {
        if matches_at(v, &p, i) {
            return true;
        }
        if i == last {
            assert forall|j: int| !occurs_at(v@, pattern@, j) by {}
            return false;
        }
        i += 1;
    }
}

} // verus!
