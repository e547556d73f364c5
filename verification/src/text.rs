//! Character-level text processing, specified over `Seq<char>`.
//!
//! Positions are counted in characters. A pattern that occurs in a string
//! starts at a character boundary of its UTF-8 encoding, so the first match
//! found by character is the first match that `str::find` reports by byte.

use vstd::prelude::*;

verus! {

broadcast use vstd::string::group_string_axioms;

// ---------------------------------------------------------------------------
// Specification
// ---------------------------------------------------------------------------

/// `p` occurs in `s` starting at position `i`.
pub open spec fn occurs_at(s: Seq<char>, p: Seq<char>, i: int) -> bool {
    0 <= i && i + p.len() <= s.len() && s.subrange(i, i + p.len()) == p
}

/// The first position at or after `k` where `p` occurs in `s`.
pub open spec fn find_from(s: Seq<char>, p: Seq<char>, k: int) -> Option<int>
    decreases s.len() + 1 - k,
{
    if k < 0 || k + p.len() > s.len() {
        None
    } else if occurs_at(s, p, k) {
        Some(k)
    } else {
        find_from(s, p, k + 1)
    }
}

/// The first position where `p` occurs in `s` (`str::find`).
pub open spec fn find(s: Seq<char>, p: Seq<char>) -> Option<int> {
    find_from(s, p, 0)
}

/// The pieces of `s[k..]` between the occurrences of a non-empty `p`
/// (`str::split` with a string pattern).
pub open spec fn split_from(s: Seq<char>, p: Seq<char>, k: int) -> Seq<Seq<char>>
    decreases s.len() - k,
{
    if p.len() == 0 || k < 0 || k > s.len() {
        seq![s.subrange(k, s.len() as int)]
    } else {
        match find_from(s, p, k) {
            Some(i) => {
                proof {
                    lemma_find_from(s, p, k);
                }
                seq![s.subrange(k, i)] + split_from(s, p, i + p.len())
            },
            None => seq![s.subrange(k, s.len() as int)],
        }
    }
}

/// `str::split(p)` for a non-empty pattern `p`.
pub open spec fn split(s: Seq<char>, p: Seq<char>) -> Seq<Seq<char>> {
    split_from(s, p, 0)
}

/// The text that follows the first occurrence of `start`, up to the first
/// occurrence of `end` after it; empty where either is missing.
pub open spec fn between(s: Seq<char>, start: Seq<char>, end: Seq<char>) -> Seq<char> {
    match find(s, start) {
        None => seq![],
        Some(i) => {
            let rest = s.subrange(i + start.len(), s.len() as int);
            match find(rest, end) {
                None => seq![],
                Some(j) => rest.subrange(0, j),
            }
        },
    }
}


/// A class of characters that trimming removes.
pub enum CharClass {
    /// The characters with the Unicode `White_Space` property (`char::is_whitespace`).
    Whitespace,
    /// One given character.
    Only(char),
}

/// `c` has the Unicode `White_Space` property, as `char::is_whitespace` tests.
pub open spec fn is_white(c: char) -> bool {
    ||| c == '\t'
    ||| c == '\n'
    ||| c == '\u{0B}'
    ||| c == '\u{0C}'
    ||| c == '\r'
    ||| c == ' '
    ||| c == '\u{85}'
    ||| c == '\u{A0}'
    ||| c == '\u{1680}'
    ||| ('\u{2000}' <= c && c <= '\u{200A}')
    ||| c == '\u{2028}'
    ||| c == '\u{2029}'
    ||| c == '\u{202F}'
    ||| c == '\u{205F}'
    ||| c == '\u{3000}'
}

pub open spec fn in_class(class: CharClass, c: char) -> bool {
    match class {
        CharClass::Whitespace => is_white(c),
        CharClass::Only(d) => c == d,
    }
}

/// `s` without its leading characters of `class`.
pub open spec fn drop_front(s: Seq<char>, class: CharClass) -> Seq<char>
    decreases s.len(),
{
    if s.len() > 0 && in_class(class, s[0]) {
        drop_front(s.drop_first(), class)
    } else {
        s
    }
}

/// `s` without its trailing characters of `class`.
pub open spec fn drop_back(s: Seq<char>, class: CharClass) -> Seq<char>
    decreases s.len(),
{
    if s.len() > 0 && in_class(class, s.last()) {
        drop_back(s.drop_last(), class)
    } else {
        s
    }
}

/// `str::trim`.
pub open spec fn trim(s: Seq<char>) -> Seq<char> {
    drop_back(drop_front(s, CharClass::Whitespace), CharClass::Whitespace)
}

/// `str::trim_matches(c)`.
pub open spec fn trim_char(s: Seq<char>, c: char) -> Seq<char> {
    drop_back(drop_front(s, CharClass::Only(c)), CharClass::Only(c))
}

/// `str::trim_end_matches(c)`.
pub open spec fn trim_end_char(s: Seq<char>, c: char) -> Seq<char> {
    drop_back(s, CharClass::Only(c))
}

pub open spec fn is_digit(c: char) -> bool {
    '0' <= c && c <= '9'
}

pub open spec fn digit_value(c: char) -> nat {
    (c as int - '0' as int) as nat
}

/// The number that the decimal digits `d` spell.
pub open spec fn digits_value(d: Seq<char>) -> nat
    decreases d.len(),
{
    if d.len() == 0 {
        0
    } else {
        digits_value(d.drop_last()) * 10 + digit_value(d.last())
    }
}

pub open spec fn all_digits(d: Seq<char>) -> bool {
    forall|i: int| 0 <= i < d.len() ==> is_digit(#[trigger] d[i])
}

/// `str::parse::<u32>`: an optional `+`, then one or more ASCII digits whose
/// value fits in a `u32`.
pub open spec fn parse_u32(s: Seq<char>) -> Option<u32> {
    let d = if s.len() > 0 && s[0] == '+' { s.drop_first() } else { s };
    if d.len() > 0 && all_digits(d) && digits_value(d) <= u32::MAX {
        Some(digits_value(d) as u32)
    } else {
        None
    }
}

pub open spec fn digit_char(d: nat) -> char {
    (d + '0' as nat) as char
}

/// The decimal digits of `n`, without leading zeros.
pub open spec fn decimal(n: nat) -> Seq<char>
    decreases n,
{
    if n < 10 {
        seq![digit_char(n)]
    } else {
        decimal(n / 10).push(digit_char(n % 10))
    }
}

/// `{:>02}` applied to `n`: its decimal digits, padded with `0` to two.
pub open spec fn two_digits(n: nat) -> Seq<char> {
    if n < 10 {
        seq!['0'].add(decimal(n))
    } else {
        decimal(n)
    }
}

/// The end of the run of non-whitespace characters that starts at `k`.
pub open spec fn word_end(s: Seq<char>, k: int) -> int
    decreases s.len() - k,
{
    if 0 <= k < s.len() && !is_white(s[k]) {
        word_end(s, k + 1)
    } else {
        k
    }
}

/// The words of `s[k..]`: its maximal runs of non-whitespace characters.
pub open spec fn words_from(s: Seq<char>, k: int) -> Seq<Seq<char>>
    decreases s.len() - k,
{
    if k < 0 || k >= s.len() {
        seq![]
    } else if is_white(s[k]) {
        words_from(s, k + 1)
    } else {
        proof {
            lemma_word_end(s, k);
        }
        seq![s.subrange(k, word_end(s, k))] + words_from(s, word_end(s, k))
    }
}

/// `str::split_whitespace`.
pub open spec fn words(s: Seq<char>) -> Seq<Seq<char>> {
    words_from(s, 0)
}

/// `s` without one trailing `'\r'`, if it has one.
pub open spec fn strip_cr(s: Seq<char>) -> Seq<char> {
    if s.len() > 0 && s.last() == '\r' {
        s.drop_last()
    } else {
        s
    }
}

/// `str::lines`: the pieces between `'\n'`, each without the `'\r'` of a
/// `"\r\n"` that ends it, and without an empty piece after a final `'\n'`.
pub open spec fn lines(s: Seq<char>) -> Seq<Seq<char>> {
    if s.len() == 0 {
        seq![]
    } else {
        let pieces = split(s, seq!['\n']);
        let n = pieces.len();
        let m = if pieces.last().len() == 0 { n - 1 } else { n as int };
        Seq::new(m as nat, |i: int| if i < n - 1 { strip_cr(pieces[i]) } else { pieces[i] })
    }
}

/// `s` with every `c` replaced by `r` (`str::replace` with a `char` pattern).
pub open spec fn replace_char(s: Seq<char>, c: char, r: Seq<char>) -> Seq<char>
    decreases s.len(),
{
    if s.len() == 0 {
        seq![]
    } else {
        replace_char(s.drop_last(), c, r) + (if s.last() == c { r } else { seq![s.last()] })
    }
}

/// The pieces joined with `sep` between them.
pub open spec fn join(pieces: Seq<Seq<char>>, sep: Seq<char>) -> Seq<char>
    decreases pieces.len(),
{
    if pieces.len() == 0 {
        seq![]
    } else if pieces.len() == 1 {
        pieces[0]
    } else {
        join(pieces.drop_last(), sep) + sep + pieces.last()
    }
}

/// `str::replace(p, r)` for a non-empty pattern `p`.
pub open spec fn replace(s: Seq<char>, p: Seq<char>, r: Seq<char>) -> Seq<char> {
    join(split(s, p), r)
}


/// The bytes that `c` takes in UTF-8 (`char::len_utf8`).
pub open spec fn utf8_width(c: char) -> nat {
    let u = c as u32;
    if u < 0x80 {
        1
    } else if u < 0x800 {
        2
    } else if u < 0x10000 {
        3
    } else {
        4
    }
}

/// The bytes that `s` takes in UTF-8.
pub open spec fn utf8_length(s: Seq<char>) -> nat
    decreases s.len(),
{
    if s.len() == 0 {
        0
    } else {
        utf8_length(s.drop_last()) + utf8_width(s.last())
    }
}

/// `text.get(0..n).unwrap_or(text)` for the text whose characters are `s`:
/// the characters that make up its first `n` bytes where they end on a
/// character boundary, else the whole text.
pub open spec fn byte_prefix(s: Seq<char>, n: nat) -> Seq<char> {
    if exists|k: int| 0 <= k <= s.len() && utf8_length(#[trigger] s.subrange(0, k)) == n {
        s.subrange(0, choose|k: int| 0 <= k <= s.len() && utf8_length(#[trigger] s.subrange(0, k)) == n)
    } else {
        s
    }
}

// ---------------------------------------------------------------------------
// Lemmas
// ---------------------------------------------------------------------------

/// What `find_from` returns: the first occurrence at or after `k`.
pub proof fn lemma_find_from(s: Seq<char>, p: Seq<char>, k: int)
    ensures
        find_from(s, p, k) matches Some(i) ==> {
            &&& k <= i
            &&& occurs_at(s, p, i)
            &&& forall|j: int| k <= j < i ==> !occurs_at(s, p, j)
        },
        find_from(s, p, k) is None && k >= 0 ==> forall|j: int| k <= j ==> !occurs_at(s, p, j),
    decreases s.len() + 1 - k,
{
    if k < 0 || k + p.len() > s.len() {
    } else if occurs_at(s, p, k) {
    } else {
        lemma_find_from(s, p, k + 1);
    }
}


pub proof fn lemma_word_end(s: Seq<char>, k: int)
    requires
        0 <= k <= s.len(),
    ensures
        k <= word_end(s, k) <= s.len(),
        0 <= k < s.len() && !is_white(s[k]) ==> k < word_end(s, k),
        forall|j: int| k <= j < word_end(s, k) ==> !is_white(#[trigger] s[j]),
        word_end(s, k) < s.len() ==> is_white(s[word_end(s, k)]),
    decreases s.len() - k,
{
    if 0 <= k < s.len() && !is_white(s[k]) {
        lemma_word_end(s, k + 1);
    }
}

/// A prefix of a digit string is worth at most the whole.
pub proof fn lemma_digits_value_prefix(d: Seq<char>, k: int)
    requires
        0 <= k <= d.len(),
    ensures
        digits_value(d.subrange(0, k)) <= digits_value(d),
    decreases d.len() - k,
{
    if k < d.len() {
        lemma_digits_value_prefix(d, k + 1);
        assert(d.subrange(0, k + 1).drop_last() =~= d.subrange(0, k));
    } else {
        assert(d.subrange(0, k) =~= d);
    }
}


pub proof fn lemma_split_from_nonempty(s: Seq<char>, p: Seq<char>, k: int)
    ensures
        split_from(s, p, k).len() >= 1,
    decreases s.len() - k,
{
    if p.len() == 0 || k < 0 || k > s.len() {
    } else {
        match find_from(s, p, k) {
            Some(i) => {
                lemma_find_from(s, p, k);
                lemma_split_from_nonempty(s, p, i + p.len());
            },
            None => {},
        }
    }
}


/// Longer prefixes take more bytes.
pub proof fn lemma_utf8_length_grows(s: Seq<char>, j: int, k: int)
    requires
        0 <= j < k <= s.len(),
    ensures
        utf8_length(s.subrange(0, j)) < utf8_length(s.subrange(0, k)),
    decreases k - j,
{
    assert(s.subrange(0, k).drop_last() =~= s.subrange(0, k - 1));
    if j < k - 1 {
        lemma_utf8_length_grows(s, j, k - 1);
    }
}


/// The decimal digits of `n` spell `n`.
pub proof fn lemma_decimal_spells(n: nat)
    ensures
        decimal(n).len() > 0,
        all_digits(decimal(n)),
        digits_value(decimal(n)) == n,
    decreases n,
{
    let d = n % 10;
    assert(digit_value(digit_char(d)) == d) by {
        assert(d < 10);
        assert((d + '0' as nat) as char as int == d + 48);
    }
    if n < 10 {
        assert(decimal(n).drop_last() =~= Seq::<char>::empty());
        assert(digits_value(decimal(n)) == digits_value(Seq::<char>::empty()) * 10 + digit_value(
            digit_char(n),
        ));
    } else {
        lemma_decimal_spells(n / 10);
        let s = decimal(n);
        assert(s.drop_last() =~= decimal(n / 10));
        assert(s.last() == digit_char(d));
        assert(digits_value(s) == digits_value(decimal(n / 10)) * 10 + d);
        assert((n / 10) * 10 + n % 10 == n);
        assert forall|i: int| 0 <= i < s.len() implies is_digit(#[trigger] s[i]) by {
            if i < s.len() - 1 {
                assert(s[i] == decimal(n / 10)[i]);
            }
        }
    }
}

/// Text that starts with a digit loses nothing at its front to trimming `c`
/// where `c` is no digit.
pub proof fn lemma_drop_front_digit_start(s: Seq<char>, c: char)
    requires
        s.len() > 0,
        is_digit(s[0]),
        !is_digit(c),
    ensures
        drop_front(s, CharClass::Only(c)) == s,
{
}

/// Trimming `c` from the back of digits followed by one `c` leaves the digits.
pub proof fn lemma_drop_back_digits(d: Seq<char>, c: char)
    requires
        d.len() > 0,
        all_digits(d),
        !is_digit(c),
    ensures
        drop_back(d.push(c), CharClass::Only(c)) == d,
{
    assert(d.push(c).drop_last() =~= d);
    assert(is_digit(d[d.len() - 1]));
    assert(d.last() != c);
    assert(drop_back(d, CharClass::Only(c)) == d);
}


/// The first occurrence at or after `k` is at `i` where `p` occurs there and
/// nowhere in between.
pub proof fn lemma_find_from_is(s: Seq<char>, p: Seq<char>, k: int, i: int)
    requires
        0 <= k <= i,
        occurs_at(s, p, i),
        forall|j: int| k <= j < i ==> !occurs_at(s, p, j),
    ensures
        find_from(s, p, k) == Some(i),
    decreases i - k,
{
    if k < i {
        assert(!occurs_at(s, p, k));
        lemma_find_from_is(s, p, k + 1, i);
    }
}

/// No occurrence at or after `k` means none is found.
pub proof fn lemma_find_from_none(s: Seq<char>, p: Seq<char>, k: int)
    requires
        k >= 0,
        forall|j: int| k <= j ==> !occurs_at(s, p, j),
    ensures
        find_from(s, p, k) is None,
    decreases s.len() + 1 - k,
{
    if k + p.len() <= s.len() {
        assert(!occurs_at(s, p, k));
        lemma_find_from_none(s, p, k + 1);
    }
}

/// Occurrences in `s` are occurrences in `x + s`, shifted by `|x|`.
proof fn lemma_occurs_shift(x: Seq<char>, s: Seq<char>, p: Seq<char>, j: int)
    requires
        j >= 0,
    ensures
        occurs_at(x + s, p, x.len() + j) == occurs_at(s, p, j),
{
    if j + p.len() <= s.len() {
        assert((x + s).subrange(x.len() + j, x.len() + j + p.len()) =~= s.subrange(j, j + p.len()));
    }
}

/// Searching `x + s` from inside `s` finds what searching `s` finds, shifted.
proof fn lemma_find_from_shift(x: Seq<char>, s: Seq<char>, p: Seq<char>, k: int)
    requires
        k >= 0,
    ensures
        find_from(x + s, p, x.len() + k) == match find_from(s, p, k) {
            Some(i) => Some(x.len() + i),
            None => None::<int>,
        },
{
    lemma_find_from(s, p, k);
    assert forall|j: int| j >= k implies occurs_at(x + s, p, x.len() + j) == occurs_at(s, p, j) by {
        lemma_occurs_shift(x, s, p, j);
    }
    match find_from(s, p, k) {
        Some(i) => {
            assert forall|j: int| x.len() + k <= j < x.len() + i implies !occurs_at(x + s, p, j) by {
                lemma_occurs_shift(x, s, p, j - x.len());
            }
            lemma_find_from_is(x + s, p, x.len() + k, x.len() + i);
        },
        None => {
            assert forall|j: int| x.len() + k <= j implies !occurs_at(x + s, p, j) by {
                lemma_occurs_shift(x, s, p, j - x.len());
            }
            lemma_find_from_none(x + s, p, x.len() + k);
        },
    }
}

/// Splitting `x + s` from inside `s` gives the pieces of `s`.
proof fn lemma_split_from_shift(x: Seq<char>, s: Seq<char>, p: Seq<char>, k: int)
    requires
        p.len() > 0,
        0 <= k <= s.len(),
    ensures
        split_from(x + s, p, x.len() + k) == split_from(s, p, k),
    decreases s.len() - k,
{
    lemma_find_from_shift(x, s, p, k);
    lemma_find_from(s, p, k);
    match find_from(s, p, k) {
        Some(i) => {
            lemma_split_from_shift(x, s, p, i + p.len());
            assert((x + s).subrange(x.len() + k, x.len() + i) =~= s.subrange(k, i));
            assert(x.len() + i + p.len() == x.len() + (i + p.len()));
        },
        None => {
            assert((x + s).subrange(x.len() + k, (x + s).len() as int) =~= s.subrange(k, s.len() as int));
        },
    }
}

proof fn lemma_split_from_join(a: Seq<char>, c: char, b: Seq<char>, k: int)
    requires
        0 <= k <= a.len(),
    ensures
        split_from(a + seq![c] + b, seq![c], k) == split_from(a, seq![c], k) + split(b, seq![c]),
    decreases a.len() - k,
{
    let p = seq![c];
    let s = a + p + b;
    assert forall|j: int| 0 <= j < a.len() implies occurs_at(s, p, j) == occurs_at(a, p, j) by {
        assert(s.subrange(j, j + 1) =~= a.subrange(j, j + 1));
    }
    assert(s.subrange(a.len() as int, (a.len() + 1) as int) =~= p);
    assert(occurs_at(s, p, a.len() as int));
    lemma_find_from(a, p, k);
    match find_from(a, p, k) {
        Some(i) => {
            lemma_find_from_is(s, p, k, i);
            lemma_split_from_join(a, c, b, i + 1);
            assert(s.subrange(k, i) =~= a.subrange(k, i));
            assert(split_from(s, p, k) == seq![s.subrange(k, i)] + split_from(s, p, i + 1));
            assert(split_from(a, p, k) == seq![a.subrange(k, i)] + split_from(a, p, i + 1));
            assert(split_from(s, p, k) =~= split_from(a, p, k) + split(b, p));
        },
        None => {
            lemma_find_from_is(s, p, k, a.len() as int);
            assert(s =~= (a + p) + b);
            lemma_split_from_shift(a + p, b, p, 0);
            assert(s.subrange(k, a.len() as int) =~= a.subrange(k, a.len() as int));
            assert(split_from(s, p, k) =~= split_from(a, p, k) + split(b, p));
        },
    }
}

/// Splitting at a one-character separator: the pieces of `a + c + b` are
/// the pieces of `a` followed by those of `b`.
pub proof fn lemma_split_join(a: Seq<char>, c: char, b: Seq<char>)
    ensures
        split(a + seq![c] + b, seq![c]) == split(a, seq![c]) + split(b, seq![c]),
{
    lemma_split_from_join(a, c, b, 0);
}

/// `label` occurs in `x + label` first at its end: no occurrence of `label`
/// starts inside `x`.
pub open spec fn first_at_end(x: Seq<char>, label: Seq<char>) -> bool {
    forall|i: int| 0 <= i < x.len() ==> !occurs_at(x + label, label, i)
}

/// A text in which `p` first occurs at its end holds no `p` of its own, so
/// splitting it at `p` gives it whole.
proof fn lemma_split_whole(a: Seq<char>, p: Seq<char>)
    requires
        p.len() > 0,
        first_at_end(a, p),
    ensures
        split(a, p) == seq![a],
{
    assert forall|j: int| 0 <= j implies !occurs_at(a, p, j) by {
        if occurs_at(a, p, j) {
            assert((a + p).subrange(j, j + p.len()) =~= a.subrange(j, j + p.len()));
            assert(occurs_at(a + p, p, j));
        }
    }
    lemma_find_from_none(a, p, 0);
    assert(a.subrange(0, a.len() as int) =~= a);
}

/// Splitting at a pattern `p` that first occurs right after `a`: the pieces
/// of `a + p + b` are `a` followed by the pieces of `b`.
proof fn lemma_split_after_first(a: Seq<char>, p: Seq<char>, b: Seq<char>)
    requires
        p.len() > 0,
        first_at_end(a, p),
    ensures
        split(a + p + b, p) == seq![a] + split(b, p),
{
    let s = a + p + b;
    assert(s =~= (a + p) + b);
    assert(s.subrange(a.len() as int, (a.len() + p.len()) as int) =~= p);
    assert forall|j: int| 0 <= j < a.len() implies !occurs_at(s, p, j) by {
        if occurs_at(s, p, j) {
            assert(s.subrange(j, j + p.len()) =~= (a + p).subrange(j, j + p.len()));
            assert(occurs_at(a + p, p, j));
        }
    }
    lemma_find_from_is(s, p, 0, a.len() as int);
    lemma_split_from_shift(a + p, b, p, 0);
    assert(s.subrange(0, a.len() as int) =~= a);
    assert((a + p).len() + 0 == a.len() + p.len());
}

/// Joining takes the first piece, then `sep`, then the rest joined.
proof fn lemma_join_front(m: Seq<Seq<char>>, sep: Seq<char>)
    requires
        m.len() >= 2,
    ensures
        join(m, sep) == m[0] + sep + join(m.drop_first(), sep),
    decreases m.len(),
{
    if m.len() == 2 {
        assert(m.drop_last() =~= seq![m[0]]);
        assert(m.drop_first() =~= seq![m[1]]);
        assert(join(m.drop_last(), sep) == m[0]);
        assert(join(m.drop_first(), sep) == m[1]);
        assert(join(m, sep) == join(m.drop_last(), sep) + sep + m.last());
    } else {
        lemma_join_front(m.drop_last(), sep);
        assert(m.drop_last().drop_first() =~= m.drop_first().drop_last());
        assert(m.drop_first().last() == m.last());
        assert(join(m, sep) =~= m[0] + sep + join(m.drop_first(), sep));
    }
}

/// Splitting joined pieces at the separator they were joined with gives
/// them back, where there is at least one piece and, in each piece followed
/// by the separator, the separator first occurs at the end.
pub proof fn lemma_split_of_join(m: Seq<Seq<char>>, p: Seq<char>)
    requires
        p.len() > 0,
        m.len() >= 1,
        forall|i: int| 0 <= i < m.len() ==> first_at_end(#[trigger] m[i], p),
    ensures
        split(join(m, p), p) == m,
    decreases m.len(),
{
    if m.len() == 1 {
        assert(first_at_end(m[0], p));
        lemma_split_whole(m[0], p);
        assert(m =~= seq![m[0]]);
    } else {
        let rest = m.drop_first();
        assert forall|i: int| 0 <= i < rest.len() implies first_at_end(#[trigger] rest[i], p) by {
            assert(rest[i] == m[i + 1]);
        }
        lemma_split_of_join(rest, p);
        lemma_join_front(m, p);
        assert(first_at_end(m[0], p));
        lemma_split_after_first(m[0], p, join(rest, p));
        assert(m =~= seq![m[0]] + rest);
    }
}

/// The empty text is one empty piece.
pub proof fn lemma_split_empty(p: Seq<char>)
    requires
        p.len() > 0,
    ensures
        split(Seq::<char>::empty(), p) == seq![Seq::<char>::empty()],
{
    assert(find_from(Seq::<char>::empty(), p, 0) is None);
    assert(Seq::<char>::empty().subrange(0, 0) =~= Seq::<char>::empty());
}

/// The lines of a text that ends a line, followed by more text, are its own
/// lines followed by those of the rest.
pub proof fn lemma_lines_join(a: Seq<char>, b: Seq<char>)
    requires
        a.len() == 0 || a.last() == '\n',
    ensures
        lines(a + b) == lines(a) + lines(b),
{
    if a.len() == 0 {
        assert(a + b =~= b);
        assert(lines(a) =~= Seq::<Seq<char>>::empty());
        assert(lines(a + b) =~= lines(a) + lines(b));
    } else if b.len() == 0 {
        assert(a + b =~= a);
        assert(lines(b) =~= Seq::<Seq<char>>::empty());
        assert(lines(a + b) =~= lines(a) + lines(b));
    } else {
        let nl = seq!['\n'];
        let a1 = a.drop_last();
        assert(a =~= a1 + nl + Seq::<char>::empty());
        assert(a + b =~= a1 + nl + b);
        lemma_split_join(a1, '\n', b);
        lemma_split_join(a1, '\n', Seq::<char>::empty());
        lemma_split_empty(nl);
        lemma_split_from_nonempty(b, nl, 0);
        let sa = split(a1, nl);
        let sb = split(b, nl);
        let pa = split(a, nl);
        let pab = split(a + b, nl);
        assert(pa == sa + seq![Seq::<char>::empty()]);
        assert(pab == sa + sb);
        assert(pa.last().len() == 0);
        assert(pab.last() == sb.last());
        assert(lines(a).len() == sa.len());
        assert forall|i: int| 0 <= i < lines(a + b).len() implies #[trigger] lines(a + b)[i] == (lines(a) + lines(b))[i] by {
            if i < sa.len() {
                assert(pab[i] == sa[i]);
                assert(pa[i] == sa[i]);
            } else {
                assert(pab[i] == sb[i - sa.len()]);
            }
        }
        assert(lines(a + b) =~= lines(a) + lines(b));
    }
}

// ---------------------------------------------------------------------------
// Executable operations
// ---------------------------------------------------------------------------

/// Appends one character to a string (`String::push`).
#[verifier::external_body]
pub(crate) fn push_char(s: &mut String, c: char)
    ensures
        final(s)@ == old(s)@.push(c),
{
    s.push(c);
}

/// The characters of `s`, in order.
pub fn chars_of(s: &str) -> (v: Vec<char>)
    ensures
        v@ == s@,
{
    let mut v: Vec<char> = Vec::new();
    for c in it: s.chars()
        invariant
            v@ == it.seq().take(it.index() as int),
    {
        v.push(c);
    }
    v
}

/// The string made of `v[lo..hi]`.
pub fn string_of_range(v: &Vec<char>, lo: usize, hi: usize) -> (r: String)
    requires
        lo <= hi <= v.len(),
    ensures
        r@ == v@.subrange(lo as int, hi as int),
{
    let mut r = String::new();
    let mut i = lo;
    while i < hi
        invariant
            lo <= i <= hi <= v.len(),
            r@ == v@.subrange(lo as int, i as int),
        decreases hi - i,
    {
        push_char(&mut r, v[i]);
        i += 1;
        assert(r@ =~= v@.subrange(lo as int, i as int));
    }
    r
}

/// The string made of all of `v`.
pub fn string_of(v: &Vec<char>) -> (r: String)
    ensures
        r@ == v@,
{
    let r = string_of_range(v, 0, v.len());
    assert(v@.subrange(0, v@.len() as int) =~= v@);
    r
}

/// A copy of `v[lo..hi]`.
pub fn copy_range(v: &Vec<char>, lo: usize, hi: usize) -> (r: Vec<char>)
    requires
        lo <= hi <= v.len(),
    ensures
        r@ == v@.subrange(lo as int, hi as int),
{
    let mut r: Vec<char> = Vec::new();
    let mut i = lo;
    while i < hi
        invariant
            lo <= i <= hi <= v.len(),
            r@ == v@.subrange(lo as int, i as int),
        decreases hi - i,
    {
        r.push(v[i]);
        i += 1;
        assert(r@ =~= v@.subrange(lo as int, i as int));
    }
    r
}

/// Whether `a` and `b` hold the same characters.
pub fn same_chars(a: &Vec<char>, b: &Vec<char>) -> (r: bool)
    ensures
        r == (a@ == b@),
{
    if a.len() != b.len() {
        return false;
    }
    let mut i: usize = 0;
    while i < a.len()
        invariant
            a.len() == b.len(),
            i <= a.len(),
            forall|j: int| 0 <= j < i ==> a@[j] == b@[j],
        decreases a.len() - i,
    {
        if a[i] != b[i] {
            return false;
        }
        i += 1;
    }
    assert(a@ =~= b@);
    true
}

/// Whether `p` occurs in `s` at position `i`.
pub fn occurs_at_exec(s: &Vec<char>, p: &Vec<char>, i: usize) -> (r: bool)
    ensures
        r == occurs_at(s@, p@, i as int),
{
    if p.len() > s.len() || i > s.len() - p.len() {
        return false;
    }
    let mut j: usize = 0;
    while j < p.len()
        invariant
            i + p.len() <= s.len(),
            j <= p.len(),
            forall|t: int| 0 <= t < j ==> s@[i + t] == p@[t],
        decreases p.len() - j,
    {
        if s[i + j] != p[j] {
            assert(s@.subrange(i as int, i + p.len())[j as int] != p@[j as int]);
            return false;
        }
        j += 1;
    }
    assert(s@.subrange(i as int, i + p.len()) =~= p@);
    true
}

/// The first position at or after `k` where `p` occurs in `s`.
pub fn find_from_exec(s: &Vec<char>, p: &Vec<char>, k: usize) -> (r: Option<usize>)
    ensures
        r matches Some(i) ==> find_from(s@, p@, k as int) == Some(i as int),
        r is None ==> find_from(s@, p@, k as int) is None,
{
    if p.len() > s.len() || k > s.len() - p.len() {
        return None;
    }
    let last = s.len() - p.len();
    let mut i = k;
    loop
        invariant
            last == s.len() - p.len(),
            k <= i <= last,
            find_from(s@, p@, k as int) == find_from(s@, p@, i as int),
        decreases last - i,
    {
        if occurs_at_exec(s, p, i) {
            return Some(i);
        }
        if i == last {
            assert(find_from(s@, p@, i + 1) is None);
            return None;
        }
        i += 1;
    }
}

/// `str::split(p)` for a non-empty pattern.
pub fn split_exec(s: &Vec<char>, p: &Vec<char>) -> (r: Vec<Vec<char>>)
    requires
        p.len() > 0,
    ensures
        r@.map_values(|x: Vec<char>| x@) == split(s@, p@),
{
    let mut r: Vec<Vec<char>> = Vec::new();
    let mut k: usize = 0;
    loop
        invariant
            p.len() > 0,
            k <= s.len(),
            r@.map_values(|x: Vec<char>| x@) + split_from(s@, p@, k as int) == split(s@, p@),
        decreases s.len() - k,
    {
        let ghost before = r@.map_values(|x: Vec<char>| x@);
        match find_from_exec(s, p, k) {
            Some(i) => {
                proof {
                    lemma_find_from(s@, p@, k as int);
                }
                let piece = copy_range(s, k, i);
                r.push(piece);
                assert(r@.map_values(|x: Vec<char>| x@) =~= before.push(s@.subrange(k as int, i as int)));
                assert(split_from(s@, p@, k as int) == seq![s@.subrange(k as int, i as int)]
                    + split_from(s@, p@, i + p.len()));
                assert(before + split_from(s@, p@, k as int) =~= before.push(s@.subrange(k as int, i as int))
                    + split_from(s@, p@, i + p.len()));
                k = i + p.len();
            },
            None => {
                let piece = copy_range(s, k, s.len());
                r.push(piece);
                assert(r@.map_values(|x: Vec<char>| x@) =~= before + split_from(s@, p@, k as int));
                return r;
            },
        }
    }
}

/// The text between the first `start` and the next `end` after it.
pub fn between_exec(s: &Vec<char>, start: &Vec<char>, end: &Vec<char>) -> (r: Vec<char>)
    ensures
        r@ == between(s@, start@, end@),
{
    match find_from_exec(s, start, 0) {
        None => Vec::new(),
        Some(i) => {
            proof {
                lemma_find_from(s@, start@, 0);
                assert(occurs_at(s@, start@, i as int));
            }
            assert(i + start.len() <= s.len());
            let from = i + start.len();
            let rest = copy_range(s, from, s.len());
            match find_from_exec(&rest, end, 0) {
                None => Vec::new(),
                Some(j) => {
                    proof {
                        lemma_find_from(rest@, end@, 0);
                    }
                    copy_range(&rest, 0, j)
                },
            }
        },
    }
}

/// `char::is_whitespace`.
pub fn is_white_exec(c: char) -> (r: bool)
    ensures
        r == is_white(c),
{
    c == '\t' || c == '\n' || c == '\u{0B}' || c == '\u{0C}' || c == '\r' || c == ' ' || c
        == '\u{85}' || c == '\u{A0}' || c == '\u{1680}' || ('\u{2000}' <= c && c <= '\u{200A}')
        || c == '\u{2028}' || c == '\u{2029}' || c == '\u{202F}' || c == '\u{205F}' || c
        == '\u{3000}'
}

fn in_class_exec(class: &CharClass, c: char) -> (r: bool)
    ensures
        r == in_class(*class, c),
{
    match class {
        CharClass::Whitespace => is_white_exec(c),
        CharClass::Only(d) => c == *d,
    }
}

/// Where `drop_front` leaves `v[lo..hi]` to start.
fn front_bound(v: &Vec<char>, lo: usize, hi: usize, class: &CharClass) -> (r: usize)
    requires
        lo <= hi <= v.len(),
    ensures
        lo <= r <= hi,
        drop_front(v@.subrange(lo as int, hi as int), *class) == v@.subrange(r as int, hi as int),
{
    let mut i = lo;
    while i < hi && in_class_exec(class, v[i])
        invariant
            lo <= i <= hi <= v.len(),
            drop_front(v@.subrange(lo as int, hi as int), *class) == drop_front(
                v@.subrange(i as int, hi as int),
                *class,
            ),
        decreases hi - i,
    {
        assert(v@.subrange(i as int, hi as int).drop_first() =~= v@.subrange(i + 1, hi as int));
        i += 1;
    }
    i
}

/// Where `drop_back` leaves `v[lo..hi]` to end.
fn back_bound(v: &Vec<char>, lo: usize, hi: usize, class: &CharClass) -> (r: usize)
    requires
        lo <= hi <= v.len(),
    ensures
        lo <= r <= hi,
        drop_back(v@.subrange(lo as int, hi as int), *class) == v@.subrange(lo as int, r as int),
{
    let mut j = hi;
    while j > lo && in_class_exec(class, v[j - 1])
        invariant
            lo <= j <= hi <= v.len(),
            drop_back(v@.subrange(lo as int, hi as int), *class) == drop_back(
                v@.subrange(lo as int, j as int),
                *class,
            ),
        decreases j - lo,
    {
        assert(v@.subrange(lo as int, j as int).drop_last() =~= v@.subrange(lo as int, j - 1));
        j -= 1;
    }
    j
}

/// `str::trim`.
pub fn trim_exec(v: &Vec<char>) -> (r: Vec<char>)
    ensures
        r@ == trim(v@),
{
    let a = front_bound(v, 0, v.len(), &CharClass::Whitespace);
    let b = back_bound(v, a, v.len(), &CharClass::Whitespace);
    assert(v@.subrange(0, v@.len() as int) =~= v@);
    copy_range(v, a, b)
}

/// `str::trim_matches(c)`.
pub fn trim_char_exec(v: &Vec<char>, c: char) -> (r: Vec<char>)
    ensures
        r@ == trim_char(v@, c),
{
    let a = front_bound(v, 0, v.len(), &CharClass::Only(c));
    let b = back_bound(v, a, v.len(), &CharClass::Only(c));
    assert(v@.subrange(0, v@.len() as int) =~= v@);
    copy_range(v, a, b)
}

/// `str::trim_end_matches(c)`.
pub fn trim_end_char_exec(v: &Vec<char>, c: char) -> (r: Vec<char>)
    ensures
        r@ == trim_end_char(v@, c),
{
    let b = back_bound(v, 0, v.len(), &CharClass::Only(c));
    assert(v@.subrange(0, v@.len() as int) =~= v@);
    copy_range(v, 0, b)
}

/// `str::parse::<u32>`.
pub fn parse_u32_exec(v: &Vec<char>) -> (r: Option<u32>)
    ensures
        r == parse_u32(v@),
{
    let start: usize = if v.len() > 0 && v[0] == '+' { 1 } else { 0 };
    let ghost d = if v@.len() > 0 && v@[0] == '+' { v@.drop_first() } else { v@ };
    assert(d =~= v@.subrange(start as int, v@.len() as int));
    if start == v.len() {
        return None;
    }
    let mut value: u64 = 0;
    let mut i = start;
    while i < v.len()
        invariant
            start <= i <= v.len(),
            d == v@.subrange(start as int, v@.len() as int),
            d == (if v@.len() > 0 && v@[0] == '+' { v@.drop_first() } else { v@ }),
            d.len() > 0,
            all_digits(v@.subrange(start as int, i as int)),
            value == digits_value(v@.subrange(start as int, i as int)),
            value <= u32::MAX,
        decreases v.len() - i,
    {
        let c = v[i];
        if !('0' <= c && c <= '9') {
            assert(d[i - start] == c);
            return None;
        }
        let digit = (c as u32 - '0' as u32) as u64;
        let ghost prefix = v@.subrange(start as int, i + 1);
        assert(prefix.drop_last() =~= v@.subrange(start as int, i as int));
        assert(prefix.last() == c);
        assert(value * 10 + digit <= u32::MAX * 10 + 9) by (nonlinear_arith)
            requires
                value <= u32::MAX,
                digit <= 9,
        ;
        value = value * 10 + digit;
        assert(all_digits(prefix)) by {
            assert forall|t: int| 0 <= t < prefix.len() implies is_digit(#[trigger] prefix[t]) by {
                if t < prefix.len() - 1 {
                    assert(prefix[t] == v@.subrange(start as int, i as int)[t]);
                }
            }
        }
        if value > 0xFFFF_FFFF {
            proof {
                lemma_digits_value_prefix(d, i + 1 - start);
                assert(d.subrange(0, i + 1 - start) =~= prefix);
            }
            return None;
        }
        i += 1;
    }
    assert(v@.subrange(start as int, i as int) =~= d);
    Some(value as u32)
}

/// Appends the decimal digits of `n` to `out`.
pub fn push_decimal(out: &mut String, n: u64)
    ensures
        final(out)@ == old(out)@ + decimal(n as nat),
    decreases n,
{
    if n >= 10 {
        push_decimal(out, n / 10);
    }
    let d = (n % 10) as u8;
    let c = (48u8 + d) as char;
    assert(c == digit_char((n % 10) as nat));
    push_char(out, c);
    assert(decimal(n as nat) == (if n < 10 { seq![digit_char(n as nat)] } else { decimal((n / 10) as nat).push(digit_char((n % 10) as nat)) }));
}

/// Appends `n`, padded with `0` to two digits, to `out`.
pub fn push_two_digits(out: &mut String, n: u64)
    ensures
        final(out)@ == old(out)@ + two_digits(n as nat),
{
    if n < 10 {
        push_char(out, '0');
    }
    push_decimal(out, n);
    proof {
        if n < 10 {
            assert(old(out)@.push('0') + decimal(n as nat) =~= old(out)@ + (seq!['0'].add(decimal(n as nat))));
        }
    }
}

/// `str::split_whitespace`, collected.
pub fn words_exec(v: &Vec<char>) -> (r: Vec<Vec<char>>)
    ensures
        r@.map_values(|x: Vec<char>| x@) == words(v@),
{
    let mut r: Vec<Vec<char>> = Vec::new();
    let mut k: usize = 0;
    while k < v.len()
        invariant
            k <= v.len(),
            r@.map_values(|x: Vec<char>| x@) + words_from(v@, k as int) == words(v@),
        decreases v.len() - k,
    {
        let ghost before = r@.map_values(|x: Vec<char>| x@);
        if is_white_exec(v[k]) {
            k += 1;
        } else {
            let mut e = k;
            while e < v.len() && !is_white_exec(v[e])
                invariant
                    k <= e <= v.len(),
                    word_end(v@, k as int) == word_end(v@, e as int),
                decreases v.len() - e,
            {
                e += 1;
            }
            proof {
                lemma_word_end(v@, k as int);
            }
            let w = copy_range(v, k, e);
            r.push(w);
            assert(r@.map_values(|x: Vec<char>| x@) =~= before.push(v@.subrange(k as int, e as int)));
            assert(before + words_from(v@, k as int) =~= before.push(v@.subrange(k as int, e as int))
                + words_from(v@, e as int));
            k = e;
        }
    }
    assert(words_from(v@, k as int) =~= Seq::<Seq<char>>::empty());
    assert(r@.map_values(|x: Vec<char>| x@) =~= words(v@));
    r
}

/// `str::replace(c, r)` with a `char` pattern.
pub fn replace_char_exec(v: &Vec<char>, c: char, rep: &Vec<char>) -> (r: Vec<char>)
    ensures
        r@ == replace_char(v@, c, rep@),
{
    let mut r: Vec<char> = Vec::new();
    let mut i: usize = 0;
    while i < v.len()
        invariant
            i <= v.len(),
            r@ == replace_char(v@.subrange(0, i as int), c, rep@),
        decreases v.len() - i,
    {
        let ghost pre = v@.subrange(0, i + 1);
        assert(pre.drop_last() =~= v@.subrange(0, i as int));
        if v[i] == c {
            let mut j: usize = 0;
            let ghost base = r@;
            while j < rep.len()
                invariant
                    j <= rep.len(),
                    r@ == base + rep@.subrange(0, j as int),
                decreases rep.len() - j,
            {
                r.push(rep[j]);
                j += 1;
                assert(r@ =~= base + rep@.subrange(0, j as int));
            }
            assert(rep@.subrange(0, rep@.len() as int) =~= rep@);
        } else {
            r.push(v[i]);
        }
        assert(r@ =~= replace_char(pre, c, rep@));
        i += 1;
    }
    assert(v@.subrange(0, v@.len() as int) =~= v@);
    r
}

/// Joins the pieces with `sep` between them.
pub fn join_exec(pieces: &Vec<Vec<char>>, sep: &Vec<char>) -> (r: Vec<char>)
    ensures
        r@ == join(pieces@.map_values(|x: Vec<char>| x@), sep@),
{
    let ghost all = pieces@.map_values(|x: Vec<char>| x@);
    let mut r: Vec<char> = Vec::new();
    let mut i: usize = 0;
    while i < pieces.len()
        invariant
            i <= pieces.len(),
            all == pieces@.map_values(|x: Vec<char>| x@),
            r@ == join(all.subrange(0, i as int), sep@),
        decreases pieces.len() - i,
    {
        let ghost base = r@;
        let ghost pre = all.subrange(0, i + 1);
        assert(pre.drop_last() =~= all.subrange(0, i as int));
        if i > 0 {
            append_chars(&mut r, sep);
        }
        append_chars(&mut r, &pieces[i]);
        proof {
            if i == 0 {
                assert(pre.len() == 1);
                assert(r@ =~= pre[0]);
            } else {
                assert(r@ =~= base + sep@ + pre.last());
            }
        }
        i += 1;
    }
    assert(all.subrange(0, pieces.len() as int) =~= all);
    r
}

/// Appends the characters of `w` to `v`.
pub fn append_chars(v: &mut Vec<char>, w: &Vec<char>)
    ensures
        final(v)@ == old(v)@ + w@,
{
    let mut j: usize = 0;
    while j < w.len()
        invariant
            j <= w.len(),
            v@ == old(v)@ + w@.subrange(0, j as int),
        decreases w.len() - j,
    {
        v.push(w[j]);
        j += 1;
        assert(v@ =~= old(v)@ + w@.subrange(0, j as int));
    }
    assert(w@.subrange(0, w@.len() as int) =~= w@);
}

/// `s` without one trailing `'\r'`.
pub fn strip_cr_exec(v: &Vec<char>) -> (r: Vec<char>)
    ensures
        r@ == strip_cr(v@),
{
    if v.len() > 0 && v[v.len() - 1] == '\r' {
        let r = copy_range(v, 0, v.len() - 1);
        assert(r@ =~= v@.drop_last());
        r
    } else {
        let r = copy_range(v, 0, v.len());
        assert(r@ =~= v@);
        r
    }
}

/// `str::lines`, collected.
pub fn lines_exec(v: &Vec<char>) -> (r: Vec<Vec<char>>)
    ensures
        r@.map_values(|x: Vec<char>| x@) == lines(v@),
{
    if v.len() == 0 {
        let r: Vec<Vec<char>> = Vec::new();
        assert(r@.map_values(|x: Vec<char>| x@) =~= lines(v@));
        return r;
    }
    let newline = vec!['\n'];
    assert(newline@ =~= seq!['\n']);
    let pieces = split_exec(v, &newline);
    let ghost ps = split(v@, seq!['\n']);
    proof {
        lemma_split_from_nonempty(v@, seq!['\n'], 0);
    }
    assert(pieces@.len() == ps.len());
    let n = pieces.len();
    assert(pieces[n - 1]@ == ps.last());
    let m = if pieces[n - 1].len() == 0 { n - 1 } else { n };
    let mut r: Vec<Vec<char>> = Vec::new();
    let mut i: usize = 0;
    while i < m
        invariant
            m <= n == pieces.len(),
            i <= m,
            ps == pieces@.map_values(|x: Vec<char>| x@),
            r@.len() == i,
            forall|t: int| 0 <= t < i ==> #[trigger] r@[t]@ == (if t < n - 1 { strip_cr(ps[t]) } else { ps[t] }),
        decreases m - i,
    {
        assert(pieces[i as int]@ == ps[i as int]);
        let line = if i < n - 1 { strip_cr_exec(&pieces[i]) } else { copy_range(&pieces[i], 0, pieces[i].len()) };
        assert(pieces[i as int]@.subrange(0, pieces[i as int]@.len() as int) =~= pieces[i as int]@);
        r.push(line);
        i += 1;
    }
    assert(r@.map_values(|x: Vec<char>| x@) =~= lines(v@));
    r
}

fn utf8_width_exec(c: char) -> (r: usize)
    ensures
        r == utf8_width(c),
{
    let u = c as u32;
    if u < 0x80 {
        1
    } else if u < 0x800 {
        2
    } else if u < 0x10000 {
        3
    } else {
        4
    }
}

/// `text.get(0..n).unwrap_or(text)`, by characters.
pub fn byte_prefix_exec(v: &Vec<char>, n: usize) -> (r: Vec<char>)
    ensures
        r@ == byte_prefix(v@, n as nat),
{
    let mut k: usize = 0;
    let mut acc: usize = 0;
    let mut over = false;
    while k < v.len() && acc < n && !over
        invariant
            k <= v.len(),
            !over ==> acc == utf8_length(v@.subrange(0, k as int)),
            over ==> utf8_length(v@.subrange(0, k as int)) > n,
            forall|j: int| 0 <= j < k ==> utf8_length(#[trigger] v@.subrange(0, j)) < n,
        decreases v.len() - k,
    {
        proof {
            assert(v@.subrange(0, k + 1).drop_last() =~= v@.subrange(0, k as int));
        }
        let w = utf8_width_exec(v[k]);
        if w > n - acc {
            over = true;
        } else {
            acc = acc + w;
        }
        k += 1;
    }
    if !over && acc == n {
        proof {
            let c = choose|j: int| 0 <= j <= v@.len() && utf8_length(#[trigger] v@.subrange(0, j)) == n;
            if c < k {
                lemma_utf8_length_grows(v@, c, k as int);
            } else if c > k {
                lemma_utf8_length_grows(v@, k as int, c);
            }
        }
        copy_range(v, 0, k)
    } else {
        proof {
            assert forall|j: int| 0 <= j <= v@.len() implies utf8_length(#[trigger] v@.subrange(0, j)) != n by {
                if j > k {
                    lemma_utf8_length_grows(v@, k as int, j);
                }
            }
            assert(v@.subrange(0, v@.len() as int) =~= v@);
        }
        copy_range(v, 0, v.len())
    }
}

} // verus!
