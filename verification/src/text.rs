//! Character-level string operations with their specifications: prefixes,
//! suffixes, substring search, splitting, trimming, decimal numbers and the
//! lexicographic order of strings.

use vstd::prelude::*;

verus! {

// ---------------------------------------------------------------------------
// Specifications
// ---------------------------------------------------------------------------

/// `s` begins with `p`.
pub open spec fn has_prefix(s: Seq<char>, p: Seq<char>) -> bool {
    p.len() <= s.len() && s.subrange(0, p.len() as int) == p
}

/// `s` ends with `p`.
pub open spec fn has_suffix(s: Seq<char>, p: Seq<char>) -> bool {
    p.len() <= s.len() && s.subrange(s.len() - p.len(), s.len() as int) == p
}

/// `p` occurs in `s` starting at index `i`.
pub open spec fn occurs_at(s: Seq<char>, p: Seq<char>, i: int) -> bool {
    0 <= i && i + p.len() <= s.len() && s.subrange(i, i + p.len()) == p
}

/// `p` occurs somewhere in `s`.
pub open spec fn has_substring(s: Seq<char>, p: Seq<char>) -> bool {
    exists|i: int| occurs_at(s, p, i)
}

/// `i` is the first index at which `p` occurs in `s`.
pub open spec fn is_first_occurrence(s: Seq<char>, p: Seq<char>, i: int) -> bool {
    occurs_at(s, p, i) && forall|j: int| 0 <= j < i ==> !occurs_at(s, p, j)
}

/// `i` is the last index at which `p` occurs in `s`.
pub open spec fn is_last_occurrence(s: Seq<char>, p: Seq<char>, i: int) -> bool {
    occurs_at(s, p, i) && forall|j: int| i < j ==> !occurs_at(s, p, j)
}

/// What `str::split_once(p)` returns: the parts before and after the first
/// occurrence of `p`, or `None` when `p` does not occur.
pub open spec fn split_once_spec(s: Seq<char>, p: Seq<char>, r: Option<(Seq<char>, Seq<char>)>) -> bool {
    match r {
        None => !has_substring(s, p),
        Some((a, b)) => exists|i: int|
            is_first_occurrence(s, p, i) && a == s.subrange(0, i) && b == s.subrange(
                i + p.len(),
                s.len() as int,
            ),
    }
}

/// The parts before and after the first occurrence of `p` in `s`, or `None`
/// when `p` does not occur: what `str::split_once(p)` returns.
pub open spec fn split_at_first(s: Seq<char>, p: Seq<char>) -> Option<(Seq<char>, Seq<char>)> {
    if exists|i: int| is_first_occurrence(s, p, i) {
        let i = choose|i: int| is_first_occurrence(s, p, i);
        Some((s.subrange(0, i), s.subrange(i + p.len(), s.len() as int)))
    } else {
        None
    }
}

/// The parts before and after the last occurrence of `p` in `s`, or `None`
/// when `p` does not occur: what `str::rsplit_once(p)` returns.
pub open spec fn split_at_last(s: Seq<char>, p: Seq<char>) -> Option<(Seq<char>, Seq<char>)> {
    if exists|i: int| is_last_occurrence(s, p, i) {
        let i = choose|i: int| is_last_occurrence(s, p, i);
        Some((s.subrange(0, i), s.subrange(i + p.len(), s.len() as int)))
    } else {
        None
    }
}

/// What `str::rsplit_once(p)` returns: the parts before and after the last
/// occurrence of `p`, or `None` when `p` does not occur.
pub open spec fn rsplit_once_spec(s: Seq<char>, p: Seq<char>, r: Option<(Seq<char>, Seq<char>)>) -> bool {
    match r {
        None => !has_substring(s, p),
        Some((a, b)) => exists|i: int|
            is_last_occurrence(s, p, i) && a == s.subrange(0, i) && b == s.subrange(
                i + p.len(),
                s.len() as int,
            ),
    }
}

/// The Unicode `White_Space` property, which `char::is_whitespace` decides:
/// U+0009 to U+000D, U+0020, U+0085, U+00A0, U+1680, U+2000 to U+200A,
/// U+2028, U+2029, U+202F, U+205F and U+3000.
pub open spec fn is_white_space(c: char) -> bool {
    let x = c as u32;
    ||| 0x9 <= x && x <= 0xd
    ||| x == 0x20
    ||| x == 0x85
    ||| x == 0xa0
    ||| x == 0x1680
    ||| 0x2000 <= x && x <= 0x200a
    ||| x == 0x2028
    ||| x == 0x2029
    ||| x == 0x202f
    ||| x == 0x205f
    ||| x == 0x3000
}

/// `r` is `s` with leading and trailing white space removed.
pub open spec fn trim_bounds(s: Seq<char>, a: int, b: int) -> bool {
    &&& 0 <= a <= b <= s.len()
    &&& forall|i: int| 0 <= i < a ==> is_white_space(#[trigger] s[i])
    &&& forall|i: int| b <= i < s.len() ==> is_white_space(#[trigger] s[i])
    &&& a < b ==> !is_white_space(s[a]) && !is_white_space(s[b - 1])
}

/// `r` is what `str::trim` leaves of `s`.
pub open spec fn is_trim_of(s: Seq<char>, r: Seq<char>) -> bool {
    exists|a: int, b: int| trim_bounds(s, a, b) && r == s.subrange(a, b)
}

/// The lower-case form of a string, as `str::to_lowercase` computes it.
pub uninterp spec fn lowercase_of(s: Seq<char>) -> Seq<char>;

/// `s` with every `from` replaced by the characters of `to`.
pub open spec fn replace_char_spec(s: Seq<char>, from: char, to: Seq<char>) -> Seq<char>
    decreases s.len(),
{
    if s.len() == 0 {
        Seq::empty()
    } else {
        replace_char_spec(s.drop_last(), from, to) + (if s.last() == from {
            to
        } else {
            seq![s.last()]
        })
    }
}

/// ASCII decimal digit.
pub open spec fn is_digit(c: char) -> bool {
    '0' <= c && c <= '9'
}

/// The value of an ASCII decimal digit.
pub open spec fn digit_value(c: char) -> nat {
    (c as int - '0' as int) as nat
}

/// Every character of `s` is a decimal digit.
pub open spec fn all_digits(s: Seq<char>) -> bool {
    forall|i: int| 0 <= i < s.len() ==> is_digit(#[trigger] s[i])
}

/// The number that a string of decimal digits denotes.
pub open spec fn decimal_value(s: Seq<char>) -> nat
    decreases s.len(),
{
    if s.len() == 0 {
        0
    } else {
        decimal_value(s.drop_last()) * 10 + digit_value(s.last())
    }
}

/// The digits that `str::parse` reads for an unsigned integer: an optional
/// leading `+` is skipped.
pub open spec fn unsigned_digits(s: Seq<char>) -> Seq<char> {
    if s.len() > 0 && s[0] == '+' {
        s.drop_first()
    } else {
        s
    }
}

/// `s` has the form of an unsigned decimal integer: an optional `+` followed
/// by one or more digits.
pub open spec fn is_unsigned_literal(s: Seq<char>) -> bool {
    unsigned_digits(s).len() > 0 && all_digits(unsigned_digits(s))
}

/// The value of an unsigned decimal literal.
pub open spec fn unsigned_literal_value(s: Seq<char>) -> nat {
    decimal_value(unsigned_digits(s))
}

/// The character of the decimal digit `d`.
pub open spec fn digit_char(d: nat) -> char {
    if d == 0 {
        '0'
    } else if d == 1 {
        '1'
    } else if d == 2 {
        '2'
    } else if d == 3 {
        '3'
    } else if d == 4 {
        '4'
    } else if d == 5 {
        '5'
    } else if d == 6 {
        '6'
    } else if d == 7 {
        '7'
    } else if d == 8 {
        '8'
    } else {
        '9'
    }
}

/// The shortest decimal representation of `n`.
pub open spec fn decimal_string(n: nat) -> Seq<char>
    decreases n,
{
    if n < 10 {
        seq![digit_char(n)]
    } else {
        decimal_string(n / 10).push(digit_char(n % 10))
    }
}

/// Strict lexicographic order on strings by code point, the order of `str`
/// and `String`.
pub open spec fn lex_lt(a: Seq<char>, b: Seq<char>) -> bool
    decreases a.len(),
{
    if a.len() == 0 {
        b.len() > 0
    } else if b.len() == 0 {
        false
    } else if a[0] == b[0] {
        lex_lt(a.drop_first(), b.drop_first())
    } else {
        (a[0] as int) < (b[0] as int)
    }
}

/// Non-strict lexicographic order.
pub open spec fn lex_le(a: Seq<char>, b: Seq<char>) -> bool {
    !lex_lt(b, a)
}

/// The pieces of `s` between occurrences of `c` (`str::split` with a
/// character pattern); there is always at least one piece.
pub open spec fn split_seq(s: Seq<char>, c: char) -> Seq<Seq<char>>
    decreases s.len(),
{
    if s.len() == 0 {
        seq![Seq::empty()]
    } else {
        let prev = split_seq(s.drop_last(), c);
        if s.last() == c {
            prev.push(Seq::empty())
        } else {
            prev.update(prev.len() - 1, prev.last().push(s.last()))
        }
    }
}

/// `s` with every leading `c` removed (`str::trim_start_matches` with a
/// character pattern).
pub open spec fn trim_start_char_spec(s: Seq<char>, c: char) -> Seq<char>
    decreases s.len(),
{
    if s.len() > 0 && s[0] == c {
        trim_start_char_spec(s.drop_first(), c)
    } else {
        s
    }
}

/// `s` does not contain `c`.
pub open spec fn lacks_char(s: Seq<char>, c: char) -> bool {
    forall|i: int| 0 <= i < s.len() ==> s[i] != c
}

/// The pieces joined with `sep` between them (`slice::join`).
pub open spec fn join(parts: Seq<Seq<char>>, sep: Seq<char>) -> Seq<char>
    decreases parts.len(),
{
    if parts.len() == 0 {
        Seq::empty()
    } else if parts.len() == 1 {
        parts[0]
    } else {
        join(parts.drop_last(), sep) + sep + parts.last()
    }
}

// ---------------------------------------------------------------------------
// Lemmas
// ---------------------------------------------------------------------------

/// The lexicographic order is irreflexive.
pub proof fn lemma_lex_irreflexive(a: Seq<char>)
    ensures
        !lex_lt(a, a),
    decreases a.len(),
{
    if a.len() > 0 {
        lemma_lex_irreflexive(a.drop_first());
    }
}

/// The lexicographic order is total: of two different strings one is less.
pub proof fn lemma_lex_total(a: Seq<char>, b: Seq<char>)
    ensures
        a =~= b || lex_lt(a, b) || lex_lt(b, a),
    decreases a.len(),
{
    if a.len() > 0 && b.len() > 0 && a[0] == b[0] {
        lemma_lex_total(a.drop_first(), b.drop_first());
        if a.drop_first() =~= b.drop_first() {
            assert(a =~= seq![a[0]] + a.drop_first());
            assert(b =~= seq![b[0]] + b.drop_first());
        }
    }
}

/// The lexicographic order is asymmetric.
pub proof fn lemma_lex_asymmetric(a: Seq<char>, b: Seq<char>)
    ensures
        !(lex_lt(a, b) && lex_lt(b, a)),
    decreases a.len(),
{
    if a.len() > 0 && b.len() > 0 && a[0] == b[0] {
        lemma_lex_asymmetric(a.drop_first(), b.drop_first());
    }
}

/// The lexicographic order is transitive.
pub proof fn lemma_lex_transitive(a: Seq<char>, b: Seq<char>, c: Seq<char>)
    requires
        lex_lt(a, b),
        lex_lt(b, c),
    ensures
        lex_lt(a, c),
    decreases a.len(),
{
    if a.len() > 0 && b.len() > 0 && c.len() > 0 {
        if a[0] == b[0] && b[0] == c[0] {
            lemma_lex_transitive(a.drop_first(), b.drop_first(), c.drop_first());
        }
    }
}

/// The non-strict order is transitive.
pub proof fn lemma_lex_le_transitive(a: Seq<char>, b: Seq<char>, c: Seq<char>)
    requires
        lex_le(a, b),
        lex_le(b, c),
    ensures
        lex_le(a, c),
{
    if lex_lt(c, a) {
        lemma_lex_total(a, b);
        lemma_lex_total(b, c);
        if a =~= b {
        } else if b =~= c {
        } else {
            lemma_lex_transitive(a, b, c);
            lemma_lex_asymmetric(a, c);
        }
    }
}

/// A longer run of digits denotes a value at least as large.
pub proof fn lemma_decimal_prefix_le(s: Seq<char>, k: int)
    requires
        0 <= k <= s.len(),
    ensures
        decimal_value(s.subrange(0, k)) <= decimal_value(s),
    decreases s.len() - k,
{
    if k < s.len() {
        lemma_decimal_prefix_le(s, k + 1);
        assert(s.subrange(0, k + 1).drop_last() =~= s.subrange(0, k));
    } else {
        assert(s.subrange(0, k) =~= s);
    }
}

/// There is at most one first occurrence.
pub proof fn lemma_first_occurrence_unique(s: Seq<char>, p: Seq<char>, i: int, j: int)
    requires
        is_first_occurrence(s, p, i),
        is_first_occurrence(s, p, j),
    ensures
        i == j,
{
}

/// Splitting at a character that the first part lacks gives the parts back.
pub proof fn lemma_split_at_separator(a: Seq<char>, c: char, b: Seq<char>)
    requires
        lacks_char(a, c),
    ensures
        split_at_first(a.push(c) + b, seq![c]) == Some((a, b)),
{
    let s = a.push(c) + b;
    let p = seq![c];
    let i = a.len() as int;
    assert(s.subrange(i, i + 1) =~= p);
    assert forall|j: int| 0 <= j < i implies !occurs_at(s, p, j) by {
        assert(s[j] == a[j]);
        assert(s.subrange(j, j + 1)[0] == s[j]);
    }
    assert(is_first_occurrence(s, p, i));
    let k = choose|k: int| is_first_occurrence(s, p, k);
    lemma_first_occurrence_unique(s, p, i, k);
    assert(s.subrange(0, i) =~= a);
    assert(s.subrange(i + 1, s.len() as int) =~= b);
}

/// Splitting at a pattern whose first character the first part lacks gives
/// the parts back.
pub proof fn lemma_split_at_pattern(a: Seq<char>, p: Seq<char>, b: Seq<char>)
    requires
        p.len() > 0,
        lacks_char(a, p[0]),
    ensures
        split_at_first(a + p + b, p) == Some((a, b)),
{
    let s = a + p + b;
    let i = a.len() as int;
    assert(s.subrange(i, i + p.len()) =~= p);
    assert forall|j: int| 0 <= j < i implies !occurs_at(s, p, j) by {
        assert(s[j] == a[j]);
        assert(s.subrange(j, j + p.len())[0] == s[j]);
    }
    assert(is_first_occurrence(s, p, i));
    let k = choose|k: int| is_first_occurrence(s, p, k);
    lemma_first_occurrence_unique(s, p, i, k);
    assert(s.subrange(0, i) =~= a);
    assert(s.subrange(i + p.len(), s.len() as int) =~= b);
}

/// A character that occurs once in a text does not occur twice in a row.
pub proof fn lemma_no_double(a: Seq<char>, c: char, b: Seq<char>)
    requires
        lacks_char(a, c),
        lacks_char(b, c),
    ensures
        split_at_first(a.push(c) + b, seq![c, c]) is None,
{
    let s = a.push(c) + b;
    let p = seq![c, c];
    if exists|i: int| is_first_occurrence(s, p, i) {
        let i = choose|i: int| is_first_occurrence(s, p, i);
        assert(s.subrange(i, i + 2)[0] == s[i]);
        assert(s.subrange(i, i + 2)[1] == s[i + 1]);
        if i < a.len() {
            assert(s[i] == a[i]);
        } else if i == a.len() {
            assert(s[i + 1] == b[0]);
        } else {
            assert(s[i] == b[i - a.len() - 1]);
        }
    }
}

/// Two texts that lack a character, joined, lack it.
pub proof fn lemma_lacks_concat(a: Seq<char>, b: Seq<char>, c: char)
    requires
        lacks_char(a, c),
        lacks_char(b, c),
    ensures
        lacks_char(a + b, c),
{
    assert forall|i: int| 0 <= i < (a + b).len() implies (a + b)[i] != c by {
        if i < a.len() {
            assert((a + b)[i] == a[i]);
        } else {
            assert((a + b)[i] == b[i - a.len()]);
        }
    }
}

/// A text that lacks the first character of a pattern does not contain it.
pub proof fn lemma_split_absent(s: Seq<char>, p: Seq<char>)
    requires
        p.len() > 0,
        lacks_char(s, p[0]),
    ensures
        split_at_first(s, p) is None,
{
    if exists|i: int| is_first_occurrence(s, p, i) {
        let i = choose|i: int| is_first_occurrence(s, p, i);
        assert(s.subrange(i, i + p.len())[0] == s[i]);
    }
}

/// Splitting always yields at least one piece.
pub proof fn lemma_split_nonempty(s: Seq<char>, c: char)
    ensures
        split_seq(s, c).len() >= 1,
    decreases s.len(),
{
    if s.len() > 0 {
        lemma_split_nonempty(s.drop_last(), c);
    }
}

/// A string without `c` splits into itself alone.
pub proof fn lemma_split_without_separator(s: Seq<char>, c: char)
    requires
        lacks_char(s, c),
    ensures
        split_seq(s, c) == seq![s],
    decreases s.len(),
{
    if s.len() > 0 {
        lemma_split_without_separator(s.drop_last(), c);
        assert(s.drop_last().push(s.last()) =~= s);
        assert(split_seq(s, c) =~= seq![s]);
    } else {
        assert(s =~= Seq::<char>::empty());
    }
}

/// Splitting `a + [c] + b`, where `b` lacks `c`, appends `b` to the split of
/// `a`.
pub proof fn lemma_split_append_piece(a: Seq<char>, b: Seq<char>, c: char)
    requires
        lacks_char(b, c),
    ensures
        split_seq(a.push(c) + b, c) == split_seq(a, c).push(b),
    decreases b.len(),
{
    if b.len() == 0 {
        assert(b =~= Seq::<char>::empty());
        assert(a.push(c) + b =~= a.push(c));
        assert(a.push(c).drop_last() =~= a);
    } else {
        let s = a.push(c) + b;
        lemma_split_append_piece(a, b.drop_last(), c);
        assert(s.drop_last() =~= a.push(c) + b.drop_last());
        assert(b.drop_last().push(b.last()) =~= b);
        assert(split_seq(s, c) =~= split_seq(a, c).push(b));
    }
}

// ---------------------------------------------------------------------------
// Trusted items for std functions without a specification in vstd
// ---------------------------------------------------------------------------

/// Calls `char::is_whitespace`; its result is the Unicode `White_Space`
/// property of `c`, which `is_white_space` spells out.
#[verifier::external_body]
fn char_is_whitespace(c: char) -> (b: bool)
    ensures
        b == is_white_space(c),
{
    c.is_whitespace()
}

/// Calls `str::to_lowercase`; its result is named `lowercase_of`.
#[verifier::external_body]
fn str_to_lowercase(s: &str) -> (r: String)
    ensures
        r@ == lowercase_of(s@),
{
    s.to_lowercase()
}

// ---------------------------------------------------------------------------
// Executable operations
// ---------------------------------------------------------------------------

/// Whether `p` occurs in `s` at index `i`.
pub fn matches_at(s: &str, p: &str, i: usize) -> (b: bool)
    ensures
        b == occurs_at(s@, p@, i as int),
{
    let n = p.unicode_len();
    let m = s.unicode_len();
    if n > m || i > m - n {
        return false;
    }
    let mut k: usize = 0;
    while k < n
        invariant
            n == p@.len(),
            m == s@.len(),
            i + n <= m,
            k <= n,
            forall|j: int| 0 <= j < k ==> s@[i + j] == p@[j],
        decreases n - k,
    {
        if s.get_char(i + k) != p.get_char(k) {
            assert(s@.subrange(i as int, i + n)[k as int] != p@[k as int]);
            return false;
        }
        k = k + 1;
    }
    assert(s@.subrange(i as int, i + n) =~= p@);
    true
}

/// The first index at or after `from` at which `p` occurs in `s`.
pub fn find_from(s: &str, p: &str, from: usize) -> (r: Option<usize>)
    ensures
        match r {
            Some(i) => from <= i && occurs_at(s@, p@, i as int) && forall|j: int|
                from <= j < i ==> !occurs_at(s@, p@, j),
            None => forall|j: int| from <= j ==> !occurs_at(s@, p@, j),
        },
{
    let n = p.unicode_len();
    let m = s.unicode_len();
    if n > m {
        return None;
    }
    if from > m - n {
        return None;
    }
    let mut i = from;
    loop
        invariant
            n == p@.len(),
            m == s@.len(),
            n <= m,
            from <= i <= m - n,
            forall|j: int| from <= j < i ==> !occurs_at(s@, p@, j),
        decreases m - i,
    {
        if matches_at(s, p, i) {
            return Some(i);
        }
        if i == m - n {
            return None;
        }
        i = i + 1;
    }
}

/// The last index at which `p` occurs in `s`.
pub fn find_last(s: &str, p: &str) -> (r: Option<usize>)
    ensures
        match r {
            Some(i) => is_last_occurrence(s@, p@, i as int),
            None => !has_substring(s@, p@),
        },
{
    let n = p.unicode_len();
    let m = s.unicode_len();
    if n > m {
        return None;
    }
    let mut i = m - n;
    loop
        invariant
            n == p@.len(),
            m == s@.len(),
            n <= m,
            i <= m - n,
            forall|j: int| i < j ==> !occurs_at(s@, p@, j),
        decreases i,
    {
        if matches_at(s, p, i) {
            return Some(i);
        }
        if i == 0 {
            assert forall|j: int| !occurs_at(s@, p@, j) by {
                if 0 <= j {
                }
            }
            return None;
        }
        i = i - 1;
    }
}

/// Whether `s` begins with `p` (`str::starts_with`).
pub fn starts_with(s: &str, p: &str) -> (b: bool)
    ensures
        b == has_prefix(s@, p@),
{
    let r = matches_at(s, p, 0);
    proof {
        if has_prefix(s@, p@) {
            assert(occurs_at(s@, p@, 0));
        }
    }
    r
}

/// Whether `s` ends with `p` (`str::ends_with`).
pub fn ends_with(s: &str, p: &str) -> (b: bool)
    ensures
        b == has_suffix(s@, p@),
{
    let n = p.unicode_len();
    let m = s.unicode_len();
    if n > m {
        return false;
    }
    matches_at(s, p, m - n)
}

/// Whether `p` occurs in `s` (`str::contains`).
pub fn contains(s: &str, p: &str) -> (b: bool)
    ensures
        b == has_substring(s@, p@),
{
    match find_from(s, p, 0) {
        Some(i) => true,
        None => {
            assert forall|j: int| !occurs_at(s@, p@, j) by {
                if 0 <= j {
                }
            }
            false
        },
    }
}

/// Whether two strings are equal.
pub fn str_eq(a: &str, b: &str) -> (r: bool)
    ensures
        r == (a@ == b@),
{
    let n = a.unicode_len();
    if n != b.unicode_len() {
        return false;
    }
    let r = matches_at(a, b, 0);
    proof {
        if r {
            assert(a@.subrange(0, n as int) =~= a@);
        }
        if a@ == b@ {
            assert(a@.subrange(0, n as int) =~= a@);
        }
    }
    r
}

/// Splits `s` at the first occurrence of `p` (`str::split_once`).
pub fn split_once<'a>(s: &'a str, p: &str) -> (r: Option<(&'a str, &'a str)>)
    ensures
        match r {
            Some((a, b)) => split_at_first(s@, p@) == Some((a@, b@)),
            None => split_at_first(s@, p@) == None::<(Seq<char>, Seq<char>)>,
        },
        split_once_spec(
            s@,
            p@,
            match r {
                Some((a, b)) => Some((a@, b@)),
                None => None,
            },
        ),
{
    match find_from(s, p, 0) {
        Some(i) => {
            let m = s.unicode_len();
            let n = p.unicode_len();
            let a = s.substring_char(0, i);
            let b = s.substring_char(i + n, m);
            assert(is_first_occurrence(s@, p@, i as int));
            proof {
                let k = choose|k: int| is_first_occurrence(s@, p@, k);
                lemma_first_occurrence_unique(s@, p@, i as int, k);
            }
            Some((a, b))
        },
        None => {
            assert forall|j: int| !occurs_at(s@, p@, j) by {
                if 0 <= j {
                }
            }
            None
        },
    }
}

/// Splits `s` at the last occurrence of `p` (`str::rsplit_once`).
pub fn rsplit_once<'a>(s: &'a str, p: &str) -> (r: Option<(&'a str, &'a str)>)
    ensures
        match r {
            Some((a, b)) => split_at_last(s@, p@) == Some((a@, b@)),
            None => split_at_last(s@, p@) == None::<(Seq<char>, Seq<char>)>,
        },
        rsplit_once_spec(
            s@,
            p@,
            match r {
                Some((a, b)) => Some((a@, b@)),
                None => None,
            },
        ),
{
    match find_last(s, p) {
        Some(i) => {
            let m = s.unicode_len();
            let n = p.unicode_len();
            let a = s.substring_char(0, i);
            let b = s.substring_char(i + n, m);
            proof {
                let k = choose|k: int| is_last_occurrence(s@, p@, k);
                assert(k == i);
            }
            Some((a, b))
        },
        None => {
            proof {
                if exists|k: int| is_last_occurrence(s@, p@, k) {
                    let k = choose|k: int| is_last_occurrence(s@, p@, k);
                    assert(occurs_at(s@, p@, k));
                }
            }
            None
        },
    }
}

/// The string without its leading and trailing white space (`str::trim`).
pub fn trim(s: &str) -> (r: &str)
    ensures
        is_trim_of(s@, r@),
{
    let m = s.unicode_len();
    let mut a: usize = 0;
    while a < m && char_is_whitespace(s.get_char(a))
        invariant
            m == s@.len(),
            a <= m,
            forall|i: int| 0 <= i < a ==> is_white_space(#[trigger] s@[i]),
        decreases m - a,
    {
        a = a + 1;
    }
    let mut b: usize = m;
    while b > a && char_is_whitespace(s.get_char(b - 1))
        invariant
            m == s@.len(),
            a <= b <= m,
            forall|i: int| b <= i < m ==> is_white_space(#[trigger] s@[i]),
            a < m ==> !is_white_space(s@[a as int]),
        decreases b,
    {
        b = b - 1;
    }
    let r = s.substring_char(a, b);
    assert(trim_bounds(s@, a as int, b as int));
    r
}

/// The lower-case form of `s` (`str::to_lowercase`).
pub fn to_lowercase(s: &str) -> (r: String)
    ensures
        r@ == lowercase_of(s@),
{
    str_to_lowercase(s)
}

/// `s` with every `from` replaced by `to` (`str::replace` with a one-character
/// pattern).
pub fn replace_char(s: &str, from: char, to: &str) -> (r: String)
    ensures
        r@ == replace_char_spec(s@, from, to@),
{
    let m = s.unicode_len();
    let mut out = String::new();
    let mut i: usize = 0;
    while i < m
        invariant
            m == s@.len(),
            i <= m,
            out@ == replace_char_spec(s@.subrange(0, i as int), from, to@),
        decreases m - i,
    {
        let c = s.get_char(i);
        assert(s@.subrange(0, i + 1).drop_last() =~= s@.subrange(0, i as int));
        if c == from {
            out.append(to);
        } else {
            let piece = s.substring_char(i, i + 1);
            assert(piece@ =~= seq![c]);
            out.append(piece);
        }
        i = i + 1;
    }
    assert(s@.subrange(0, m as int) =~= s@);
    out
}

/// Parses an unsigned decimal integer the way `str::parse::<u64>` does.
pub fn parse_u64(s: &str) -> (r: Option<u64>)
    ensures
        r is Some <==> is_unsigned_literal(s@) && unsigned_literal_value(s@) <= u64::MAX,
        r matches Some(v) ==> v == unsigned_literal_value(s@),
{
    let m = s.unicode_len();
    let start: usize = if m > 0 && s.get_char(0) == '+' {
        1
    } else {
        0
    };
    let ghost body = unsigned_digits(s@);
    assert(body =~= s@.subrange(start as int, m as int));
    if start == m {
        return None;
    }
    let mut acc: u64 = 0;
    let mut i: usize = start;
    while i < m
        invariant
            m == s@.len(),
            start <= i <= m,
            body == unsigned_digits(s@),
            body == s@.subrange(start as int, m as int),
            all_digits(body.subrange(0, i - start)),
            acc == decimal_value(body.subrange(0, i - start)),
        decreases m - i,
    {
        let c = s.get_char(i);
        assert(body.subrange(0, i + 1 - start).drop_last() =~= body.subrange(0, i - start));
        if !('0' <= c && c <= '9') {
            assert(!is_digit(body[i - start]));
            return None;
        }
        let d = (c as u32 - '0' as u32) as u64;
        let next = match acc.checked_mul(10) {
            Some(t) => t.checked_add(d),
            None => None,
        };
        assert(decimal_value(body.subrange(0, i + 1 - start)) == acc * 10 + d);
        match next {
            Some(v) => {
                acc = v;
            },
            None => {
                proof {
                    lemma_decimal_prefix_le(body, i + 1 - start);
                    if all_digits(body) {
                    }
                }
                return None;
            },
        }
        i = i + 1;
    }
    assert(body.subrange(0, m - start) =~= body);
    Some(acc)
}

/// Parses an unsigned decimal integer the way `str::parse::<usize>` does.
pub fn parse_usize(s: &str) -> (r: Option<usize>)
    ensures
        r is Some <==> is_unsigned_literal(s@) && unsigned_literal_value(s@) <= usize::MAX,
        r matches Some(v) ==> v == unsigned_literal_value(s@),
{
    match parse_u64(s) {
        Some(v) => {
            if v <= usize::MAX as u64 {
                Some(v as usize)
            } else {
                None
            }
        },
        None => None,
    }
}

/// The one-character string of the decimal digit `d`.
fn digit_str(d: u64) -> (r: &'static str)
    requires
        d < 10,
    ensures
        r@ == seq![digit_char(d as nat)],
{
    if d == 0 {
        proof {
            reveal_strlit("0");
        }
        "0"
    } else if d == 1 {
        proof {
            reveal_strlit("1");
        }
        "1"
    } else if d == 2 {
        proof {
            reveal_strlit("2");
        }
        "2"
    } else if d == 3 {
        proof {
            reveal_strlit("3");
        }
        "3"
    } else if d == 4 {
        proof {
            reveal_strlit("4");
        }
        "4"
    } else if d == 5 {
        proof {
            reveal_strlit("5");
        }
        "5"
    } else if d == 6 {
        proof {
            reveal_strlit("6");
        }
        "6"
    } else if d == 7 {
        proof {
            reveal_strlit("7");
        }
        "7"
    } else if d == 8 {
        proof {
            reveal_strlit("8");
        }
        "8"
    } else {
        proof {
            reveal_strlit("9");
        }
        "9"
    }
}

/// Appends the decimal representation of `n` to `out`.
pub fn push_decimal(out: &mut String, n: u64)
    ensures
        final(out)@ == old(out)@ + decimal_string(n as nat),
    decreases n,
{
    if n >= 10 {
        push_decimal(out, n / 10);
    }
    out.append(digit_str(n % 10));
    assert(decimal_string(n as nat) == if n < 10 {
        seq![digit_char(n as nat)]
    } else {
        decimal_string((n / 10) as nat).push(digit_char((n % 10) as nat))
    });
}

/// The decimal representation of `n` (`n.to_string()`).
pub fn decimal(n: u64) -> (r: String)
    ensures
        r@ == decimal_string(n as nat),
{
    let mut s = String::new();
    push_decimal(&mut s, n);
    s
}

/// The pieces of `s` between occurrences of `c` (`str::split`).
pub fn split_char(s: &str, c: char) -> (r: Vec<String>)
    ensures
        r@.map_values(|x: String| x@) == split_seq(s@, c),
{
    let m = s.unicode_len();
    let mut done: Vec<String> = Vec::new();
    let mut cur = String::new();
    let mut i: usize = 0;
    assert(s@.subrange(0, 0) =~= Seq::<char>::empty());
    assert(done@.map_values(|x: String| x@).push(cur@) =~= seq![Seq::<char>::empty()]);
    while i < m
        invariant
            m == s@.len(),
            i <= m,
            done@.map_values(|x: String| x@).push(cur@) == split_seq(s@.subrange(0, i as int), c),
        decreases m - i,
    {
        let ch = s.get_char(i);
        let ghost before = done@.map_values(|x: String| x@);
        let ghost old_cur = cur@;
        assert(s@.subrange(0, i + 1).drop_last() =~= s@.subrange(0, i as int));
        if ch == c {
            done.push(cur);
            cur = String::new();
            assert(done@.map_values(|x: String| x@) =~= before.push(old_cur));
            assert(done@.map_values(|x: String| x@).push(cur@) =~= before.push(old_cur).push(
                Seq::empty(),
            ));
        } else {
            let piece = s.substring_char(i, i + 1);
            assert(piece@ =~= seq![ch]);
            cur.append(piece);
            assert(cur@ =~= old_cur.push(ch));
            assert(done@.map_values(|x: String| x@) =~= before);
            assert(before.push(old_cur).update(before.len() as int, old_cur.push(ch)) =~= before.push(
                cur@,
            ));
        }
        i = i + 1;
    }
    assert(s@.subrange(0, m as int) =~= s@);
    let ghost before = done@.map_values(|x: String| x@);
    done.push(cur);
    assert(done@.map_values(|x: String| x@) =~= before.push(cur@));
    done
}

/// `s` without its leading `c` characters (`str::trim_start_matches`).
pub fn trim_start_char(s: &str, c: char) -> (r: &str)
    ensures
        r@ == trim_start_char_spec(s@, c),
{
    let m = s.unicode_len();
    let mut i: usize = 0;
    assert(s@.skip(0) =~= s@);
    while i < m && s.get_char(i) == c
        invariant
            m == s@.len(),
            i <= m,
            trim_start_char_spec(s@, c) == trim_start_char_spec(s@.skip(i as int), c),
        decreases m - i,
    {
        assert(s@.skip(i as int).drop_first() =~= s@.skip(i + 1));
        i = i + 1;
    }
    let r = s.substring_char(i, m);
    assert(r@ =~= s@.skip(i as int));
    r
}

/// The pieces joined with `sep` between them (`parts.join(sep)`).
pub fn join_strings(parts: &[String], sep: &str) -> (r: String)
    ensures
        r@ == join(parts@.map_values(|p: String| p@), sep@),
{
    let ghost all = parts@.map_values(|p: String| p@);
    let mut out = String::new();
    let mut i: usize = 0;
    assert(all.take(0) =~= Seq::<Seq<char>>::empty());
    while i < parts.len()
        invariant
            i <= parts@.len(),
            all == parts@.map_values(|p: String| p@),
            out@ == join(all.take(i as int), sep@),
        decreases parts@.len() - i,
    {
        assert(all.take(i + 1).drop_last() =~= all.take(i as int));
        assert(all.take(i + 1).last() == parts@[i as int]@);
        if i == 0 {
            assert(all.take(1) =~= seq![parts@[0]@]);
        } else {
            out.append(sep);
        }
        out.append(parts[i].as_str());
        i = i + 1;
    }
    assert(all.take(parts@.len() as int) =~= all);
    out
}

/// Whether `a` sorts strictly before `b` (`a < b` on strings).
pub fn str_less(a: &str, b: &str) -> (r: bool)
    ensures
        r == lex_lt(a@, b@),
{
    let n = a.unicode_len();
    let m = b.unicode_len();
    let mut i: usize = 0;
    assert(a@.skip(0) =~= a@);
    assert(b@.skip(0) =~= b@);
    while i < n && i < m
        invariant
            n == a@.len(),
            m == b@.len(),
            i <= n,
            i <= m,
            lex_lt(a@, b@) == lex_lt(a@.skip(i as int), b@.skip(i as int)),
        decreases n - i,
    {
        let x = a.get_char(i);
        let y = b.get_char(i);
        assert(a@.skip(i as int)[0] == x);
        assert(b@.skip(i as int)[0] == y);
        if x != y {
            return (x as u32) < (y as u32);
        }
        assert(a@.skip(i as int).drop_first() =~= a@.skip(i + 1));
        assert(b@.skip(i as int).drop_first() =~= b@.skip(i + 1));
        i = i + 1;
    }
    i < m
}


// ---------------------------------------------------------------------------
// Words
// ---------------------------------------------------------------------------

/// The length of the run of non-white-space characters that starts `s`.
pub open spec fn word_len(s: Seq<char>) -> nat
    decreases s.len(),
{
    if s.len() == 0 || is_white_space(s[0]) {
        0
    } else {
        1 + word_len(s.drop_first())
    }
}

/// The run that starts `s` lies within `s`, is not empty where `s` starts
/// with a non-white-space character, and is the first `k` characters where
/// these are not white space and the next one is.
pub proof fn lemma_word_len(s: Seq<char>, k: int)
    ensures
        word_len(s) <= s.len(),
        s.len() > 0 && !is_white_space(s[0]) ==> word_len(s) >= 1,
        0 <= k <= s.len() && (forall|j: int| 0 <= j < k ==> !is_white_space(#[trigger] s[j])) && (k
            == s.len() || is_white_space(s[k])) ==> word_len(s) == k,
    decreases s.len(),
{
    if s.len() > 0 && !is_white_space(s[0]) {
        lemma_word_len(s.drop_first(), k - 1);
        if 0 < k <= s.len() && (forall|j: int| 0 <= j < k ==> !is_white_space(#[trigger] s[j])) && (
        k == s.len() || is_white_space(s[k])) {
            assert forall|j: int| 0 <= j < k - 1 implies !is_white_space(
                #[trigger] s.drop_first()[j],
            ) by {
                assert(s.drop_first()[j] == s[j + 1]);
            }
            if k < s.len() {
                assert(s.drop_first()[k - 1] == s[k]);
            }
        }
    }
}

/// The words of `s`: its maximal runs of non-white-space characters, in order
/// (`str::split_whitespace`).
pub open spec fn words(s: Seq<char>) -> Seq<Seq<char>>
    decreases s.len(),
{
    if s.len() == 0 {
        Seq::empty()
    } else if is_white_space(s[0]) {
        words(s.drop_first())
    } else {
        proof {
            lemma_word_len(s, 0);
        }
        seq![s.take(word_len(s) as int)] + words(s.skip(word_len(s) as int))
    }
}

/// The word of `s` at index `n` (`str::split_whitespace` and `nth`).
pub fn nth_word(s: &str, n: usize) -> (r: Option<&str>)
    ensures
        match r {
            Some(w) => n < words(s@).len() && w@ == words(s@)[n as int],
            None => n >= words(s@).len(),
        },
{
    let m = s.unicode_len();
    let mut i: usize = 0;
    let mut count: usize = 0;
    let ghost mut seen: Seq<Seq<char>> = Seq::empty();
    assert(s@.skip(0) =~= s@);
    while i < m
        invariant
            m == s@.len(),
            i <= m,
            count == seen.len(),
            count <= n,
            words(s@) == seen + words(s@.skip(i as int)),
        decreases m - i,
    {
        let c = s.get_char(i);
        if char_is_whitespace(c) {
            proof {
                let t = s@.skip(i as int);
                assert(t[0] == c);
                assert(t.drop_first() =~= s@.skip(i + 1));
            }
            i = i + 1;
        } else {
            let start = i;
            while i < m && !char_is_whitespace(s.get_char(i))
                invariant
                    m == s@.len(),
                    start <= i <= m,
                    forall|j: int| start <= j < i ==> !is_white_space(#[trigger] s@[j]),
                decreases m - i,
            {
                i = i + 1;
            }
            let ghost t = s@.skip(start as int);
            let ghost w = s@.subrange(start as int, i as int);
            proof {
                let k = (i - start) as int;
                assert forall|j: int| 0 <= j < k implies !is_white_space(#[trigger] t[j]) by {
                    assert(t[j] == s@[start + j]);
                }
                if i < m {
                    assert(t[k] == s@[i as int]);
                }
                lemma_word_len(t, k);
                assert(t[0] == c);
                assert(t.take(k) =~= w);
                assert(t.skip(k) =~= s@.skip(i as int));
                assert(words(t) == seq![w] + words(s@.skip(i as int)));
            }
            if count == n {
                let r = s.substring_char(start, i);
                assert((seen + (seq![w] + words(s@.skip(i as int))))[n as int] == w);
                assert(seen + (seq![w] + words(s@.skip(i as int))) =~= seen.push(w) + words(
                    s@.skip(i as int),
                ));
                return Some(r);
            }
            proof {
                assert(seen + (seq![w] + words(s@.skip(i as int))) =~= seen.push(w) + words(
                    s@.skip(i as int),
                ));
                seen = seen.push(w);
            }
            count = count + 1;
        }
    }
    assert(s@.skip(m as int) =~= Seq::<char>::empty());
    assert(seen + words(s@.skip(m as int)) =~= seen);
    None
}

} // verus!
