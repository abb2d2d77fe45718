//! The version in the name of a release archive, such as `v1.53.0` in
//! `sui-testnet-v1.53.0-ubuntu-x86_64.tgz`.

use vstd::prelude::*;

use crate::text::is_digit;

verus! {

/// The number of digits in `s` from index `i` on, up to the first other
/// character.
pub open spec fn digit_run(s: Seq<char>, i: int) -> nat
    decreases s.len() - i,
{
    if 0 <= i < s.len() && is_digit(s[i]) {
        1 + digit_run(s, i + 1)
    } else {
        0
    }
}

/// Where a version `v<digits>.<digits>.<digits>` that starts at `i` ends, the
/// runs of digits taken whole; `None` if no version starts at `i`.
pub open spec fn version_end(s: Seq<char>, i: int) -> Option<int> {
    let a = i + 1;
    let n1 = digit_run(s, a);
    let b = a + n1;
    let n2 = digit_run(s, b + 1);
    let c = b + 1 + n2;
    let n3 = digit_run(s, c + 1);
    if 0 <= i < s.len() && s[i] == 'v' && n1 > 0 && b < s.len() && s[b] == '.' && n2 > 0 && c
        < s.len() && s[c] == '.' && n3 > 0 {
        Some(c + 1 + n3)
    } else {
        None
    }
}

/// The first version in `s`, as the pattern `v\d+\.\d+\.\d+` finds it.
pub open spec fn first_version(s: Seq<char>) -> Option<Seq<char>> {
    if exists|i: int| 0 <= i < s.len() && #[trigger] version_end(s, i) is Some {
        let i = choose|i: int|
            0 <= i < s.len() && version_end(s, i) is Some && forall|j: int|
                0 <= j < i ==> #[trigger] version_end(s, j) is None;
        Some(s.subrange(i, version_end(s, i).unwrap()))
    } else {
        None
    }
}

/// The first index where a version starts is unique.
proof fn lemma_first_start_unique(s: Seq<char>, i: int, k: int)
    requires
        0 <= i < s.len(),
        version_end(s, i) is Some,
        forall|j: int| 0 <= j < i ==> #[trigger] version_end(s, j) is None,
        0 <= k < s.len(),
        version_end(s, k) is Some,
        forall|j: int| 0 <= j < k ==> #[trigger] version_end(s, j) is None,
    ensures
        i == k,
{
    if i < k {
        assert(version_end(s, i) is None);
    } else if k < i {
        assert(version_end(s, k) is None);
    }
}

/// A run of digits lies within `s`.
proof fn lemma_digit_run_bound(s: Seq<char>, i: int)
    requires
        0 <= i,
    ensures
        i + digit_run(s, i) <= if i <= s.len() {
            s.len() as int
        } else {
            i
        },
        forall|j: int| i <= j < i + digit_run(s, i) ==> is_digit(#[trigger] s[j]),
        i + digit_run(s, i) < s.len() ==> !is_digit(s[i + digit_run(s, i)]),
    decreases s.len() - i,
{
    if 0 <= i < s.len() && is_digit(s[i]) {
        lemma_digit_run_bound(s, i + 1);
    }
}

/// Why no version was found.
#[derive(Debug, Clone, Copy, PartialEq, Eq, Structural)]
pub enum ReleaseVersionError {
    /// The name holds no `vX.Y.Z`.
    NotFound,
}

impl ReleaseVersionError {
    /// The message of the error.
    pub fn message(&self) -> (r: &'static str)
        ensures
            r@ == "Could not extract version from release"@,
    {
        "Could not extract version from release"
    }
}

/// The number of digits of `s` from index `i` on.
fn count_digits(s: &str, i: usize) -> (r: usize)
    requires
        i <= s@.len(),
    ensures
        r == digit_run(s@, i as int),
        i + r <= s@.len(),
{
    let m = s.unicode_len();
    let mut k: usize = i;
    proof {
        lemma_digit_run_bound(s@, i as int);
    }
    while k < m && is_ascii_digit(s.get_char(k))
        invariant
            m == s@.len(),
            i <= k <= m,
            digit_run(s@, i as int) == (k - i) + digit_run(s@, k as int),
        decreases m - k,
    {
        k = k + 1;
    }
    k - i
}

/// Whether `c` is an ASCII digit.
fn is_ascii_digit(c: char) -> (r: bool)
    ensures
        r == is_digit(c),
{
    '0' <= c && c <= '9'
}

/// Where a version starting at `i` ends, if one does.
fn version_end_at(s: &str, i: usize) -> (r: Option<usize>)
    requires
        i < s@.len(),
    ensures
        match r {
            Some(e) => version_end(s@, i as int) == Some(e as int) && e <= s@.len(),
            None => version_end(s@, i as int) is None,
        },
{
    let m = s.unicode_len();
    if s.get_char(i) != 'v' {
        return None;
    }
    let a = i + 1;
    let n1 = count_digits(s, a);
    let b = a + n1;
    if n1 == 0 || b >= m || s.get_char(b) != '.' {
        return None;
    }
    let n2 = count_digits(s, b + 1);
    let c = b + 1 + n2;
    if n2 == 0 || c >= m || s.get_char(c) != '.' {
        return None;
    }
    let n3 = count_digits(s, c + 1);
    if n3 == 0 {
        return None;
    }
    Some(c + 1 + n3)
}

/// The version in the name of a release archive: its first `vX.Y.Z`.
pub fn extract_version_from_release(release: &str) -> (r: Result<String, ReleaseVersionError>)
    ensures
        match first_version(release@) {
            Some(v) => r matches Ok(w) && w@ == v,
            None => r matches Err(ReleaseVersionError::NotFound),
        },
{
    let m = release.unicode_len();
    let mut i: usize = 0;
    while i < m
        invariant
            m == release@.len(),
            i <= m,
            forall|j: int| 0 <= j < i ==> #[trigger] version_end(release@, j) is None,
        decreases m - i,
    {
        match version_end_at(release, i) {
            Some(e) => {
                proof {
                    let s = release@;
                    assert(0 <= i < s.len() && version_end(s, i as int) is Some && forall|j: int|
                        0 <= j < i ==> #[trigger] version_end(s, j) is None);
                    let k = choose|k: int|
                        0 <= k < s.len() && version_end(s, k) is Some && forall|j: int|
                            0 <= j < k ==> #[trigger] version_end(s, j) is None;
                    lemma_first_start_unique(s, i as int, k);
                }
                return Ok(String::from_str(release.substring_char(i, e)));
            },
            None => {},
        }
        i = i + 1;
    }
    Err(ReleaseVersionError::NotFound)
}

} // verus!
