//! Updating `suiup` itself: its semantic versions (`major.minor.patch`,
//! optionally written with leading `v`s), their parsing, printing and order,
//! the version a running `suiup` reports, and the release archive to fetch.

use vstd::prelude::*;

use crate::handlers::download::{detect_os_arch, os_arch_names, Platform, PlatformError};
use crate::handlers::release::with_v_prefix;
use crate::text::{
    has_prefix, nth_word, words, str_eq,
    all_digits, decimal_string, decimal_value, digit_char, digit_value, is_digit, is_unsigned_literal,
    lacks_char, lemma_split_append_piece, lemma_split_without_separator, parse_usize, push_decimal,
    split_char, split_seq, trim_start_char, trim_start_char_spec, unsigned_digits,
    unsigned_literal_value,
};

verus! {

/// A `major.minor.patch` version.
#[derive(Debug, Clone, Copy, PartialEq, Eq, PartialOrd, Ord, Structural)]
pub struct Ver {
    pub major: usize,
    pub minor: usize,
    pub patch: usize,
}

/// Why a version string was refused.
#[derive(Debug, Clone, Copy, PartialEq, Eq, Structural)]
pub enum VersionError {
    /// The text, without its leading `v`s, does not have exactly three
    /// dot-separated parts.
    InvalidFormat,
    /// One of the three parts is not an unsigned integer that fits a `usize`.
    InvalidNumber,
}

/// The dot-separated parts of a version text after its leading `v`s.
pub open spec fn version_parts(s: Seq<char>) -> Seq<Seq<char>> {
    split_seq(trim_start_char_spec(s, 'v'), '.')
}

/// A part that parses as a `usize`.
pub open spec fn is_usize_literal(p: Seq<char>) -> bool {
    is_unsigned_literal(p) && unsigned_literal_value(p) <= usize::MAX
}

/// The result of parsing a version text.
pub open spec fn parse_version(s: Seq<char>) -> Result<Ver, VersionError> {
    let p = version_parts(s);
    if p.len() != 3 {
        Err(VersionError::InvalidFormat)
    } else if is_usize_literal(p[0]) && is_usize_literal(p[1]) && is_usize_literal(p[2]) {
        Ok(
            Ver {
                major: unsigned_literal_value(p[0]) as usize,
                minor: unsigned_literal_value(p[1]) as usize,
                patch: unsigned_literal_value(p[2]) as usize,
            },
        )
    } else {
        Err(VersionError::InvalidNumber)
    }
}

/// The printed form `major.minor.patch`.
pub open spec fn version_text(v: Ver) -> Seq<char> {
    decimal_string(v.major as nat).push('.') + decimal_string(v.minor as nat).push('.')
        + decimal_string(v.patch as nat)
}

/// `a` is an earlier version than `b`: the triples compare lexicographically.
pub open spec fn version_lt(a: Ver, b: Ver) -> bool {
    a.major < b.major || (a.major == b.major && (a.minor < b.minor || (a.minor == b.minor
        && a.patch < b.patch)))
}

impl Ver {
    /// Parses `1.2.3`, `v1.2.3` (any number of leading `v`s).
    pub fn from_str(s: &str) -> (r: Result<Ver, VersionError>)
        ensures
            r == parse_version(s@),
    {
        let t = trim_start_char(s, 'v');
        let parts = split_char(t, '.');
        assert(parts@.map_values(|x: String| x@).len() == parts@.len());
        if parts.len() != 3 {
            return Err(VersionError::InvalidFormat);
        }
        assert(parts@[0]@ == version_parts(s@)[0]);
        assert(parts@[1]@ == version_parts(s@)[1]);
        assert(parts@[2]@ == version_parts(s@)[2]);
        let major = parse_usize(parts[0].as_str());
        let minor = parse_usize(parts[1].as_str());
        let patch = parse_usize(parts[2].as_str());
        match (major, minor, patch) {
            (Some(major), Some(minor), Some(patch)) => Ok(Ver { major, minor, patch }),
            _ => Err(VersionError::InvalidNumber),
        }
    }

    /// The printed form `major.minor.patch` (the `Display` of the version).
    pub fn to_string(&self) -> (r: String)
        ensures
            r@ == version_text(*self),
    {
        let mut out = String::new();
        push_decimal(&mut out, self.major as u64);
        proof {
            reveal_strlit(".");
        }
        out.append(".");
        push_decimal(&mut out, self.minor as u64);
        out.append(".");
        push_decimal(&mut out, self.patch as u64);
        assert(out@ =~= version_text(*self));
        out
    }

    /// Whether `self` is an earlier version than `other`.
    pub fn is_older_than(&self, other: &Ver) -> (r: bool)
        ensures
            r == version_lt(*self, *other),
    {
        self.major < other.major || (self.major == other.major && (self.minor < other.minor || (
        self.minor == other.minor && self.patch < other.patch)))
    }

    /// Whether `self` and `other` are the same version.
    pub fn same_as(&self, other: &Ver) -> (r: bool)
        ensures
            r == (*self == *other),
    {
        self.major == other.major && self.minor == other.minor && self.patch == other.patch
    }
}

// ---------------------------------------------------------------------------
// Laws
// ---------------------------------------------------------------------------

/// The value of the digit character of `d` is `d`.
proof fn lemma_digit_char_value(d: nat)
    requires
        d < 10,
    ensures
        is_digit(digit_char(d)),
        digit_value(digit_char(d)) == d,
        digit_char(d) != '.',
        digit_char(d) != 'v',
{
}

/// The decimal text of `n` is a non-empty run of digits denoting `n`.
proof fn lemma_decimal_string(n: nat)
    ensures
        decimal_string(n).len() > 0,
        all_digits(decimal_string(n)),
        decimal_value(decimal_string(n)) == n,
        lacks_char(decimal_string(n), '.'),
    decreases n,
{
    lemma_digit_char_value(n % 10);
    if n >= 10 {
        lemma_decimal_string(n / 10);
        let s = decimal_string(n);
        let prev = decimal_string(n / 10);
        assert(s == prev.push(digit_char(n % 10)));
        assert(s.drop_last() =~= prev);
        assert(n == (n / 10) * 10 + n % 10);
        assert(s.last() == digit_char(n % 10));
        assert(decimal_value(s) == decimal_value(prev) * 10 + digit_value(digit_char(n % 10)));
        assert forall|i: int| 0 <= i < s.len() implies is_digit(#[trigger] s[i]) && s[i] != '.' by {
            if i < prev.len() {
                assert(s[i] == prev[i]);
            }
        }
    } else {
        let s = decimal_string(n);
        assert(s.drop_last() =~= Seq::<char>::empty());
        assert(decimal_value(s) == decimal_value(s.drop_last()) * 10 + digit_value(s.last()));
    }
}

/// Printing a version and parsing the text gives the version back.
pub proof fn lemma_version_text_roundtrip(v: Ver)
    ensures
        parse_version(version_text(v)) == Ok::<Ver, VersionError>(v),
{
    let a = decimal_string(v.major as nat);
    let b = decimal_string(v.minor as nat);
    let c = decimal_string(v.patch as nat);
    lemma_decimal_string(v.major as nat);
    lemma_decimal_string(v.minor as nat);
    lemma_decimal_string(v.patch as nat);
    let t = version_text(v);
    lemma_digit_char_value(v.major as nat % 10);
    assert(t[0] == a[0]);
    assert(is_digit(a[0]));
    assert(trim_start_char_spec(t, 'v') == t);
    lemma_split_without_separator(a, '.');
    lemma_split_append_piece(a, b, '.');
    lemma_split_append_piece(a.push('.') + b, c, '.');
    assert(t =~= (a.push('.') + b).push('.') + c);
    let p = version_parts(t);
    assert(p =~= seq![a, b, c]);
    assert(unsigned_digits(a) == a);
    assert(unsigned_digits(b) == b);
    assert(unsigned_digits(c) == c);
}

/// Leading `v`s do not change the parsed version.
pub proof fn lemma_version_leading_v(s: Seq<char>)
    ensures
        parse_version(seq!['v'] + s) == parse_version(s),
{
    let t = seq!['v'] + s;
    assert(t.drop_first() =~= s);
}

/// The `v` prefix that release tags carry does not change the parsed
/// version.
pub proof fn lemma_prefixed_version_parses_alike(s: Seq<char>)
    ensures
        parse_version(with_v_prefix(s)) == parse_version(s),
{
    reveal_strlit("v");
    if !has_prefix(s, "v"@) {
        assert("v"@ + s =~= seq!['v'] + s);
        lemma_version_leading_v(s);
    }
}

/// "Earlier than" is irreflexive.
pub proof fn lemma_version_lt_irreflexive(a: Ver)
    ensures
        !version_lt(a, a),
{
}

/// "Earlier than" is transitive.
pub proof fn lemma_version_lt_transitive(a: Ver, b: Ver, c: Ver)
    requires
        version_lt(a, b),
        version_lt(b, c),
    ensures
        version_lt(a, c),
{
}

/// Of two different versions, one is earlier than the other.
pub proof fn lemma_version_lt_total(a: Ver, b: Ver)
    ensures
        a == b || version_lt(a, b) || version_lt(b, a),
{
}


// ---------------------------------------------------------------------------
// The self update
// ---------------------------------------------------------------------------

/// Why the running version could not be read.
#[derive(Debug, Clone, Copy, PartialEq, Eq, Structural)]
pub enum SelfUpdateError {
    /// The output of `suiup --version` has no second word.
    UnreadableVersion,
    /// The second word is not a version.
    Version(VersionError),
}

impl SelfUpdateError {
    /// The message of the error.
    pub fn message(&self) -> (r: &'static str)
        ensures
            r@ == match self {
                SelfUpdateError::UnreadableVersion => "Failed to parse current version for suiup binary. Please update manually."@,
                SelfUpdateError::Version(VersionError::InvalidFormat) => "Invalid version format"@,
                SelfUpdateError::Version(VersionError::InvalidNumber) => "Invalid version number"@,
            },
    {
        match self {
            SelfUpdateError::UnreadableVersion => "Failed to parse current version for suiup binary. Please update manually.",
            SelfUpdateError::Version(VersionError::InvalidFormat) => "Invalid version format",
            SelfUpdateError::Version(VersionError::InvalidNumber) => "Invalid version number",
        }
    }
}

/// The version in the output of `suiup --version` (`suiup 1.2.3`): its second
/// word.
pub open spec fn reported_version(output: Seq<char>) -> Result<Ver, SelfUpdateError> {
    let w = words(output);
    if w.len() < 2 {
        Err(SelfUpdateError::UnreadableVersion)
    } else {
        match parse_version(w[1]) {
            Ok(v) => Ok(v),
            Err(e) => Err(SelfUpdateError::Version(e)),
        }
    }
}

/// Reads the running version from the output of `suiup --version`.
pub fn current_version(output: &str) -> (r: Result<Ver, SelfUpdateError>)
    ensures
        r == reported_version(output@),
{
    match nth_word(output, 1) {
        None => Err(SelfUpdateError::UnreadableVersion),
        Some(w) => match Ver::from_str(w) {
            Ok(v) => Ok(v),
            Err(e) => Err(SelfUpdateError::Version(e)),
        },
    }
}

/// The name `suiup`'s releases give an operating system.
pub open spec fn suiup_os_name(os: Seq<char>) -> Seq<char> {
    if os == "ubuntu"@ || os == "linux"@ {
        "Linux-musl"@
    } else if os == "windows"@ {
        "Windows"@
    } else if os == "macos"@ {
        "macOS"@
    } else {
        os
    }
}

/// The name `suiup`'s releases give an architecture.
pub open spec fn suiup_arch_name(arch: Seq<char>) -> Seq<char> {
    if arch == "aarch64"@ {
        "arm64"@
    } else {
        arch
    }
}

/// The release archive of `suiup` for an OS and architecture: a `.zip` built
/// with MSVC on Windows, a `.tar.gz` elsewhere.
pub open spec fn suiup_archive_spec(os: Seq<char>, arch: Seq<char>, windows: bool) -> Seq<char> {
    if windows {
        "suiup-"@ + suiup_os_name(os) + "-msvc-"@ + suiup_arch_name(arch) + ".zip"@
    } else {
        "suiup-"@ + suiup_os_name(os) + "-"@ + suiup_arch_name(arch) + ".tar.gz"@
    }
}

/// The release archive of `suiup` for an OS and architecture as asset names
/// give them.
pub fn suiup_archive_name(os: &str, arch: &str, windows: bool) -> (r: String)
    ensures
        r@ == suiup_archive_spec(os@, arch@, windows),
{
    let o = if str_eq(os, "ubuntu") || str_eq(os, "linux") {
        "Linux-musl"
    } else if str_eq(os, "windows") {
        "Windows"
    } else if str_eq(os, "macos") {
        "macOS"
    } else {
        os
    };
    let a = if str_eq(arch, "aarch64") {
        "arm64"
    } else {
        arch
    };
    let mut s = String::from_str("suiup-");
    s.append(o);
    if windows {
        s.append("-msvc-");
        s.append(a);
        s.append(".zip");
    } else {
        s.append("-");
        s.append(a);
        s.append(".tar.gz");
    }
    s
}

/// The release archive of `suiup` for this machine, whose CPU architecture is
/// `arch` (`std::env::consts::ARCH`), `windows` telling whether it runs
/// Windows.
pub fn find_archive_name(arch: &str, windows: bool) -> (r: Result<String, PlatformError>)
    ensures
        exists|p: Platform|
            #![trigger os_arch_names(p, arch@)]
            match (r, os_arch_names(p, arch@)) {
                (Ok(n), Ok((o, a))) => n@ == suiup_archive_spec(o, a, windows),
                (Err(e), Err(se)) => e == se,
                _ => false,
            },
{
    match detect_os_arch(arch) {
        Ok((os, a)) => Ok(suiup_archive_name(os.as_str(), a.as_str(), windows)),
        Err(e) => Err(e),
    }
}

/// The download address of a release archive of `suiup`.
pub open spec fn suiup_download_url_spec(latest: Ver, archive: Seq<char>) -> Seq<char> {
    "https://github.com/MystenLabs/suiup/releases/download/v"@ + version_text(latest) + "/"@
        + archive
}

/// The download address of `archive` in the release of version `latest`.
pub fn suiup_download_url(latest: &Ver, archive: &str) -> (r: String)
    ensures
        r@ == suiup_download_url_spec(*latest, archive@),
{
    let mut s = String::from_str("https://github.com/MystenLabs/suiup/releases/download/v");
    let t = latest.to_string();
    s.append(t.as_str());
    s.append("/");
    s.append(archive);
    s
}

/// What a self update does: nothing when the running version is the latest,
/// else fetch the archive of the latest release from this address.
pub fn self_update_url(current: &Ver, latest: &Ver, archive: &str) -> (r: Option<String>)
    ensures
        *current == *latest ==> r is None,
        *current != *latest ==> (r matches Some(u) && u@ == suiup_download_url_spec(
            *latest,
            archive@,
        )),
{
    if current.same_as(latest) {
        None
    } else {
        Some(suiup_download_url(latest, archive))
    }
}

/// The warning shown when a newer `suiup` is released.
pub open spec fn update_notice_spec(current: Ver, latest: Ver) -> Seq<char> {
    "\n\u{26a0}\u{fe0f}  A new version of suiup is available: v"@ + version_text(current)
        + " \u{2192} v"@ + version_text(latest)
        + "\n   Run 'suiup self update' to update to the latest version.\n"@
}

/// The warning to show when `latest` is newer than the running `current`.
pub fn update_notice(current: &Ver, latest: &Ver) -> (r: Option<String>)
    ensures
        version_lt(*current, *latest) ==> (r matches Some(m) && m@ == update_notice_spec(
            *current,
            *latest,
        )),
        !version_lt(*current, *latest) ==> r is None,
{
    if current.is_older_than(latest) {
        let mut s = String::from_str("\n\u{26a0}\u{fe0f}  A new version of suiup is available: v");
        let c = current.to_string();
        s.append(c.as_str());
        s.append(" \u{2192} v");
        let l = latest.to_string();
        s.append(l.as_str());
        s.append("\n   Run 'suiup self update' to update to the latest version.\n");
        Some(s)
    } else {
        None
    }
}

} // verus!
