//! The decisions around downloading a release: the platform names, which
//! cached archive can be reused, which asset fits the platform, whether a
//! cached or downloaded file passes its checksum, and the message that
//! suggests other networks when a release is missing.

use vstd::prelude::*;

use crate::registry::BinaryConfig;
use crate::standalone::opt_str_view;
use crate::handlers::release::{
    find_networks_with_version, networks_with_version, releases_have_asset_containing,
    releases_mention,
};
use crate::text::{
    contains, ends_with, has_substring, has_suffix, is_trim_of, is_unsigned_literal, join,
    join_strings, lowercase_of, parse_u64, str_eq, to_lowercase, trim, unsigned_literal_value,
};
use crate::types::{releases_view, Release};

verus! {

// ---------------------------------------------------------------------------
// Platform
// ---------------------------------------------------------------------------

/// The operating system `suiup` runs on, as far as it matters here.
#[derive(Debug, Clone, Copy, PartialEq, Eq, Structural)]
pub enum Platform {
    Linux,
    Windows,
    Mac,
    Other,
}

/// Why the platform is not supported.
#[derive(Debug, Clone, Copy, PartialEq, Eq, Structural)]
pub enum PlatformError {
    UnsupportedOs,
    UnsupportedArch,
}

impl PlatformError {
    /// The message of the error.
    pub fn message(&self) -> (r: &'static str)
        ensures
            r@ == match self {
                PlatformError::UnsupportedOs => "Unsupported OS. Supported only: Linux, Windows, MacOS"@,
                PlatformError::UnsupportedArch => "Unsupported architecture. Supported only: x86_64, aarch64"@,
            },
    {
        match self {
            PlatformError::UnsupportedOs => "Unsupported OS. Supported only: Linux, Windows, MacOS",
            PlatformError::UnsupportedArch => "Unsupported architecture. Supported only: x86_64, aarch64",
        }
    }
}

/// The operating-system and architecture names used in asset names for a
/// platform and a CPU architecture (`std::env::consts::ARCH`).
pub open spec fn os_arch_names(p: Platform, arch: Seq<char>) -> Result<(Seq<char>, Seq<char>), PlatformError> {
    let os = match p {
        Platform::Linux => Some("ubuntu"@),
        Platform::Windows => Some("windows"@),
        Platform::Mac => Some("macos"@),
        Platform::Other => None,
    };
    match os {
        None => Err(PlatformError::UnsupportedOs),
        Some(os) => if arch == "x86_64"@ {
            Ok((os, "x86_64"@))
        } else if arch == "aarch64"@ && p == Platform::Mac {
            Ok((os, "arm64"@))
        } else if arch == "aarch64"@ {
            Ok((os, "aarch64"@))
        } else {
            Err(PlatformError::UnsupportedArch)
        },
    }
}

/// The names in asset names keep the CPU architecture, but for `aarch64` on
/// macOS, which is named `arm64`; `x86_64` is `x86_64` on every supported
/// platform; only `x86_64` and `aarch64` are supported; and the OS name does
/// not depend on the architecture.
pub proof fn lemma_os_arch_names(p: Platform, arch: Seq<char>, other: Seq<char>)
    ensures
        os_arch_names(p, arch) matches Ok((_, a)) ==> (a == arch || (arch == "aarch64"@ && p
            == Platform::Mac && a == "arm64"@)),
        p != Platform::Other ==> (os_arch_names(p, "x86_64"@) matches Ok((_, a)) && a
            == "x86_64"@),
        p != Platform::Other ==> (os_arch_names(p, arch) is Ok <==> (arch == "x86_64"@ || arch
            == "aarch64"@)),
        p == Platform::Other ==> os_arch_names(p, arch) == Err::<
            (Seq<char>, Seq<char>),
            PlatformError,
        >(PlatformError::UnsupportedOs),
        os_arch_names(p, arch) is Ok && os_arch_names(p, other) is Ok ==> os_arch_names(
            p,
            arch,
        )->Ok_0.0 == os_arch_names(p, other)->Ok_0.0,
{
}

/// The names of the OS and architecture used in asset names.
pub fn os_arch_for(platform: Platform, arch: &str) -> (r: Result<(String, String), PlatformError>)
    ensures
        match (r, os_arch_names(platform, arch@)) {
            (Ok((o, a)), Ok((so, sa))) => o@ == so && a@ == sa,
            (Err(e), Err(se)) => e == se,
            _ => false,
        },
{
    let os = match platform {
        Platform::Linux => "ubuntu",
        Platform::Windows => "windows",
        Platform::Mac => "macos",
        Platform::Other => {
            return Err(PlatformError::UnsupportedOs);
        },
    };
    if str_eq(arch, "x86_64") {
        Ok((String::from_str(os), String::from_str("x86_64")))
    } else if str_eq(arch, "aarch64") && platform == Platform::Mac {
        Ok((String::from_str(os), String::from_str("arm64")))
    } else if str_eq(arch, "aarch64") {
        Ok((String::from_str(os), String::from_str("aarch64")))
    } else {
        Err(PlatformError::UnsupportedArch)
    }
}

/// Calls `whoami::platform` and tells apart the platforms that `suiup`
/// supports; the result depends on the machine, so nothing is stated of it.
#[verifier::external_body]
fn current_platform() -> (r: Platform) {
    match whoami::platform() {
        whoami::Platform::Linux => Platform::Linux,
        whoami::Platform::Windows => Platform::Windows,
        whoami::Platform::Mac => Platform::Mac,
        _ => Platform::Other,
    }
}

/// Detects the OS of this machine and names it and the CPU architecture
/// `arch` (`std::env::consts::ARCH`) as asset names do.
pub fn detect_os_arch(arch: &str) -> (r: Result<(String, String), PlatformError>)
    ensures
        exists|p: Platform|
            #![trigger os_arch_names(p, arch@)]
            match (r, os_arch_names(p, arch@)) {
                (Ok((o, a)), Ok((so, sa))) => o@ == so && a@ == sa,
                (Err(e), Err(se)) => e == se,
                _ => false,
            },
{
    let p = current_platform();
    os_arch_for(p, arch)
}

/// The `Authorization` header of a download: the token, for addresses on
/// GitHub only.
pub open spec fn download_auth_spec(url: Seq<char>, token: Option<Seq<char>>) -> Option<Seq<char>> {
    match token {
        Some(t) => if has_substring(url, "github.com"@) {
            Some("token "@ + t)
        } else {
            None
        },
        None => None,
    }
}

/// The `Authorization` header a download from `url` carries, if any.
pub fn download_auth_header(url: &str, token: Option<&str>) -> (r: Option<String>)
    ensures
        match r {
            Some(h) => download_auth_spec(url@, opt_str_view(token)) == Some(h@),
            None => download_auth_spec(url@, opt_str_view(token)) is None,
        },
{
    match token {
        Some(t) => if contains(url, "github.com") {
            let mut h = String::from_str("token ");
            h.append(t);
            Some(h)
        } else {
            None
        },
        None => None,
    }
}

// ---------------------------------------------------------------------------
// Cached archives and assets
// ---------------------------------------------------------------------------

/// A cached file is the archive of release `tag` for `os`/`arch`.
pub open spec fn is_cached_archive(f: Seq<char>, tag: Seq<char>, os: Seq<char>, arch: Seq<char>) -> bool {
    &&& has_substring(f, tag)
    &&& has_substring(f, os)
    &&& has_substring(f, arch)
    &&& has_suffix(f, ".tgz"@) || has_suffix(f, ".zip"@)
}

/// Whether a cached file is the archive of release `tag` for `os`/`arch`.
pub fn cached_archive_matches(filename: &str, tag: &str, os: &str, arch: &str) -> (r: bool)
    ensures
        r == is_cached_archive(filename@, tag@, os@, arch@),
{
    contains(filename, tag) && contains(filename, os) && contains(filename, arch) && (ends_with(
        filename,
        ".tgz",
    ) || ends_with(filename, ".zip"))
}

/// The first file of the cache directory that is the archive of release
/// `tag` for `os`/`arch`.
pub fn find_cached_release_archive(filenames: &[String], tag: &str, os: &str, arch: &str) -> (r:
    Option<String>)
    ensures
        match r {
            Some(f) => exists|i: int|
                0 <= i < filenames@.len() && #[trigger] filenames@[i]@ == f@ && is_cached_archive(
                    f@,
                    tag@,
                    os@,
                    arch@,
                ) && forall|j: int|
                    0 <= j < i ==> !is_cached_archive(#[trigger] filenames@[j]@, tag@, os@, arch@),
            None => forall|i: int|
                0 <= i < filenames@.len() ==> !is_cached_archive(
                    #[trigger] filenames@[i]@,
                    tag@,
                    os@,
                    arch@,
                ),
        },
{
    let n = filenames.len();
    let mut i: usize = 0;
    while i < n
        invariant
            n == filenames@.len(),
            i <= n,
            forall|j: int|
                0 <= j < i ==> !is_cached_archive(#[trigger] filenames@[j]@, tag@, os@, arch@),
        decreases n - i,
    {
        if cached_archive_matches(filenames[i].as_str(), tag, os, arch) {
            return Some(filenames[i].clone());
        }
        i = i + 1;
    }
    None
}

/// Name `k` is the first of `names` that contains both `arch` and `os_lower`.
pub open spec fn is_first_matching(names: Seq<Seq<char>>, os_lower: Seq<char>, arch: Seq<char>, k: int) -> bool {
    0 <= k < names.len() && has_substring(names[k], arch) && has_substring(names[k], os_lower)
        && forall|j: int|
        0 <= j < k ==> !(has_substring(#[trigger] names[j], arch) && has_substring(
            names[j],
            os_lower,
        ))
}

/// Asset `k` of a release is the first whose name contains both the
/// architecture and the lower-case OS name.
pub open spec fn is_target_asset(names: Seq<Seq<char>>, os: Seq<char>, arch: Seq<char>, k: int) -> bool {
    is_first_matching(names, lowercase_of(os), arch, k)
}

/// The first asset of `release` whose name contains both `arch` and the
/// already lower-cased OS name `os_lower`.
pub fn first_asset_matching(release: &Release, os_lower: &str, arch: &str) -> (r: Option<usize>)
    ensures
        match r {
            Some(k) => is_first_matching(
                release@.map_values(|a: crate::types::AssetView| a.name),
                os_lower@,
                arch@,
                k as int,
            ),
            None => forall|k: int|
                #![trigger release@[k]]
                0 <= k < release@.len() ==> !(has_substring(release@[k].name, arch@)
                    && has_substring(release@[k].name, os_lower@)),
        },
{
    let ghost names = release@.map_values(|a: crate::types::AssetView| a.name);
    let n = release.assets.len();
    let mut k: usize = 0;
    while k < n
        invariant
            n == release.assets@.len(),
            names == release@.map_values(|a: crate::types::AssetView| a.name),
            k <= n,
            forall|j: int|
                0 <= j < k ==> !(has_substring(#[trigger] names[j], arch@) && has_substring(
                    names[j],
                    os_lower@,
                )),
        decreases n - k,
    {
        let name = release.assets[k].name.as_str();
        assert(names[k as int] == name@);
        if contains(name, arch) && contains(name, os_lower) {
            assert(is_first_matching(names, os_lower@, arch@, k as int));
            return Some(k);
        }
        k = k + 1;
    }
    assert forall|j: int| 0 <= j < release@.len() implies !(has_substring(
        #[trigger] release@[j].name,
        arch@,
    ) && has_substring(release@[j].name, os_lower@)) by {
        assert(names[j] == release@[j].name);
    }
    None
}

/// Why a download cannot go on.
#[derive(Debug)]
pub enum DownloadError {
    /// The release has no asset for the platform `os-arch`.
    AssetNotFound(String, String),
    /// The downloaded file does not have the expected checksum.
    ChecksumMismatch { name: String, expected: String, got: String },
}

impl DownloadError {
    /// The message of the error.
    pub fn message(&self) -> (r: String)
        ensures
            match self {
                DownloadError::AssetNotFound(os, arch) => r@ == "Asset not found for "@ + os@ + "-"@
                    + arch@,
                DownloadError::ChecksumMismatch { name, expected, got } => r@
                    == "MD5 check failed for "@ + name@ + ": expected "@ + expected@ + ", got "@
                    + got@,
            },
    {
        match self {
            DownloadError::AssetNotFound(os, arch) => {
                let mut s = String::from_str("Asset not found for ");
                s.append(os.as_str());
                s.append("-");
                s.append(arch.as_str());
                s
            },
            DownloadError::ChecksumMismatch { name, expected, got } => {
                let mut s = String::from_str("MD5 check failed for ");
                s.append(name.as_str());
                s.append(": expected ");
                s.append(expected.as_str());
                s.append(", got ");
                s.append(got.as_str());
                s
            },
        }
    }
}

/// The index of the asset of `release` to download for `os`/`arch`.
pub fn find_asset_for_target(release: &Release, os: &str, arch: &str) -> (r: Result<usize, DownloadError>)
    ensures
        match r {
            Ok(k) => is_target_asset(release@.map_values(|a: crate::types::AssetView| a.name), os@, arch@, k as int),
            Err(DownloadError::AssetNotFound(o, a)) => o@ == os@ && a@ == arch@ && forall|k: int|
                #![trigger release@[k]]
                0 <= k < release@.len() ==> !(has_substring(release@[k].name, arch@)
                    && has_substring(release@[k].name, lowercase_of(os@))),
            Err(_) => false,
        },
{
    let os_lower = to_lowercase(os);
    match first_asset_matching(release, os_lower.as_str(), arch) {
        Some(k) => Ok(k),
        None => Err(DownloadError::AssetNotFound(String::from_str(os), String::from_str(arch))),
    }
}

// ---------------------------------------------------------------------------
// Sizes and checksums
// ---------------------------------------------------------------------------

/// The size of a download: the content length, or when that is absent or
/// zero, the stored-content-length header that Google storage sends (parsed as
/// a `u64`, else zero).
pub open spec fn total_size(content_length: Option<u64>, stored: Option<Seq<char>>) -> u64 {
    let t = match content_length {
        Some(n) => n,
        None => 0,
    };
    if t != 0 {
        t
    } else {
        match stored {
            Some(s) => if is_unsigned_literal(s) && unsigned_literal_value(s) <= u64::MAX {
                unsigned_literal_value(s) as u64
            } else {
                0
            },
            None => 0,
        }
    }
}

/// The size of a download.
pub fn effective_total_size(content_length: Option<u64>, stored_length: Option<&str>) -> (r: u64)
    ensures
        r == total_size(
            content_length,
            match stored_length {
                Some(s) => Some(s@),
                None => None,
            },
        ),
{
    let t = match content_length {
        Some(n) => n,
        None => 0,
    };
    if t != 0 {
        return t;
    }
    match stored_length {
        Some(s) => match parse_u64(s) {
            Some(v) => v,
            None => 0,
        },
        None => 0,
    }
}

/// The lower-case hexadecimal MD5 digest of some bytes, as `md5::compute`
/// formatted with `{:x}` gives it.
pub uninterp spec fn md5_hex(data: Seq<u8>) -> Seq<char>;

/// Calls `md5::compute` and formats the digest in lower-case hexadecimal; the
/// result is named `md5_hex`.
#[verifier::external_body]
fn md5_hex_digest(data: &[u8]) -> (r: String)
    ensures
        r@ == md5_hex(data@),
{
    format!("{:x}", md5::compute(data))
}

/// What is known of a file already in the download cache.
#[derive(Debug, Clone, Copy, PartialEq, Eq, Structural)]
pub enum CachedFile {
    /// The size matches and so does the checksum: reuse it.
    Verified,
    /// The size matches and there is no checksum to compare: reuse it.
    Unchecked,
    /// The size matches but the checksum does not: download again.
    ChecksumMismatch,
    /// The size does not match: download again.
    SizeMismatch,
}

/// The state of a cached file of `existing_len` bytes with `contents`, given
/// the size of the download and the expected checksum if an `.md5` file is
/// there.
pub open spec fn cached_file_state(existing_len: u64, total: u64, contents: Seq<u8>, expected: Option<Seq<char>>) -> CachedFile {
    if existing_len != total {
        CachedFile::SizeMismatch
    } else {
        match expected {
            None => CachedFile::Unchecked,
            Some(e) => if is_trim_of(e, md5_hex(contents)) {
                CachedFile::Verified
            } else {
                CachedFile::ChecksumMismatch
            },
        }
    }
}

/// Trimming a text gives one result.
proof fn lemma_trim_unique(s: Seq<char>, t: Seq<char>, u: Seq<char>)
    requires
        is_trim_of(s, t),
        is_trim_of(s, u),
    ensures
        t == u,
{
    let (a, b) = choose|a: int, b: int| crate::text::trim_bounds(s, a, b) && t == s.subrange(a, b);
    let (c, d) = choose|c: int, d: int| crate::text::trim_bounds(s, c, d) && u == s.subrange(c, d);
    if a < c {
        assert(crate::text::is_white_space(s[a]));
    }
    if c < a {
        assert(crate::text::is_white_space(s[c]));
    }
    if a < b && c < d {
        if b < d {
            assert(crate::text::is_white_space(s[d - 1]));
        }
        if d < b {
            assert(crate::text::is_white_space(s[b - 1]));
        }
    } else if a < b {
        assert(crate::text::is_white_space(s[a]));
    } else if c < d {
        assert(crate::text::is_white_space(s[c]));
    }
    assert(t =~= u);
}

/// Decides whether a cached download can be reused.
pub fn check_cached_file(existing_len: u64, total: u64, contents: &[u8], expected_md5: Option<&str>) -> (r: CachedFile)
    ensures
        r == cached_file_state(
            existing_len,
            total,
            contents@,
            match expected_md5 {
                Some(e) => Some(e@),
                None => None,
            },
        ),
{
    if existing_len != total {
        return CachedFile::SizeMismatch;
    }
    match expected_md5 {
        None => CachedFile::Unchecked,
        Some(e) => {
            let expected = trim(e);
            let local = md5_hex_digest(contents);
            if str_eq(local.as_str(), expected) {
                CachedFile::Verified
            } else {
                proof {
                    if is_trim_of(e@, md5_hex(contents@)) {
                        lemma_trim_unique(e@, expected@, md5_hex(contents@));
                    }
                }
                CachedFile::ChecksumMismatch
            }
        },
    }
}

/// Checks a downloaded file against the expected checksum, if there is one.
pub fn verify_downloaded_file(contents: &[u8], expected_md5: Option<&str>, name: &str) -> (r: Result<(), DownloadError>)
    ensures
        match expected_md5 {
            None => r is Ok,
            Some(e) => if is_trim_of(e@, md5_hex(contents@)) {
                r is Ok
            } else {
                r matches Err(DownloadError::ChecksumMismatch { name: n, expected, got }) && n@
                    == name@ && is_trim_of(e@, expected@) && got@ == md5_hex(contents@)
            },
        },
{
    match expected_md5 {
        None => Ok(()),
        Some(e) => {
            let expected = trim(e);
            let local = md5_hex_digest(contents);
            if str_eq(local.as_str(), expected) {
                Ok(())
            } else {
                proof {
                    if is_trim_of(e@, md5_hex(contents@)) {
                        lemma_trim_unique(e@, expected@, md5_hex(contents@));
                    }
                }
                Err(
                    DownloadError::ChecksumMismatch {
                        name: String::from_str(name),
                        expected: String::from_str(expected),
                        got: local,
                    },
                )
            }
        },
    }
}

// ---------------------------------------------------------------------------
// Suggestions when a release is missing
// ---------------------------------------------------------------------------

/// The networks, in the order `testnet`, `devnet`, `mainnet`, whose name
/// occurs in the name of some asset.
pub open spec fn available_networks(rs: Seq<Seq<crate::types::AssetView>>) -> Seq<Seq<char>> {
    (if releases_mention(rs, "testnet"@) {
        seq!["testnet"@]
    } else {
        seq![]
    }) + (if releases_mention(rs, "devnet"@) {
        seq!["devnet"@]
    } else {
        seq![]
    }) + (if releases_mention(rs, "mainnet"@) {
        seq!["mainnet"@]
    } else {
        seq![]
    })
}

/// The install command suggested for a network and version.
pub open spec fn versioned_suggestion(name: Seq<char>, version: Seq<char>) -> spec_fn(Seq<char>) -> Seq<char> {
    |n: Seq<char>| "suiup install "@ + name + "@"@ + n + "-"@ + version
}

/// The install command suggested for a network.
pub open spec fn network_suggestion(name: Seq<char>) -> spec_fn(Seq<char>) -> Seq<char> {
    |n: Seq<char>| "suiup install "@ + name + "@"@ + n
}

/// The message for a release that was not found: for a standalone binary a
/// hint to install it without a network, else the networks where the version
/// (or any release) exists, with the commands that install from them.
pub open spec fn suggestions_text(
    name: Seq<char>,
    network_based: bool,
    rs: Seq<Seq<crate::types::AssetView>>,
    version: Option<Seq<char>>,
    requested: Seq<char>,
) -> Seq<char> {
    if !network_based {
        match version {
            Some(v) => name + " version "@ + v + " not found. "@ + name
                + " is a standalone binary - try: suiup install "@ + name + " "@ + v,
            None => name + " release not found. "@ + name
                + " is a standalone binary - try: suiup install "@ + name,
        }
    } else {
        match version {
            Some(v) => {
                let nets = networks_with_version(rs, v);
                if nets.len() > 0 {
                    "Release "@ + requested + "-"@ + v + " not found. However, version "@ + v
                        + " is available for other networks:\n\nTry one of these commands:\n  "@
                        + join(nets.map_values(versioned_suggestion(name, v)), "\n  "@)
                } else {
                    "Release "@ + requested + "-"@ + v + " not found"@
                }
            },
            None => {
                let nets = available_networks(rs);
                if nets.len() > 0 {
                    "No releases found for "@ + requested
                        + " network. Available networks:\n\nTry one of these commands:\n  "@ + join(
                        nets.map_values(network_suggestion(name)),
                        "\n  "@,
                    )
                } else {
                    "Could not find any releases"@
                }
            },
        }
    }
}

/// Builds the message for a release that was not found.
pub fn generate_network_suggestions_error(
    config: &BinaryConfig,
    releases: &[Release],
    version: Option<&str>,
    requested_network: &str,
) -> (r: String)
    ensures
        r@ == suggestions_text(
            config.name@,
            config.network_based,
            releases_view(releases@),
            match version {
                Some(v) => Some(v@),
                None => None,
            },
            requested_network@,
        ),
{
    let name = config.name.as_str();
    let ghost rs = releases_view(releases@);
    if !config.network_based {
        return match version {
            Some(v) => {
                let mut s = String::from_str(name);
                s.append(" version ");
                s.append(v);
                s.append(" not found. ");
                s.append(name);
                s.append(" is a standalone binary - try: suiup install ");
                s.append(name);
                s.append(" ");
                s.append(v);
                s
            },
            None => {
                let mut s = String::from_str(name);
                s.append(" release not found. ");
                s.append(name);
                s.append(" is a standalone binary - try: suiup install ");
                s.append(name);
                s
            },
        };
    }
    match version {
        Some(v) => {
            let nets = find_networks_with_version(releases, v);
            let ghost nv = nets@.map_values(|s: String| s@);
            if nets.len() > 0 {
                let mut suggestions: Vec<String> = Vec::new();
                let mut i: usize = 0;
                while i < nets.len()
                    invariant
                        i <= nets@.len(),
                        nv == nets@.map_values(|s: String| s@),
                        suggestions@.len() == i,
                        forall|j: int|
                            0 <= j < i ==> (#[trigger] suggestions@[j])@ == versioned_suggestion(
                                name@,
                                v@,
                            )(nv[j]),
                    decreases nets@.len() - i,
                {
                    let mut s = String::from_str("suiup install ");
                    s.append(name);
                    s.append("@");
                    s.append(nets[i].as_str());
                    s.append("-");
                    s.append(v);
                    suggestions.push(s);
                    i = i + 1;
                }
                assert(suggestions@.map_values(|p: String| p@) =~= nv.map_values(
                    versioned_suggestion(name@, v@),
                ));
                let joined = join_strings(suggestions.as_slice(), "\n  ");
                let mut s = String::from_str("Release ");
                s.append(requested_network);
                s.append("-");
                s.append(v);
                s.append(" not found. However, version ");
                s.append(v);
                s.append(" is available for other networks:\n\nTry one of these commands:\n  ");
                s.append(joined.as_str());
                s
            } else {
                let mut s = String::from_str("Release ");
                s.append(requested_network);
                s.append("-");
                s.append(v);
                s.append(" not found");
                s
            }
        },
        None => {
            let mut nets: Vec<&str> = Vec::new();
            if releases_have_asset_containing(releases, "testnet") {
                nets.push("testnet");
            }
            if releases_have_asset_containing(releases, "devnet") {
                nets.push("devnet");
            }
            if releases_have_asset_containing(releases, "mainnet") {
                nets.push("mainnet");
            }
            let ghost nv = nets@.map_values(|s: &str| s@);
            assert(nv =~= available_networks(rs));
            if nets.len() > 0 {
                let mut suggestions: Vec<String> = Vec::new();
                let mut i: usize = 0;
                while i < nets.len()
                    invariant
                        i <= nets@.len(),
                        nv == nets@.map_values(|s: &str| s@),
                        suggestions@.len() == i,
                        forall|j: int|
                            0 <= j < i ==> (#[trigger] suggestions@[j])@ == network_suggestion(name@)(
                                nv[j],
                            ),
                    decreases nets@.len() - i,
                {
                    let mut s = String::from_str("suiup install ");
                    s.append(name);
                    s.append("@");
                    s.append(nets[i]);
                    suggestions.push(s);
                    i = i + 1;
                }
                assert(suggestions@.map_values(|p: String| p@) =~= nv.map_values(
                    network_suggestion(name@),
                ));
                let joined = join_strings(suggestions.as_slice(), "\n  ");
                let mut s = String::from_str("No releases found for ");
                s.append(requested_network);
                s.append(" network. Available networks:\n\nTry one of these commands:\n  ");
                s.append(joined.as_str());
                s
            } else {
                String::from_str("Could not find any releases")
            }
        },
    }
}

} // verus!
