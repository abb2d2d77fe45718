//! Binaries released as single executables (such as `mvr`): their releases,
//! the version named by a release tag, and the choice of the asset that fits
//! the platform.

use vstd::prelude::*;

use crate::registry::opt_view;
use crate::handlers::release::{ensure_version_prefix, with_v_prefix};
use crate::text::{
    has_prefix, is_digit, replace_char, replace_char_spec, rsplit_once, split_at_last, starts_with,
    str_eq,
};

verus! {

/// A downloadable file of a standalone release.
#[derive(Debug)]
pub struct StandaloneAsset {
    pub name: String,
    pub browser_download_url: String,
}

/// A release of a standalone binary: its tag and its assets.
#[derive(Debug)]
pub struct StandaloneRelease {
    pub tag_name: String,
    pub assets: Vec<StandaloneAsset>,
}

/// Installs standalone binaries from the releases of one repository.
#[derive(Debug)]
pub struct StandaloneInstaller {
    releases: Vec<StandaloneRelease>,
    repo_slug: String,
    github_token: Option<String>,
}

/// Why a standalone install cannot go on.
#[derive(Debug)]
pub enum StandaloneError {
    /// The repository has no releases.
    NoReleases(String),
    /// The latest release tag names no version.
    CannotExtractVersion(String),
    /// No release has the requested version.
    VersionNotFound(String),
    /// No asset fits the platform `os-arch`.
    NoCompatibleBinary(String, String),
}

impl StandaloneError {
    /// The message of the error.
    pub fn message(&self) -> (r: String)
        ensures
            match self {
                StandaloneError::NoReleases(repo) => r@ == "No releases found for "@ + repo@,
                StandaloneError::CannotExtractVersion(tag) => r@ == "Cannot extract version from tag: "@
                    + tag@,
                StandaloneError::VersionNotFound(v) => r@ == "Version "@ + v@ + " not found"@,
                StandaloneError::NoCompatibleBinary(os, arch) => r@
                    == "No compatible binary found for your system: "@ + os@ + "-"@ + arch@,
            },
    {
        match self {
            StandaloneError::NoReleases(repo) => {
                let mut s = String::from_str("No releases found for ");
                s.append(repo.as_str());
                s
            },
            StandaloneError::CannotExtractVersion(tag) => {
                let mut s = String::from_str("Cannot extract version from tag: ");
                s.append(tag.as_str());
                s
            },
            StandaloneError::VersionNotFound(v) => {
                let mut s = String::from_str("Version ");
                s.append(v.as_str());
                s.append(" not found");
                s
            },
            StandaloneError::NoCompatibleBinary(os, arch) => {
                let mut s = String::from_str("No compatible binary found for your system: ");
                s.append(os.as_str());
                s.append("-");
                s.append(arch.as_str());
                s
            },
        }
    }
}

// ---------------------------------------------------------------------------
// Tags and versions
// ---------------------------------------------------------------------------

/// The version a release tag names: the tag itself (with a `v` added) when it
/// starts with `v` or a digit, else what follows its last `-v` (with the `v`),
/// else none. `v0.6.4`, `0.6.4` and `seal-v0.6.4` all name `v0.6.4`.
pub open spec fn tag_version(tag: Seq<char>) -> Option<Seq<char>> {
    if tag.len() > 0 && (tag[0] == 'v' || is_digit(tag[0])) {
        Some(with_v_prefix(tag))
    } else {
        match split_at_last(tag, "-v"@) {
            Some((_, v)) => Some("v"@ + v),
            None => None,
        }
    }
}

/// Normalizes a requested version to the `v`-prefixed form of tags.
pub fn normalize_standalone_version(version: &str) -> (r: String)
    ensures
        r@ == with_v_prefix(version@),
{
    ensure_version_prefix(version)
}

/// The version a release tag names.
pub fn standalone_tag_version(tag: &str) -> (r: Option<String>)
    ensures
        opt_view(r) == tag_version(tag@),
{
    let n = tag.unicode_len();
    if n > 0 {
        let c = tag.get_char(0);
        if c == 'v' || ('0' <= c && c <= '9') {
            return Some(ensure_version_prefix(tag));
        }
    }
    match rsplit_once(tag, "-v") {
        Some((_, version)) => {
            let mut s = String::from_str("v");
            s.append(version);
            Some(s)
        },
        None => None,
    }
}

/// Whether a release tag names the (normalized) version `version`.
pub fn standalone_tag_matches_version(tag: &str, version: &str) -> (r: bool)
    ensures
        r == (tag_version(tag@) == Some(version@)),
{
    match standalone_tag_version(tag) {
        Some(v) => str_eq(v.as_str(), version),
        None => false,
    }
}

// ---------------------------------------------------------------------------
// Asset names
// ---------------------------------------------------------------------------

/// The operating-system names that assets for `os` may carry.
pub open spec fn os_candidates(os: Seq<char>) -> Seq<Seq<char>> {
    if os == "ubuntu"@ {
        seq!["ubuntu"@, "linux"@]
    } else if os == "macos"@ {
        seq!["macos"@]
    } else if os == "windows"@ {
        seq!["windows"@]
    } else {
        seq![os]
    }
}

/// The architecture names that assets for `arch` may carry.
pub open spec fn arch_candidates(arch: Seq<char>) -> Seq<Seq<char>> {
    if arch == "arm64"@ {
        seq!["arm64"@, "aarch64"@]
    } else if arch == "aarch64"@ {
        seq!["aarch64"@, "arm64"@]
    } else if arch == "x86_64"@ {
        seq!["x86_64"@]
    } else {
        seq![arch]
    }
}

/// The operating-system names that assets for `os` may carry.
pub fn standalone_os_candidates<'a>(os: &'a str) -> (r: Vec<&'a str>)
    ensures
        r@.map_values(|s: &str| s@) == os_candidates(os@),
{
    let mut v: Vec<&'a str> = Vec::new();
    if str_eq(os, "ubuntu") {
        v.push("ubuntu");
        v.push("linux");
    } else if str_eq(os, "macos") {
        v.push("macos");
    } else if str_eq(os, "windows") {
        v.push("windows");
    } else {
        v.push(os);
    }
    assert(v@.map_values(|s: &str| s@) =~= os_candidates(os@));
    v
}

/// The architecture names that assets for `arch` may carry.
pub fn standalone_arch_candidates<'a>(arch: &'a str) -> (r: Vec<&'a str>)
    ensures
        r@.map_values(|s: &str| s@) == arch_candidates(arch@),
{
    let mut v: Vec<&'a str> = Vec::new();
    if str_eq(arch, "arm64") {
        v.push("arm64");
        v.push("aarch64");
    } else if str_eq(arch, "aarch64") {
        v.push("aarch64");
        v.push("arm64");
    } else if str_eq(arch, "x86_64") {
        v.push("x86_64");
    } else {
        v.push(arch);
    }
    assert(v@.map_values(|s: &str| s@) =~= arch_candidates(arch@));
    v
}

/// The asset name `binary-os-arch`.
pub open spec fn asset_candidate(binary: Seq<char>, os: Seq<char>, arch: Seq<char>) -> Seq<char> {
    binary + "-"@ + os + "-"@ + arch
}

/// The asset names for every operating-system name and, within it, every
/// architecture name.
pub open spec fn candidate_product(binary: Seq<char>, oss: Seq<Seq<char>>, archs: Seq<Seq<char>>) -> Seq<Seq<char>>
    decreases oss.len(),
{
    if oss.len() == 0 {
        Seq::empty()
    } else {
        candidate_product(binary, oss.drop_last(), archs) + archs.map_values(
            |a: Seq<char>| asset_candidate(binary, oss.last(), a),
        )
    }
}

/// `s` without repetitions, each name where it first occurs.
pub open spec fn dedup(s: Seq<Seq<char>>) -> Seq<Seq<char>>
    decreases s.len(),
{
    if s.len() == 0 {
        s
    } else if dedup(s.drop_last()).contains(s.last()) {
        dedup(s.drop_last())
    } else {
        dedup(s.drop_last()).push(s.last())
    }
}

/// The asset names to look for, in order of preference.
pub open spec fn asset_name_candidates(binary: Seq<char>, os: Seq<char>, arch: Seq<char>) -> Seq<Seq<char>> {
    dedup(candidate_product(binary, os_candidates(os), arch_candidates(arch)))
}

/// Whether `v` holds a string equal to `s`.
fn contains_string(v: &Vec<String>, s: &str) -> (r: bool)
    ensures
        r == v@.map_values(|x: String| x@).contains(s@),
{
    let ghost vv = v@.map_values(|x: String| x@);
    let mut i: usize = 0;
    while i < v.len()
        invariant
            i <= v@.len(),
            vv == v@.map_values(|x: String| x@),
            forall|j: int| 0 <= j < i ==> vv[j] != s@,
        decreases v@.len() - i,
    {
        if str_eq(v[i].as_str(), s) {
            assert(vv[i as int] == s@);
            return true;
        }
        i = i + 1;
    }
    false
}

/// The asset names to look for, in order of preference: every combination of
/// the operating-system and architecture names, without repetitions.
pub fn standalone_asset_name_candidates(binary_name: &str, os: &str, arch: &str) -> (r: Vec<String>)
    ensures
        r@.map_values(|s: String| s@) == asset_name_candidates(binary_name@, os@, arch@),
{
    let os_list = standalone_os_candidates(os);
    let arch_list = standalone_arch_candidates(arch);
    let ghost oss = os_list@.map_values(|s: &str| s@);
    let ghost archs = arch_list@.map_values(|s: &str| s@);
    let mut out: Vec<String> = Vec::new();
    let mut i: usize = 0;
    assert(oss.take(0) =~= Seq::<Seq<char>>::empty());
    assert(out@.map_values(|x: String| x@) =~= dedup(
        candidate_product(binary_name@, oss.take(0), archs),
    ));
    while i < os_list.len()
        invariant
            i <= os_list@.len(),
            oss == os_list@.map_values(|s: &str| s@),
            archs == arch_list@.map_values(|s: &str| s@),
            out@.map_values(|x: String| x@) == dedup(
                candidate_product(binary_name@, oss.take(i as int), archs),
            ),
        decreases os_list@.len() - i,
    {
        let o = os_list[i];
        let ghost base = candidate_product(binary_name@, oss.take(i as int), archs);
        let ghost row = archs.map_values(|a: Seq<char>| asset_candidate(binary_name@, o@, a));
        let mut j: usize = 0;
        assert(base + row.take(0) =~= base);
        while j < arch_list.len()
            invariant
                i < os_list@.len(),
                j <= arch_list@.len(),
                oss == os_list@.map_values(|s: &str| s@),
                archs == arch_list@.map_values(|s: &str| s@),
                row == archs.map_values(|a: Seq<char>| asset_candidate(binary_name@, o@, a)),
                out@.map_values(|x: String| x@) == dedup(base + row.take(j as int)),
            decreases arch_list@.len() - j,
        {
            let mut candidate = String::from_str(binary_name);
            candidate.append("-");
            candidate.append(o);
            candidate.append("-");
            candidate.append(arch_list[j]);
            assert(candidate@ == row[j as int]);
            let ghost prev = base + row.take(j as int);
            assert((base + row.take(j + 1)).drop_last() =~= prev);
            assert((base + row.take(j + 1)).last() == row[j as int]);
            if !contains_string(&out, candidate.as_str()) {
                let ghost before = out@.map_values(|x: String| x@);
                out.push(candidate);
                assert(out@.map_values(|x: String| x@) =~= before.push(row[j as int]));
            }
            j = j + 1;
        }
        assert(row.take(arch_list@.len() as int) =~= row);
        assert(oss.take(i + 1).drop_last() =~= oss.take(i as int));
        assert(oss.take(i + 1).last() == o@);
        i = i + 1;
    }
    assert(oss.take(os_list@.len() as int) =~= oss);
    out
}

/// Whether an asset name fits a candidate name: it starts with it (so
/// `seal-windows-x86_64.exe` fits `seal-windows-x86_64`).
pub fn standalone_asset_name_matches(asset_name: &str, candidate: &str) -> (r: bool)
    ensures
        r == has_prefix(asset_name@, candidate@),
{
    starts_with(asset_name, candidate)
}

/// The file holding the cached releases of a repository.
pub fn standalone_releases_cache_file(repo_slug: &str) -> (r: String)
    ensures
        r@ == "standalone_releases_"@ + replace_char_spec(repo_slug@, '/', "_"@) + ".json"@,
{
    let sanitized = replace_char(repo_slug, '/', "_");
    let mut s = String::from_str("standalone_releases_");
    s.append(sanitized.as_str());
    s.append(".json");
    s
}

// ---------------------------------------------------------------------------
// The installer
// ---------------------------------------------------------------------------

/// Release `i` of `rs` is the first that the requested version selects: the
/// first release when no version is requested, else the first whose tag names
/// the version.
pub open spec fn is_selected_release(rs: Seq<StandaloneRelease>, version: Option<Seq<char>>, i: int) -> bool {
    &&& 0 <= i < rs.len()
    &&& match version {
        None => i == 0,
        Some(v) => tag_version(rs[i].tag_name@) == Some(v) && forall|j: int|
            0 <= j < i ==> tag_version(#[trigger] rs[j].tag_name@) != Some(v),
    }
}

/// Asset `k` of release `rel` is the one chosen among the candidate names:
/// the first asset fitting the first candidate that some asset fits.
pub open spec fn is_selected_asset(rel: StandaloneRelease, candidates: Seq<Seq<char>>, k: int) -> bool {
    exists|c: int|
        0 <= c < candidates.len() && 0 <= k < rel.assets@.len() && has_prefix(
            rel.assets@[k].name@,
            #[trigger] candidates[c],
        ) && (forall|m: int| 0 <= m < k ==> !has_prefix(#[trigger] rel.assets@[m].name@, candidates[c]))
            && (forall|d: int, m: int|
            0 <= d < c && 0 <= m < rel.assets@.len() ==> !has_prefix(
                #[trigger] rel.assets@[m].name@,
                #[trigger] candidates[d],
            ))
}

impl StandaloneInstaller {
    /// An installer for the releases of `repo_slug`, none fetched yet.
    pub fn new(repo_slug: &str, github_token: Option<String>) -> (r: Self)
        ensures
            r.releases().len() == 0,
            r.repo_slug_view() == repo_slug@,
            r.github_token_view() == opt_view(github_token),
    {
        StandaloneInstaller { releases: Vec::new(), repo_slug: String::from_str(repo_slug), github_token }
    }

    /// The fetched releases, newest first.
    pub closed spec fn releases(&self) -> Seq<StandaloneRelease> {
        self.releases@
    }

    /// The repository.
    pub closed spec fn repo_slug_view(&self) -> Seq<char> {
        self.repo_slug@
    }

    /// The GitHub token.
    pub closed spec fn github_token_view(&self) -> Option<Seq<char>> {
        opt_view(self.github_token)
    }

    /// The repository.
    pub fn repo_slug(&self) -> (r: &str)
        ensures
            r@ == self.repo_slug_view(),
    {
        self.repo_slug.as_str()
    }

    /// The GitHub token used for requests.
    pub fn github_token(&self) -> (r: Option<&str>)
        ensures
            match r {
                Some(t) => self.github_token_view() == Some(t@),
                None => self.github_token_view() is None,
            },
    {
        match &self.github_token {
            Some(t) => Some(t.as_str()),
            None => None,
        }
    }

    /// Whether releases have been fetched.
    pub fn has_releases(&self) -> (r: bool)
        ensures
            r == (self.releases().len() > 0),
    {
        self.releases.len() > 0
    }

    /// Stores the fetched releases (newest first).
    pub fn set_releases(&mut self, releases: Vec<StandaloneRelease>)
        ensures
            final(self).releases() == releases@,
            final(self).repo_slug_view() == old(self).repo_slug_view(),
            final(self).github_token_view() == old(self).github_token_view(),
    {
        self.releases = releases;
    }

    /// The fetched releases.
    pub fn release_list(&self) -> (r: &[StandaloneRelease])
        ensures
            r@ == self.releases(),
    {
        self.releases.as_slice()
    }

    /// The latest release: the first one listed.
    pub fn get_latest_release(&self) -> (r: Result<&StandaloneRelease, StandaloneError>)
        ensures
            self.releases().len() > 0 ==> (r matches Ok(rel) && *rel == self.releases()[0]),
            self.releases().len() == 0 ==> (r matches Err(StandaloneError::NoReleases(repo))
                && repo@ == self.repo_slug_view()),
    {
        if self.releases.len() == 0 {
            return Err(StandaloneError::NoReleases(self.repo_slug.clone()));
        }
        Ok(&self.releases[0])
    }

    /// The version of the latest release (such as `v0.6.5`).
    pub fn latest_version(&self) -> (r: Result<String, StandaloneError>)
        ensures
            self.releases().len() == 0 ==> (r matches Err(StandaloneError::NoReleases(repo))
                && repo@ == self.repo_slug_view()),
            self.releases().len() > 0 ==> match tag_version(self.releases()[0].tag_name@) {
                Some(v) => r matches Ok(s) && s@ == v,
                None => r matches Err(StandaloneError::CannotExtractVersion(t)) && t@
                    == self.releases()[0].tag_name@,
            },
    {
        let release = self.get_latest_release()?;
        match standalone_tag_version(release.tag_name.as_str()) {
            Some(v) => Ok(v),
            None => Err(StandaloneError::CannotExtractVersion(release.tag_name.clone())),
        }
    }

    /// The version to install: the requested one (normalized), else the one the
    /// latest tag names, else the latest tag itself.
    pub fn resolve_version(&self, version: Option<&str>) -> (r: Result<String, StandaloneError>)
        ensures
            match version {
                Some(v) => r matches Ok(s) && s@ == with_v_prefix(v@),
                None => if self.releases().len() == 0 {
                    r matches Err(StandaloneError::NoReleases(repo)) && repo@ == self.repo_slug_view()
                } else {
                    r matches Ok(s) && s@ == match tag_version(self.releases()[0].tag_name@) {
                        Some(t) => t,
                        None => self.releases()[0].tag_name@,
                    }
                },
            },
    {
        match version {
            Some(v) => Ok(normalize_standalone_version(v)),
            None => {
                let latest = self.get_latest_release()?;
                match standalone_tag_version(latest.tag_name.as_str()) {
                    Some(t) => Ok(t),
                    None => Ok(latest.tag_name.clone()),
                }
            },
        }
    }

    /// The release that the requested version selects: the first whose tag
    /// names the version, or the first release when none is requested.
    pub fn select_release(&self, version: Option<&str>) -> (r: Result<usize, StandaloneError>)
        ensures
            match r {
                Ok(i) => is_selected_release(self.releases(), opt_str_view(version), i as int),
                Err(StandaloneError::VersionNotFound(v)) => version matches Some(req) && v@ == req@
                    && forall|i: int| !is_selected_release(self.releases(), opt_str_view(version), i),
                Err(StandaloneError::NoReleases(_)) => version is None && self.releases().len() == 0,
                Err(_) => false,
            },
    {
        let n = self.releases.len();
        match version {
            None => {
                if n == 0 {
                    return Err(StandaloneError::NoReleases(self.repo_slug.clone()));
                }
                Ok(0)
            },
            Some(v) => {
                let mut i: usize = 0;
                while i < n
                    invariant
                        n == self.releases@.len(),
                        version == Some(v),
                        i <= n,
                        forall|j: int|
                            0 <= j < i ==> tag_version(#[trigger] self.releases@[j].tag_name@)
                                != Some(v@),
                    decreases n - i,
                {
                    if standalone_tag_matches_version(self.releases[i].tag_name.as_str(), v) {
                        return Ok(i);
                    }
                    i = i + 1;
                }
                Err(StandaloneError::VersionNotFound(String::from_str(v)))
            },
        }
    }

    /// The release and asset to download: the release that the (normalized)
    /// requested version selects, and in it the asset fitting the most
    /// preferred candidate name for `binary_name` on `os`/`arch`.
    pub fn select_asset(&self, version: Option<&str>, binary_name: &str, os: &str, arch: &str) -> (r:
        Result<(usize, usize), StandaloneError>)
        ensures
            match r {
                Ok((i, k)) => is_selected_release(self.releases(), opt_str_view(version), i as int)
                    && is_selected_asset(
                    self.releases()[i as int],
                    asset_name_candidates(binary_name@, os@, arch@),
                    k as int,
                ),
                Err(StandaloneError::VersionNotFound(v)) => version matches Some(req) && v@ == req@
                    && forall|i: int| !is_selected_release(self.releases(), opt_str_view(version), i),
                Err(StandaloneError::NoReleases(_)) => version is None && self.releases().len() == 0,
                Err(StandaloneError::NoCompatibleBinary(o, a)) => o@ == os@ && a@ == arch@ && exists|
                    i: int,
                |
                    is_selected_release(self.releases(), opt_str_view(version), i) && forall|
                        c: int,
                        m: int,
                    |
                        0 <= c < asset_name_candidates(binary_name@, os@, arch@).len() && 0 <= m
                            < self.releases()[i].assets@.len() ==> !has_prefix(
                            #[trigger] self.releases()[i].assets@[m].name@,
                            #[trigger] asset_name_candidates(binary_name@, os@, arch@)[c],
                        ),
                Err(_) => false,
            },
    {
        let found = match self.select_release(version) {
            Ok(i) => i,
            Err(e) => {
                return Err(e);
            },
        };
        assert(is_selected_release(self.releases(), opt_str_view(version), found as int));
        let release = &self.releases[found];
        let candidates = standalone_asset_name_candidates(binary_name, os, arch);
        let ghost cands = candidates@.map_values(|s: String| s@);
        let m = release.assets.len();
        let mut c: usize = 0;
        while c < candidates.len()
            invariant
                m == release.assets@.len(),
                c <= candidates@.len(),
                cands == candidates@.map_values(|s: String| s@),
                cands == asset_name_candidates(binary_name@, os@, arch@),
                found < self.releases@.len(),
                *release == self.releases@[found as int],
                is_selected_release(self.releases(), opt_str_view(version), found as int),
                forall|d: int, k: int|
                    0 <= d < c && 0 <= k < m ==> !has_prefix(
                        #[trigger] release.assets@[k].name@,
                        #[trigger] cands[d],
                    ),
            decreases candidates@.len() - c,
        {
            let mut k: usize = 0;
            while k < m
                invariant
                    m == release.assets@.len(),
                    c < candidates@.len(),
                    k <= m,
                    cands == candidates@.map_values(|s: String| s@),
                    cands == asset_name_candidates(binary_name@, os@, arch@),
                    found < self.releases@.len(),
                    *release == self.releases@[found as int],
                    is_selected_release(self.releases(), opt_str_view(version), found as int),
                    forall|d: int, k2: int|
                        0 <= d < c && 0 <= k2 < m ==> !has_prefix(
                            #[trigger] release.assets@[k2].name@,
                            #[trigger] cands[d],
                        ),
                    forall|j: int|
                        0 <= j < k ==> !has_prefix(#[trigger] release.assets@[j].name@, cands[c as int]),
                decreases m - k,
            {
                if standalone_asset_name_matches(
                    release.assets[k].name.as_str(),
                    candidates[c].as_str(),
                ) {
                    assert(has_prefix(release.assets@[k as int].name@, cands[c as int]));
                    assert(self.releases()[found as int] == *release);
                    assert(is_selected_asset(*release, cands, k as int)) by {
                        assert(0 <= c < cands.len() && has_prefix(
                            release.assets@[k as int].name@,
                            cands[c as int],
                        ));
                    }
                    return Ok((found, k));
                }
                k = k + 1;
            }
            c = c + 1;
        }
        Err(StandaloneError::NoCompatibleBinary(String::from_str(os), String::from_str(arch)))
    }
}

/// The view of an optional string slice.
pub open spec fn opt_str_view(o: Option<&str>) -> Option<Seq<char>> {
    match o {
        Some(s) => Some(s@),
        None => None,
    }
}

} // verus!
