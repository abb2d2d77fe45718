//! Release lookup: version tags, the networks that carry a version, the
//! latest release of a network, and the names of the release-list cache
//! files.

use vstd::prelude::*;

use crate::text::{contains, has_prefix, has_substring, replace_char, replace_char_spec, starts_with};
use crate::handlers::version::{extract_version_from_release, first_version};
use crate::types::{releases_view, AssetView, Release};

verus! {

/// `version` with a leading `v`, added if missing.
pub open spec fn with_v_prefix(version: Seq<char>) -> Seq<char> {
    if has_prefix(version, "v"@) {
        version
    } else {
        "v"@ + version
    }
}

/// Ensures a version has the `v` prefix of GitHub release tags.
pub fn ensure_version_prefix(version: &str) -> (r: String)
    ensures
        r@ == with_v_prefix(version@),
{
    if starts_with(version, "v") {
        String::from_str(version)
    } else {
        let mut s = String::from_str("v");
        s.append(version);
        s
    }
}

/// Adding the `v` prefix twice is adding it once.
pub proof fn lemma_version_prefix_idempotent(version: Seq<char>)
    ensures
        with_v_prefix(with_v_prefix(version)) == with_v_prefix(version),
{
    reveal_strlit("v");
    if !has_prefix(version, "v"@) {
        assert(with_v_prefix(version).subrange(0, 1) =~= "v"@);
    }
}

/// The release tag of a version on a network: `network-vX.Y.Z`.
pub open spec fn version_tag(network: Seq<char>, version: Seq<char>) -> Seq<char> {
    network + "-"@ + with_v_prefix(version)
}

/// The release tag of a version on a network: `network-vX.Y.Z`.
pub fn release_tag(network: &str, version: &str) -> (r: String)
    ensures
        r@ == version_tag(network@, version@),
{
    let mut s = String::from_str(network);
    s.append("-");
    let v = ensure_version_prefix(version);
    s.append(v.as_str());
    s
}

/// Some asset of release `r` has a name containing `needle`.
pub open spec fn release_mentions(r: Seq<AssetView>, needle: Seq<char>) -> bool {
    exists|j: int| 0 <= j < r.len() && has_substring(#[trigger] r[j].name, needle)
}

/// Some release of `rs` has an asset whose name contains `needle`.
pub open spec fn releases_mention(rs: Seq<Seq<AssetView>>, needle: Seq<char>) -> bool {
    exists|i: int| 0 <= i < rs.len() && release_mentions(#[trigger] rs[i], needle)
}

/// `i` is the first release of `rs` that has an asset whose name contains
/// `needle`.
pub open spec fn is_first_release_mentioning(rs: Seq<Seq<AssetView>>, needle: Seq<char>, i: int) -> bool {
    0 <= i < rs.len() && release_mentions(rs[i], needle) && forall|j: int|
        0 <= j < i ==> !release_mentions(#[trigger] rs[j], needle)
}

/// Whether some asset of `release` has a name containing `needle`.
pub fn release_has_asset_containing(release: &Release, needle: &str) -> (r: bool)
    ensures
        r == release_mentions(release@, needle@),
{
    let n = release.assets.len();
    let mut j: usize = 0;
    while j < n
        invariant
            n == release.assets@.len(),
            j <= n,
            forall|k: int| 0 <= k < j ==> !has_substring(#[trigger] release@[k].name, needle@),
        decreases n - j,
    {
        assert(release@[j as int] == release.assets@[j as int]@);
        if contains(release.assets[j].name.as_str(), needle) {
            assert(has_substring(release@[j as int].name, needle@));
            return true;
        }
        j = j + 1;
    }
    false
}

/// The first release that has an asset whose name contains `needle`.
pub fn first_release_containing(releases: &[Release], needle: &str) -> (r: Option<usize>)
    ensures
        match r {
            Some(i) => is_first_release_mentioning(releases_view(releases@), needle@, i as int),
            None => !releases_mention(releases_view(releases@), needle@),
        },
{
    let ghost rs = releases_view(releases@);
    let n = releases.len();
    let mut i: usize = 0;
    while i < n
        invariant
            n == releases@.len(),
            rs == releases_view(releases@),
            i <= n,
            forall|k: int| 0 <= k < i ==> !release_mentions(#[trigger] rs[k], needle@),
        decreases n - i,
    {
        assert(rs[i as int] == releases@[i as int]@);
        if release_has_asset_containing(&releases[i], needle) {
            return Some(i);
        }
        i = i + 1;
    }
    None
}

/// Whether some release has an asset whose name contains `needle`.
pub fn releases_have_asset_containing(releases: &[Release], needle: &str) -> (r: bool)
    ensures
        r == releases_mention(releases_view(releases@), needle@),
{
    first_release_containing(releases, needle).is_some()
}

/// The latest release for a network: the first release (releases are listed
/// newest first) with an asset whose name contains the network.
pub fn find_last_release_by_network(releases: Vec<Release>, network: &str) -> (r: Option<Release>)
    ensures
        match r {
            Some(rel) => exists|i: int|
                is_first_release_mentioning(releases_view(releases@), network@, i) && rel@
                    == #[trigger] releases_view(releases@)[i],
            None => !releases_mention(releases_view(releases@), network@),
        },
{
    let ghost rs = releases_view(releases@);
    match first_release_containing(releases.as_slice(), network) {
        Some(i) => {
            let mut releases = releases;
            let rel = releases.remove(i);
            assert(rel@ == rs[i as int]);
            Some(rel)
        },
        None => None,
    }
}

/// The first index of a release mentioning a text is unique.
pub proof fn lemma_first_release_unique(rs: Seq<Seq<AssetView>>, needle: Seq<char>, i: int, k: int)
    requires
        is_first_release_mentioning(rs, needle, i),
        is_first_release_mentioning(rs, needle, k),
    ensures
        i == k,
{
    if i < k {
        assert(!release_mentions(rs[i], needle));
    } else if k < i {
        assert(!release_mentions(rs[k], needle));
    }
}

/// Why the latest release of a network could not be told.
#[derive(Debug)]
pub enum LastReleaseError {
    /// No release has an asset for the network.
    NoRelease(String),
    /// The name of the release's first asset holds no version.
    NoVersion,
}

impl LastReleaseError {
    /// The message of the error.
    pub fn message(&self) -> (r: String)
        ensures
            r@ == match self {
                LastReleaseError::NoRelease(n) => "No release found for "@ + n@,
                LastReleaseError::NoVersion => "Could not extract version from release"@,
            },
    {
        match self {
            LastReleaseError::NoRelease(n) => {
                let mut s = String::from_str("No release found for ");
                s.append(n.as_str());
                s
            },
            LastReleaseError::NoVersion => String::from_str("Could not extract version from release"),
        }
    }
}

/// The version of the latest release of `network`: the version in the name of
/// the first asset of the first release with an asset for the network (inside
/// `None` where that name holds none), or `None` where no release has an
/// asset for the network.
pub open spec fn last_release_version(rs: Seq<Seq<AssetView>>, network: Seq<char>) -> Option<Option<Seq<char>>> {
    if releases_mention(rs, network) {
        let i = choose|i: int| is_first_release_mentioning(rs, network, i);
        Some(first_version(rs[i][0].name))
    } else {
        None
    }
}

/// The version of the latest release of `network`.
pub fn last_release_for_network(releases: &[Release], network: &str) -> (r: Result<String, LastReleaseError>)
    ensures
        match last_release_version(releases_view(releases@), network@) {
            None => r matches Err(LastReleaseError::NoRelease(n)) && n@ == network@,
            Some(None) => r matches Err(LastReleaseError::NoVersion),
            Some(Some(v)) => r matches Ok(w) && w@ == v,
        },
{
    let ghost rs = releases_view(releases@);
    match first_release_containing(releases, network) {
        None => Err(LastReleaseError::NoRelease(String::from_str(network))),
        Some(i) => {
            proof {
                let k = choose|k: int| is_first_release_mentioning(rs, network@, k);
                lemma_first_release_unique(rs, network@, i as int, k);
                assert(rs[i as int] == releases@[i as int]@);
            }
            let rel = &releases[i];
            assert(rel.assets@.len() > 0);
            assert(rel@[0] == rel.assets@[0]@);
            match extract_version_from_release(rel.assets[0].name.as_str()) {
                Ok(v) => Ok(v),
                Err(_) => Err(LastReleaseError::NoVersion),
            }
        },
    }
}

/// The networks, in the order `testnet`, `devnet`, `mainnet`, whose release
/// tag for `version` occurs in the name of some asset.
pub open spec fn networks_with_version(rs: Seq<Seq<AssetView>>, version: Seq<char>) -> Seq<Seq<char>> {
    (if releases_mention(rs, version_tag("testnet"@, version)) {
        seq!["testnet"@]
    } else {
        seq![]
    }) + (if releases_mention(rs, version_tag("devnet"@, version)) {
        seq!["devnet"@]
    } else {
        seq![]
    }) + (if releases_mention(rs, version_tag("mainnet"@, version)) {
        seq!["mainnet"@]
    } else {
        seq![]
    })
}

/// Finds all networks that have a specific version available.
pub fn find_networks_with_version(releases: &[Release], version: &str) -> (r: Vec<String>)
    ensures
        r@.map_values(|s: String| s@) == networks_with_version(releases_view(releases@), version@),
{
    let rs = releases;
    let mut out: Vec<String> = Vec::new();
    let t = release_tag("testnet", version);
    let has_t = releases_have_asset_containing(rs, t.as_str());
    if has_t {
        out.push(String::from_str("testnet"));
    }
    let d = release_tag("devnet", version);
    let has_d = releases_have_asset_containing(rs, d.as_str());
    if has_d {
        out.push(String::from_str("devnet"));
    }
    let m = release_tag("mainnet", version);
    let has_m = releases_have_asset_containing(rs, m.as_str());
    if has_m {
        out.push(String::from_str("mainnet"));
    }
    assert(out@.map_values(|s: String| s@) =~= networks_with_version(
        releases_view(releases@),
        version@,
    ));
    out
}

/// The name under which cache files of a repository are kept: the slug with
/// `/` replaced by `_`.
pub open spec fn repo_cache_name(repo_slug: Seq<char>) -> Seq<char> {
    replace_char_spec(repo_slug, '/', "_"@)
}

/// The file holding the ETag of a repository's release list.
pub fn etag_file_name(repo_slug: &str) -> (r: String)
    ensures
        r@ == "etag_"@ + repo_cache_name(repo_slug@) + ".txt"@,
{
    let name = replace_char(repo_slug, '/', "_");
    let mut s = String::from_str("etag_");
    s.append(name.as_str());
    s.append(".txt");
    s
}

/// The file holding a repository's cached release list.
pub fn releases_file_name(repo_slug: &str) -> (r: String)
    ensures
        r@ == "releases_"@ + repo_cache_name(repo_slug@) + ".txt"@,
{
    let name = replace_char(repo_slug, '/', "_");
    let mut s = String::from_str("releases_");
    s.append(name.as_str());
    s.append(".txt");
    s
}

/// The GitHub API address of a repository's release list.
pub fn releases_url(repo_slug: &str) -> (r: String)
    ensures
        r@ == "https://api.github.com/repos/"@ + repo_slug@ + "/releases"@,
{
    let mut s = String::from_str("https://api.github.com/repos/");
    s.append(repo_slug);
    s.append("/releases");
    s
}

/// The GitHub API address of the release of a repository with a given tag.
pub fn release_by_tag_url(repo_slug: &str, tag: &str) -> (r: String)
    ensures
        r@ == "https://api.github.com/repos/"@ + repo_slug@ + "/releases/tags/"@ + tag@,
{
    let mut s = String::from_str("https://api.github.com/repos/");
    s.append(repo_slug);
    s.append("/releases/tags/");
    s.append(tag);
    s
}

} // verus!
