//! Where `suiup` keeps its files, below the data, configuration and cache
//! homes of the user (which the caller reads from the environment).

use vstd::prelude::*;

use crate::handlers::RELEASES_ARCHIVES_FOLDER;
use crate::text::{ends_with, has_prefix, has_suffix};

verus! {

/// `part` appended to the path `base`, with the separator `sep` between them
/// unless `base` is empty or already ends with it (`Path::join` of a relative
/// part).
pub open spec fn path_join_spec(base: Seq<char>, part: Seq<char>, sep: Seq<char>) -> Seq<char> {
    if base.len() == 0 {
        part
    } else if has_suffix(base, sep) {
        base + part
    } else {
        base + sep + part
    }
}

/// A joined path ends with the part appended, and starts with the base.
pub proof fn lemma_join_keeps_base_and_part(base: Seq<char>, part: Seq<char>, sep: Seq<char>)
    ensures
        has_suffix(path_join_spec(base, part, sep), part),
        has_prefix(path_join_spec(base, part, sep), base),
{
    let j = path_join_spec(base, part, sep);
    assert(j.subrange(j.len() - part.len(), j.len() as int) =~= part);
    assert(j.subrange(0, base.len() as int) =~= base);
}

/// Appends the relative path `part` to `base`.
pub fn path_join(base: &str, part: &str, sep: &str) -> (r: String)
    ensures
        r@ == path_join_spec(base@, part@, sep@),
{
    let n = base.unicode_len();
    let mut s = String::from_str(base);
    if n > 0 && !ends_with(base, sep) {
        s.append(sep);
    }
    s.append(part);
    s
}

/// The data folder of `suiup` below the data home.
pub fn get_suiup_data_dir(data_home: &str, sep: &str) -> (r: String)
    ensures
        r@ == path_join_spec(data_home@, "suiup"@, sep@),
{
    path_join(data_home, "suiup", sep)
}

/// The configuration folder of `suiup` below the configuration home.
pub fn get_suiup_config_dir(config_home: &str, sep: &str) -> (r: String)
    ensures
        r@ == path_join_spec(config_home@, "suiup"@, sep@),
{
    path_join(config_home, "suiup", sep)
}

/// The cache folder of `suiup` below the cache home.
pub fn get_suiup_cache_dir(cache_home: &str, sep: &str) -> (r: String)
    ensures
        r@ == path_join_spec(cache_home@, "suiup"@, sep@),
{
    path_join(cache_home, "suiup", sep)
}

/// A file of the configuration folder.
pub fn get_config_file(config_home: &str, name: &str, sep: &str) -> (r: String)
    ensures
        r@ == path_join_spec(path_join_spec(config_home@, "suiup"@, sep@), name@, sep@),
{
    let dir = get_suiup_config_dir(config_home, sep);
    path_join(dir.as_str(), name, sep)
}

/// The folder of downloaded release archives, in the cache folder.
pub fn release_archive_dir(cache_home: &str, sep: &str) -> (r: String)
    ensures
        r@ == path_join_spec(path_join_spec(cache_home@, "suiup"@, sep@), "releases"@, sep@),
{
    let dir = get_suiup_cache_dir(cache_home, sep);
    path_join(dir.as_str(), RELEASES_ARCHIVES_FOLDER, sep)
}

/// The folder of installed binaries, in the data folder.
pub fn binaries_dir(data_home: &str, sep: &str) -> (r: String)
    ensures
        r@ == path_join_spec(path_join_spec(data_home@, "suiup"@, sep@), "binaries"@, sep@),
{
    let dir = get_suiup_data_dir(data_home, sep);
    path_join(dir.as_str(), "binaries", sep)
}

/// The home below which a folder lies: the variable's value where it is set,
/// else the given folders below the home directory.
pub open spec fn home_or_fallback(var: Option<Seq<char>>, home: Seq<char>, parts: Seq<Seq<char>>, sep: Seq<char>) -> Seq<char>
    decreases parts.len(),
{
    match var {
        Some(v) => v,
        None => if parts.len() == 0 {
            home
        } else {
            path_join_spec(home_or_fallback(None, home, parts.drop_last(), sep), parts.last(), sep)
        },
    }
}

/// The home of a kind of files: the value of its variable where it is set
/// (`XDG_DATA_HOME` and the like), else `parts` below the home directory
/// (`.local/share` and the like).
pub fn home_dir(var: Option<&str>, home: &str, parts: &[&str], sep: &str) -> (r: String)
    ensures
        r@ == home_or_fallback(
            match var {
                Some(v) => Some(v@),
                None => None,
            },
            home@,
            parts@.map_values(|p: &str| p@),
            sep@,
        ),
{
    match var {
        Some(v) => String::from_str(v),
        None => {
            let ghost ps = parts@.map_values(|p: &str| p@);
            let mut s = String::from_str(home);
            let mut i: usize = 0;
            while i < parts.len()
                invariant
                    i <= parts@.len(),
                    ps == parts@.map_values(|p: &str| p@),
                    s@ == home_or_fallback(None, home@, ps.subrange(0, i as int), sep@),
                decreases parts@.len() - i,
            {
                assert(ps.subrange(0, i + 1).drop_last() =~= ps.subrange(0, i as int));
                assert(ps.subrange(0, i + 1).last() == parts@[i as int]@);
                s = path_join(s.as_str(), parts[i], sep);
                i = i + 1;
            }
            assert(ps.subrange(0, parts@.len() as int) =~= ps);
            s
        },
    }
}

} // verus!
