//! The decisions of the install, default and update handlers: which binaries
//! can be installed, where installed binaries lie, how an install updates the
//! records, and how the answer to the prompt is read.

pub mod cleanup;
pub mod download;
pub mod install;
pub mod release;
pub mod self_;
pub mod update;
pub mod version;

use vstd::prelude::*;

use crate::registry::{BinaryConfigView, BinaryRegistry};
use crate::paths::{path_join, path_join_spec};
use crate::text::{
    ends_with, has_suffix, is_trim_of, lowercase_of, split_char, split_seq, str_eq, to_lowercase,
    trim,
};
use crate::types::{
    group_by_network, grouping_of, groups_view, is_grouping_of, BinaryVersion, InstalledBinaries,
};

verus! {

/// The folder of the cache directory that holds release archives.
pub const RELEASES_ARCHIVES_FOLDER: &'static str = "releases";

/// The names of the binaries that can be installed, in name order.
pub fn available_components() -> (r: Vec<String>)
    ensures
        r@.map_values(|s: String| s@) == crate::registry::registry_of(
            crate::registry::builtin_config_views(),
        ).map_values(|c: BinaryConfigView| c.name),
{
    let mut names: Vec<String> = Vec::new();
    let registry = BinaryRegistry::global();
    let all = registry.all();
    let n = all.len();
    let mut i: usize = 0;
    let ghost target = registry@.map_values(|c: BinaryConfigView| c.name);
    while i < n
        invariant
            n == all@.len(),
            all@.map_values(|c: crate::registry::BinaryConfig| c@) == registry@,
            target == registry@.map_values(|c: BinaryConfigView| c.name),
            i <= n,
            names@.len() == i,
            forall|j: int| 0 <= j < i ==> (#[trigger] names@[j])@ == target[j],
        decreases n - i,
    {
        assert(target[i as int] == all@[i as int].name@);
        names.push(String::from_str(all[i].name.as_str()));
        i = i + 1;
    }
    assert(names@.map_values(|s: String| s@) =~= target);
    names
}

/// The installed binaries grouped by network release (the map from network to
/// records that `default set` and `update` consult).
pub fn installed_binaries_grouped_by_network(installed_binaries: &InstalledBinaries) -> (r: Vec<
    (String, Vec<BinaryVersion>),
>)
    ensures
        is_grouping_of(groups_view(r@), installed_binaries@),
        groups_view(r@) == grouping_of(installed_binaries@),
{
    group_by_network(installed_binaries.binaries())
}

/// The file name of an installed binary: `binary-version`, or `binary` for
/// an empty version, with `.exe` on Windows.
pub open spec fn binary_file_name_spec(binary: Seq<char>, version: Seq<char>, windows: bool) -> Seq<char> {
    (if version.len() == 0 {
        binary
    } else {
        binary + "-"@ + version
    }) + (if windows {
        ".exe"@
    } else {
        ""@
    })
}

/// The file name under which an installed binary is looked for.
pub fn binary_file_name(binary: &str, version: &str, windows: bool) -> (r: String)
    ensures
        r@ == binary_file_name_spec(binary@, version@, windows),
{
    let mut s = String::from_str(binary);
    if version.unicode_len() > 0 {
        s.append("-");
        s.append(version);
    }
    if windows {
        s.append(".exe");
    } else {
        proof {
            reveal_strlit("");
        }
        assert(s@ + ""@ =~= s@);
    }
    s
}

/// The name of a binary as installed: `sui` built in debug mode is
/// `sui-debug`; every other binary keeps its name.
pub open spec fn release_binary_name_spec(name: Seq<char>, debug: bool) -> Seq<char> {
    if debug && name == "sui"@ {
        name + "-debug"@
    } else {
        name
    }
}

/// The name of a binary as installed.
pub fn release_binary_name(name: &str, debug: bool) -> (r: String)
    ensures
        r@ == release_binary_name_spec(name@, debug),
{
    let mut s = String::from_str(name);
    if debug && str_eq(name, "sui") {
        s.append("-debug");
    }
    s
}

/// The file an install leaves for `binary` at `version`: in the network
/// folder, or in its `bin` folder for nightly builds.
pub open spec fn installed_file_spec(binary: Seq<char>, version: Seq<char>, debug: bool) -> Seq<char> {
    release_binary_name_spec(binary, debug) + "-"@ + version
}

/// The file an install leaves for `binary` at `version`.
pub fn installed_file_name(binary: &str, version: &str, debug: bool) -> (r: String)
    ensures
        r@ == installed_file_spec(binary@, version@, debug),
{
    let mut s = release_binary_name(binary, debug);
    s.append("-");
    s.append(version);
    s
}

/// Nightly builds lie in the `bin` folder that `cargo install` creates.
pub fn in_bin_folder(version: &str) -> (r: bool)
    ensures
        r == (version@ == "nightly"@),
{
    str_eq(version, "nightly")
}

/// The folder an install leaves a binary in: the network folder below the
/// binaries folder, or its `bin` folder for a nightly build.
pub open spec fn binary_folder_spec(binaries_dir: Seq<char>, network: Seq<char>, version: Seq<char>, sep: Seq<char>) -> Seq<char> {
    if version == "nightly"@ {
        path_join_spec(path_join_spec(binaries_dir, network, sep), "bin"@, sep)
    } else {
        path_join_spec(binaries_dir, network, sep)
    }
}

/// The folder an install leaves a binary in.
pub fn binary_folder(binaries_dir: &str, network: &str, version: &str, sep: &str) -> (r: String)
    ensures
        r@ == binary_folder_spec(binaries_dir@, network@, version@, sep@),
{
    let dir = path_join(binaries_dir, network, sep);
    if in_bin_folder(version) {
        path_join(dir.as_str(), "bin", sep)
    } else {
        dir
    }
}

/// `name` with `.exe` appended on Windows, unless its extension is already
/// `exe`.
pub open spec fn with_exe_spec(name: Seq<char>, windows: bool) -> Seq<char> {
    if windows && !(has_suffix(name, ".exe"@) && name.len() > 4) {
        name + ".exe"@
    } else {
        name
    }
}

/// `name` with `.exe` appended on Windows, unless its extension is already
/// `exe`.
pub fn with_exe(name: &str, windows: bool) -> (r: String)
    ensures
        r@ == with_exe_spec(name@, windows),
{
    let mut s = String::from_str(name);
    if windows && !(ends_with(name, ".exe") && name.unicode_len() > 4) {
        s.append(".exe");
    }
    s
}

/// The path of the binary that `check_if_binaries_exist` looks for: the
/// network folder below the binaries folder, then `binary-version`, or
/// `binary` for an empty version, with `.exe` on Windows.
pub fn installed_binary_path(
    binaries_dir: &str,
    network: &str,
    binary: &str,
    version: &str,
    windows: bool,
    sep: &str,
) -> (r: String)
    ensures
        r@ == path_join_spec(
            path_join_spec(binaries_dir@, network@, sep@),
            binary_file_name_spec(binary@, version@, windows),
            sep@,
        ),
{
    let dir = path_join(binaries_dir, network, sep);
    let name = binary_file_name(binary, version, windows);
    path_join(dir.as_str(), name.as_str(), sep)
}

/// The name of the archive entry that holds a component: the binary's name,
/// with `.exe` on Windows.
pub fn component_entry_name(binary: &str, windows: bool) -> (r: String)
    ensures
        r@ == binary@ + (if windows {
            ".exe"@
        } else {
            ""@
        }),
{
    let mut s = String::from_str(binary);
    if windows {
        s.append(".exe");
    } else {
        proof {
            reveal_strlit("");
        }
        assert(s@ + ""@ =~= s@);
    }
    s
}

/// The file copied to the default folder when a version becomes the default:
/// `binary-debug-version` or `binary-version`, without the trailing `-` when
/// the version is empty.
pub open spec fn default_source_spec(binary: Seq<char>, version: Seq<char>, debug: bool) -> Seq<char> {
    let stem = if debug {
        binary + "-debug"@
    } else {
        binary
    };
    if version.len() == 0 {
        stem
    } else {
        stem + "-"@ + version
    }
}

/// The file copied to the default folder when a version becomes the default.
pub fn default_source_file_name(binary: &str, version: &str, debug: bool) -> (r: String)
    ensures
        r@ == default_source_spec(binary@, version@, debug),
{
    let mut s = String::from_str(binary);
    if debug {
        s.append("-debug");
    }
    if version.unicode_len() > 0 {
        s.append("-");
        s.append(version);
    }
    s
}

/// The reading of an answer to the prompt.
#[derive(Debug, Clone, Copy, PartialEq, Eq, Structural)]
pub enum Answer {
    Yes,
    No,
    Invalid,
}

/// The reading of an answer: after trimming and lower-casing, `y` or `yes`
/// accepts, nothing, `n` or `no` declines, anything else is asked again.
pub open spec fn answer_of(normalized: Seq<char>) -> Answer {
    if normalized == "y"@ || normalized == "yes"@ {
        Answer::Yes
    } else if normalized == ""@ || normalized == "n"@ || normalized == "no"@ {
        Answer::No
    } else {
        Answer::Invalid
    }
}

/// Reads an answer to the question whether the new version becomes the
/// default.
pub fn interpret_answer(input: &str) -> (r: Answer)
    ensures
        exists|t: Seq<char>| is_trim_of(input@, t) && r == answer_of(lowercase_of(t)),
{
    let t = trim(input);
    let l = to_lowercase(t);
    answer_of_normalized(l.as_str())
}

/// Reads an answer that is already trimmed and lower-cased.
pub fn answer_of_normalized(normalized: &str) -> (r: Answer)
    ensures
        r == answer_of(normalized@),
{
    proof {
        reveal_strlit("");
    }
    if str_eq(normalized, "y") || str_eq(normalized, "yes") {
        Answer::Yes
    } else if str_eq(normalized, "") || str_eq(normalized, "n") || str_eq(normalized, "no") {
        Answer::No
    } else {
        Answer::Invalid
    }
}

/// Whether `dir` is one of the entries of a `PATH` value.
pub fn path_contains_dir(path_var: &str, separator: char, dir: &str) -> (r: bool)
    ensures
        r == split_seq(path_var@, separator).contains(dir@),
{
    let parts = split_char(path_var, separator);
    let ghost pv = parts@.map_values(|x: String| x@);
    let mut i: usize = 0;
    while i < parts.len()
        invariant
            i <= parts@.len(),
            pv == parts@.map_values(|x: String| x@),
            pv == split_seq(path_var@, separator),
            forall|j: int| 0 <= j < i ==> pv[j] != dir@,
        decreases parts@.len() - i,
    {
        if str_eq(parts[i].as_str(), dir) {
            assert(pv[i as int] == dir@);
            return true;
        }
        i = i + 1;
    }
    false
}

} // verus!
