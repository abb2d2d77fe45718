//! The decisions of an install: the record an install adds, the arguments of
//! the `cargo install` run that builds a nightly binary, and the names under
//! which installed files are kept.

use vstd::prelude::*;

use crate::registry::{BinaryConfig, BinaryConfigView};
use crate::types::{with_binary, BinaryVersion, BinaryVersionView, InstalledBinaries};

verus! {

/// The record of a binary installed at `path`.
pub open spec fn installed_record(
    name: Seq<char>,
    network: Seq<char>,
    version: Seq<char>,
    debug: bool,
    path: Seq<char>,
) -> BinaryVersionView {
    BinaryVersionView {
        binary_name: name,
        network_release: network,
        version,
        debug,
        path: Some(path),
    }
}

/// Records an installed binary in the list of installed binaries (which the
/// caller then saves before offering to make it the default).
pub fn install_binary(
    installed: &mut InstalledBinaries,
    name: &str,
    network: &str,
    version: &str,
    debug: bool,
    binary_path: &str,
)
    ensures
        final(installed)@ == with_binary(
            old(installed)@,
            installed_record(name@, network@, version@, debug, binary_path@),
        ),
{
    installed.add_binary(
        BinaryVersion {
            binary_name: String::from_str(name),
            network_release: String::from_str(network),
            version: String::from_str(version),
            debug,
            path: Some(String::from_str(binary_path)),
        },
    );
}

/// `name-version`, with `.exe` on Windows: the file an install from a release
/// or a standalone download leaves in the network folder.
pub open spec fn versioned_file_spec(name: Seq<char>, version: Seq<char>, windows: bool) -> Seq<char> {
    name + "-"@ + version + (if windows {
        ".exe"@
    } else {
        ""@
    })
}

/// The file an install from a release or a standalone download leaves.
pub fn versioned_file_name(name: &str, version: &str, windows: bool) -> (r: String)
    ensures
        r@ == versioned_file_spec(name@, version@, windows),
{
    let mut s = String::from_str(name);
    s.append("-");
    s.append(version);
    if windows {
        s.append(".exe");
    } else {
        proof {
            reveal_strlit("");
        }
        assert(s@ + ""@ =~= s@);
    }
    s
}

/// The name a nightly build is renamed to: `name-nightly`, or
/// `name-debug-nightly` for a debug build.
pub open spec fn nightly_binary_spec(name: Seq<char>, debug: bool) -> Seq<char> {
    if debug {
        name + "-debug-nightly"@
    } else {
        name + "-nightly"@
    }
}

/// The name a nightly build is renamed to.
pub fn nightly_binary_name(name: &str, debug: bool) -> (r: String)
    ensures
        r@ == nightly_binary_spec(name@, debug),
{
    let mut s = String::from_str(name);
    if debug {
        s.append("-debug-nightly");
    } else {
        s.append("-nightly");
    }
    s
}

/// The arguments of `cargo` that build `name` from `branch` into `root`: the
/// toolchain first where the binary names one, then the install of the
/// repository's branch, the package and binary (or the binary alone), and the
/// root folder.
pub open spec fn nightly_args_spec(
    c: BinaryConfigView,
    name: Seq<char>,
    branch: Seq<char>,
    root: Seq<char>,
) -> Seq<Seq<char>> {
    let toolchain = match c.nightly_toolchain {
        Some(t) => seq!["+"@ + t],
        None => Seq::<Seq<char>>::empty(),
    };
    let install = seq![
        "install"@,
        "--locked"@,
        "--force"@,
        "--git"@,
        "https://github.com/"@ + c.repository,
        "--branch"@,
        branch,
    ];
    let target = match c.cargo_package {
        Some(p) => seq![p, "--bin"@, name],
        None => seq![name],
    };
    toolchain + install + target + seq!["--root"@, root]
}

fn push_str(v: &mut Vec<String>, s: &str)
    ensures
        final(v)@.len() == old(v)@.len() + 1,
        forall|i: int| 0 <= i < old(v)@.len() ==> #[trigger] final(v)@[i] == old(v)@[i],
        final(v)@[old(v)@.len() as int]@ == s@,
{
    v.push(String::from_str(s));
}

/// The arguments of `cargo` that build a nightly binary.
pub fn nightly_cargo_args(config: &BinaryConfig, name: &str, branch: &str, root: &str) -> (r: Vec<
    String,
>)
    ensures
        r@.map_values(|s: String| s@) == nightly_args_spec(config@, name@, branch@, root@),
{
    let mut args: Vec<String> = Vec::new();
    match &config.nightly_toolchain {
        Some(t) => {
            let mut tc = String::from_str("+");
            tc.append(t.as_str());
            args.push(tc);
        },
        None => {},
    }
    let ghost k = args@.len();
    push_str(&mut args, "install");
    push_str(&mut args, "--locked");
    push_str(&mut args, "--force");
    push_str(&mut args, "--git");
    let url = config.repo_url();
    args.push(url);
    push_str(&mut args, "--branch");
    push_str(&mut args, branch);
    match &config.cargo_package {
        Some(p) => {
            push_str(&mut args, p.as_str());
            push_str(&mut args, "--bin");
            push_str(&mut args, name);
        },
        None => {
            push_str(&mut args, name);
        },
    }
    push_str(&mut args, "--root");
    push_str(&mut args, root);
    assert(args@.map_values(|s: String| s@) =~= nightly_args_spec(config@, name@, branch@, root@));
    args
}

} // verus!
