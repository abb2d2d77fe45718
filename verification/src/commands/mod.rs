//! The command line of `suiup` as data, and the parsing of component
//! specifications such as `sui`, `sui@testnet-1.39.3` or `mvr@0.0.5`.

pub mod default;
pub mod remove;
pub mod self_;
pub mod status;

use vstd::prelude::*;

use crate::registry::{is_known_binary, is_plain_name, lemma_known_names_plain, opt_view, BinaryName};
use crate::sort::{lemma_stable_sort_map, sort_by_key, stable_sort, SortKey};
use crate::text::{
    contains, has_prefix, has_substring, is_digit, is_trim_of, lemma_lacks_concat,
    lemma_no_double, lemma_split_absent, lemma_split_at_pattern, lemma_split_at_separator, split_at_first, split_once, starts_with, str_eq, trim,
};
use crate::types::{clone_versions, opt_str_eq, versions_view, BinaryVersion, BinaryVersionView};

verus! {

// ---------------------------------------------------------------------------
// The command line
// ---------------------------------------------------------------------------

/// The subcommands of `suiup`.
#[derive(Debug)]
pub enum Commands {
    /// Get or set the default version of a binary.
    Default(default::Command),
    /// Install a binary, optionally at a version or from a branch.
    Install { component: String, debug: bool, nightly: Option<String>, yes: bool },
    /// Remove a binary.
    Remove(remove::Command),
    /// List the binaries that can be installed.
    List,
    /// Commands for `suiup` itself.
    Self_(self_::Command),
    /// Update a binary to the newest release of each network it is installed
    /// from.
    Update { binary: String, yes: bool },
    /// Remove cached release archives: all of them, or those older than
    /// `days` days; a dry run removes nothing.
    Cleanup { all: bool, days: u32, dry_run: bool },
}

/// The parsed command line.
#[derive(Debug)]
pub struct Command {
    pub command: Commands,
    /// GitHub API token for authenticated requests (helps avoid rate limits).
    pub github_token: Option<String>,
    /// Disable update warnings for suiup itself.
    pub disable_update_warnings: bool,
}

/// `r` is the token that `normalized_github_token` leaves of `t`.
pub open spec fn is_normalized_token(t: Option<Seq<char>>, r: Option<Seq<char>>) -> bool {
    match (t, r) {
        (None, None) => true,
        (Some(t), Some(x)) => is_trim_of(t, x) && x.len() > 0,
        (Some(t), None) => exists|x: Seq<char>| is_trim_of(t, x) && x.len() == 0,
        (None, Some(_)) => false,
    }
}

impl Command {
    /// The GitHub token without surrounding white space; a blank token counts
    /// as none.
    pub fn normalized_github_token(&self) -> (r: Option<String>)
        ensures
            is_normalized_token(opt_view(self.github_token), opt_view(r)),
    {
        match &self.github_token {
            Some(t) => {
                let x = trim(t.as_str());
                if x.unicode_len() == 0 {
                    None
                } else {
                    Some(String::from_str(x))
                }
            },
            None => None,
        }
    }

    /// Whether the command first checks for a newer `suiup`: every command but
    /// `self` does, unless update warnings are disabled.
    pub fn should_check_for_updates(&self) -> (r: bool)
        ensures
            r == (!(self.command is Self_) && !self.disable_update_warnings),
    {
        let is_self = match self.command {
            Commands::Self_(_) => true,
            _ => false,
        };
        !is_self && !self.disable_update_warnings
    }
}

/// The commands on components that the component manager carries out.
#[derive(Debug)]
pub enum ComponentCommands {
    /// Run diagnostic checks on the environment.
    Doctor,
    /// List available binaries to install.
    List,
    /// Add a binary, optionally at a version (`sui`, `sui@testnet-1.39.3`).
    Add { component: String, debug: bool, nightly: Option<String>, yes: bool },
    /// Remove a binary.
    Remove { binary: String },
    /// Cleanup cache files.
    Cleanup { all: bool, days: u32, dry_run: bool },
}

// ---------------------------------------------------------------------------
// Component specifications
// ---------------------------------------------------------------------------

/// A binary with the network and version it was asked for.
#[derive(Debug)]
pub struct CommandMetadata {
    pub name: BinaryName,
    pub network: String,
    pub version: Option<String>,
}

impl PartialEq for CommandMetadata {
    fn eq(&self, other: &Self) -> (r: bool) {
        str_eq(self.name.as_str(), other.name.as_str()) && str_eq(
            self.network.as_str(),
            other.network.as_str(),
        ) && opt_str_eq(&self.version, &other.version)
    }
}

impl vstd::std_specs::cmp::PartialEqSpecImpl for CommandMetadata {
    open spec fn obeys_eq_spec() -> bool {
        true
    }

    open spec fn eq_spec(&self, other: &CommandMetadata) -> bool {
        self.name@ == other.name@ && self.network@ == other.network@ && opt_view(self.version)
            == opt_view(other.version)
    }
}

/// Why a component specification was refused.
#[derive(Debug)]
pub enum CommandError {
    /// The binary is not in the registry.
    InvalidBinaryName(String),
    /// A version separator with nothing after it.
    EmptyVersion,
    /// The version is neither a network, `network-version`, nor a version.
    InvalidVersionFormat(String),
}

/// The mathematical value of a `CommandError`.
pub enum CommandErrorView {
    InvalidBinaryName(Seq<char>),
    EmptyVersion,
    InvalidVersionFormat(Seq<char>),
}

impl View for CommandError {
    type V = CommandErrorView;

    open spec fn view(&self) -> CommandErrorView {
        match self {
            CommandError::InvalidBinaryName(n) => CommandErrorView::InvalidBinaryName(n@),
            CommandError::EmptyVersion => CommandErrorView::EmptyVersion,
            CommandError::InvalidVersionFormat(s) => CommandErrorView::InvalidVersionFormat(s@),
        }
    }
}

/// The message of an invalid binary name.
pub open spec fn invalid_binary_name_text(name: Seq<char>) -> Seq<char> {
    "Invalid binary name: "@ + name
        + ". Use `suiup list` to find available binaries to install or `suiup show` to see which binaries are already installed.\nWhen specifying versions, use `@`, e.g.: sui@v1.60.0\n\nMore information in the docs: https://github.com/mystenLabs/suiup?tab=readme-ov-file#switch-between-versions-note-that-default-set-requires-to-specify-a-version"@
}

/// The message of an invalid version.
pub open spec fn invalid_version_text(spec: Seq<char>) -> Seq<char> {
    "Invalid version format: '"@ + spec
        + "'. Expected a version like 'v1.60.0' or '1.60.0', or when applicable, 'testnet', 'devnet', 'mainnet'."@
}

/// The message of an error.
pub open spec fn command_error_text(e: CommandErrorView) -> Seq<char> {
    match e {
        CommandErrorView::InvalidBinaryName(n) => invalid_binary_name_text(n),
        CommandErrorView::EmptyVersion => "Version cannot be empty. Use 'binary' or 'binary@version' (e.g., sui@v1.60.0)"@,
        CommandErrorView::InvalidVersionFormat(s) => invalid_version_text(s),
    }
}

impl CommandError {
    /// The message of the error.
    pub fn message(&self) -> (r: String)
        ensures
            r@ == command_error_text(self@),
    {
        match self {
            CommandError::InvalidBinaryName(n) => {
                let mut s = String::from_str("Invalid binary name: ");
                s.append(n.as_str());
                s.append(
                    ". Use `suiup list` to find available binaries to install or `suiup show` to see which binaries are already installed.\nWhen specifying versions, use `@`, e.g.: sui@v1.60.0\n\nMore information in the docs: https://github.com/mystenLabs/suiup?tab=readme-ov-file#switch-between-versions-note-that-default-set-requires-to-specify-a-version",
                );
                s
            },
            CommandError::EmptyVersion => String::from_str(
                "Version cannot be empty. Use 'binary' or 'binary@version' (e.g., sui@v1.60.0)",
            ),
            CommandError::InvalidVersionFormat(v) => {
                let mut s = String::from_str("Invalid version format: '");
                s.append(v.as_str());
                s.append(
                    "'. Expected a version like 'v1.60.0' or '1.60.0', or when applicable, 'testnet', 'devnet', 'mainnet'.",
                );
                s
            },
        }
    }
}

/// Accepts a binary name that is in the registry.
pub fn parse_binary_name(name: &str) -> (r: Result<BinaryName, CommandError>)
    ensures
        r is Ok <==> is_known_binary(name@),
        r matches Ok(b) ==> b@ == name@,
        r matches Err(e) ==> e@ == CommandErrorView::InvalidBinaryName(name@),
{
    match BinaryName::new(name) {
        Ok(b) => Ok(b),
        Err(_) => Err(CommandError::InvalidBinaryName(String::from_str(name))),
    }
}

/// A component specification split into the binary name and the version part:
/// at the first `@`, else the first `==`, else the first `=`, else the first
/// space.
pub open spec fn component_split(s: Seq<char>) -> (Seq<char>, Option<Seq<char>>) {
    match split_at_first(s, "@"@) {
        Some((a, b)) => (a, Some(b)),
        None => match split_at_first(s, "=="@) {
            Some((a, b)) => (a, Some(b)),
            None => match split_at_first(s, "="@) {
                Some((a, b)) => (a, Some(b)),
                None => match split_at_first(s, " "@) {
                    Some((a, b)) => (a, Some(b)),
                    None => (s, None),
                },
            },
        },
    }
}

/// Splits a component specification into the binary name and the version
/// part.
pub fn split_component_spec(s: &str) -> (r: (&str, Option<&str>))
    ensures
        (r.0@, match r.1 {
            Some(v) => Some(v@),
            None => None,
        }) == component_split(s@),
{
    if let Some((name, spec)) = split_once(s, "@") {
        return (name, Some(spec));
    }
    if let Some((name, spec)) = split_once(s, "==") {
        return (name, Some(spec));
    }
    if let Some((name, spec)) = split_once(s, "=") {
        return (name, Some(spec));
    }
    if let Some((name, spec)) = split_once(s, " ") {
        return (name, Some(spec));
    }
    (s, None)
}

/// A version text: a digit, or `v` and a digit, to begin with, and a dot in
/// it.
pub open spec fn looks_like_version(s: Seq<char>) -> bool {
    &&& s.len() > 0
    &&& is_digit(s[0]) || (s[0] == 'v' && s.len() > 1 && is_digit(s[1]))
    &&& has_substring(s, "."@)
}

/// The network and version that a version part asks for, or `None` when it is
/// not valid.
pub open spec fn version_spec_result(spec: Option<Seq<char>>) -> Option<(Seq<char>, Option<Seq<char>>)> {
    match spec {
        None => Some(("testnet"@, None)),
        Some(s) => if has_prefix(s, "testnet-"@) {
            Some(("testnet"@, Some(s.skip(8))))
        } else if has_prefix(s, "devnet-"@) {
            Some(("devnet"@, Some(s.skip(7))))
        } else if has_prefix(s, "mainnet-"@) {
            Some(("mainnet"@, Some(s.skip(8))))
        } else if s == "testnet"@ || s == "devnet"@ || s == "mainnet"@ {
            Some((s, None))
        } else if looks_like_version(s) {
            Some(("testnet"@, Some(s)))
        } else {
            None
        },
    }
}

/// The text after a network prefix.
fn after_prefix<'a>(spec: &'a str, prefix_len: usize) -> (r: &'a str)
    requires
        prefix_len <= spec@.len(),
    ensures
        r@ == spec@.skip(prefix_len as int),
{
    let n = spec.unicode_len();
    let r = spec.substring_char(prefix_len, n);
    assert(r@ =~= spec@.skip(prefix_len as int));
    r
}

/// Parses the version part of a component specification into a network and an
/// optional version: `testnet`, `devnet-1.2.3`, `v1.2.3` (on `testnet`), or
/// nothing (the latest `testnet` release).
pub fn parse_version_spec(spec: Option<&str>) -> (r: Result<(String, Option<String>), CommandError>)
    ensures
        match version_spec_result(
            match spec {
                Some(s) => Some(s@),
                None => None,
            },
        ) {
            Some((n, v)) => r matches Ok((rn, rv)) && rn@ == n && opt_view(rv) == v,
            None => r matches Err(e) && spec matches Some(s) && e@
                == CommandErrorView::InvalidVersionFormat(s@),
        },
{
    proof {
        reveal_strlit("testnet-");
        reveal_strlit("devnet-");
        reveal_strlit("mainnet-");
    }
    match spec {
        None => Ok((String::from_str("testnet"), None)),
        Some(spec) => {
            if starts_with(spec, "testnet-") {
                Ok((String::from_str("testnet"), Some(String::from_str(after_prefix(spec, 8)))))
            } else if starts_with(spec, "devnet-") {
                Ok((String::from_str("devnet"), Some(String::from_str(after_prefix(spec, 7)))))
            } else if starts_with(spec, "mainnet-") {
                Ok((String::from_str("mainnet"), Some(String::from_str(after_prefix(spec, 8)))))
            } else if str_eq(spec, "testnet") || str_eq(spec, "devnet") || str_eq(spec, "mainnet") {
                Ok((String::from_str(spec), None))
            } else {
                let n = spec.unicode_len();
                let starts_valid = n > 0 && {
                    let c = spec.get_char(0);
                    ('0' <= c && c <= '9') || (c == 'v' && n > 1 && {
                        let c2 = spec.get_char(1);
                        '0' <= c2 && c2 <= '9'
                    })
                };
                let has_dot = contains(spec, ".");
                if !starts_valid || !has_dot {
                    Err(CommandError::InvalidVersionFormat(String::from_str(spec)))
                } else {
                    Ok((String::from_str("testnet"), Some(String::from_str(spec))))
                }
            }
        },
    }
}

/// What `parse_component_with_version` makes of a specification: the binary
/// name, the network and the version, or the error.
pub open spec fn component_result(s: Seq<char>) -> Result<(Seq<char>, Seq<char>, Option<Seq<char>>), CommandErrorView> {
    let (name, spec) = component_split(s);
    if !is_known_binary(name) {
        Err(CommandErrorView::InvalidBinaryName(name))
    } else if spec == Some(Seq::<char>::empty()) {
        Err(CommandErrorView::EmptyVersion)
    } else {
        match version_spec_result(spec) {
            Some((n, v)) => Ok((name, n, v)),
            None => Err(CommandErrorView::InvalidVersionFormat(spec.unwrap())),
        }
    }
}

/// The networks that a component specification can name.
pub open spec fn is_network_name(n: Seq<char>) -> bool {
    n == "testnet"@ || n == "devnet"@ || n == "mainnet"@
}

/// A binary named alone is asked for on `testnet`, at its latest release.
pub proof fn lemma_component_alone(name: Seq<char>)
    requires
        is_known_binary(name),
    ensures
        component_result(name) == Ok::<(Seq<char>, Seq<char>, Option<Seq<char>>), CommandErrorView>(
            (name, "testnet"@, None),
        ),
{
    lemma_known_names_plain(name);
    reveal_strlit("@");
    reveal_strlit("==");
    reveal_strlit("=");
    reveal_strlit(" ");
    lemma_split_absent(name, "@"@);
    lemma_split_absent(name, "=="@);
    lemma_split_absent(name, "="@);
    lemma_split_absent(name, " "@);
}

/// A text shorter than a pattern, or starting with another character, does
/// not start with it.
proof fn lemma_not_prefix(s: Seq<char>, p: Seq<char>)
    requires
        p.len() > 0,
        s.len() < p.len() || (s.len() > 0 && s[0] != p[0]),
    ensures
        !has_prefix(s, p),
{
    if has_prefix(s, p) {
        assert(s.subrange(0, p.len() as int)[0] == s[0]);
    }
}

/// A text starting with a pattern and something more.
proof fn lemma_prefix_then(p: Seq<char>, t: Seq<char>)
    ensures
        has_prefix(p + t, p),
        (p + t).skip(p.len() as int) == t,
{
    assert((p + t).subrange(0, p.len() as int) =~= p);
    assert((p + t).skip(p.len() as int) =~= t);
}

/// `name@network` asks for the binary on that network, at its latest release.
pub proof fn lemma_component_on_network(name: Seq<char>, network: Seq<char>)
    requires
        is_known_binary(name),
        is_network_name(network),
    ensures
        component_result(name + "@"@ + network) == Ok::<
            (Seq<char>, Seq<char>, Option<Seq<char>>),
            CommandErrorView,
        >((name, network, None)),
{
    lemma_known_names_plain(name);
    reveal_strlit("@");
    lemma_split_at_separator(name, '@', network);
    assert("@"@ =~= seq!['@']);
    assert(name + "@"@ + network =~= name.push('@') + network);
    assert(component_split(name + "@"@ + network) == (name, Some(network)));
    reveal_strlit("testnet");
    reveal_strlit("devnet");
    reveal_strlit("mainnet");
    reveal_strlit("testnet-");
    reveal_strlit("devnet-");
    reveal_strlit("mainnet-");
    if network == "testnet"@ {
        assert(network[0] == 't');
    } else if network == "devnet"@ {
        assert(network[0] == 'd');
    } else {
        assert(network[0] == 'm');
    }
    assert("testnet-"@[0] == 't' && "devnet-"@[0] == 'd' && "mainnet-"@[0] == 'm');
    lemma_not_prefix(network, "testnet-"@);
    lemma_not_prefix(network, "devnet-"@);
    lemma_not_prefix(network, "mainnet-"@);
}

/// `name@network-version` asks for the binary on that network at that
/// version: writing a specification and parsing it gives its parts back.
pub proof fn lemma_component_at_version(name: Seq<char>, network: Seq<char>, version: Seq<char>)
    requires
        is_known_binary(name),
        is_network_name(network),
    ensures
        component_result(name + "@"@ + network + "-"@ + version) == Ok::<
            (Seq<char>, Seq<char>, Option<Seq<char>>),
            CommandErrorView,
        >((name, network, Some(version))),
{
    lemma_known_names_plain(name);
    reveal_strlit("@");
    reveal_strlit("-");
    let rest = network + "-"@ + version;
    lemma_split_at_separator(name, '@', rest);
    assert("@"@ =~= seq!['@']);
    assert(name + "@"@ + network + "-"@ + version =~= name.push('@') + rest);
    assert(component_split(name + "@"@ + network + "-"@ + version) == (name, Some(rest)));
    reveal_strlit("testnet");
    reveal_strlit("devnet");
    reveal_strlit("mainnet");
    reveal_strlit("testnet-");
    reveal_strlit("devnet-");
    reveal_strlit("mainnet-");
    assert("testnet-"@[0] == 't' && "devnet-"@[0] == 'd' && "mainnet-"@[0] == 'm');
    if network == "testnet"@ {
        assert(rest =~= "testnet-"@ + version);
        lemma_prefix_then("testnet-"@, version);
    } else if network == "devnet"@ {
        assert(rest =~= "devnet-"@ + version);
        assert(rest[0] == 'd');
        lemma_not_prefix(rest, "testnet-"@);
        lemma_prefix_then("devnet-"@, version);
    } else {
        assert(rest =~= "mainnet-"@ + version);
        assert(rest[0] == 'm');
        lemma_not_prefix(rest, "testnet-"@);
        lemma_not_prefix(rest, "devnet-"@);
        lemma_prefix_then("mainnet-"@, version);
    }
}

/// A bare version (a digit, or `v` and a digit, to begin with, and a dot in
/// it) after `@` asks for that version on `testnet`, with or without the `v`.
pub proof fn lemma_component_bare_version(name: Seq<char>, version: Seq<char>)
    requires
        is_known_binary(name),
        version.len() > 1,
        is_digit(version[0]) || (version[0] == 'v' && is_digit(version[1])),
        has_substring(version, "."@),
    ensures
        component_result(name + "@"@ + version) == Ok::<
            (Seq<char>, Seq<char>, Option<Seq<char>>),
            CommandErrorView,
        >((name, "testnet"@, Some(version))),
{
    lemma_known_names_plain(name);
    reveal_strlit("@");
    lemma_split_at_separator(name, '@', version);
    assert("@"@ =~= seq!['@']);
    assert(name + "@"@ + version =~= name.push('@') + version);
    assert(component_split(name + "@"@ + version) == (name, Some(version)));
    reveal_strlit("testnet");
    reveal_strlit("devnet");
    reveal_strlit("mainnet");
    reveal_strlit("testnet-");
    reveal_strlit("devnet-");
    reveal_strlit("mainnet-");
    assert("testnet-"@[0] == 't' && "devnet-"@[0] == 'd' && "mainnet-"@[0] == 'm');
    assert(version[0] != 't' && version[0] != 'd' && version[0] != 'm');
    lemma_not_prefix(version, "testnet-"@);
    lemma_not_prefix(version, "devnet-"@);
    lemma_not_prefix(version, "mainnet-"@);
    assert(version != "testnet"@ && version != "devnet"@ && version != "mainnet"@) by {
        assert("testnet"@[0] == 't' && "devnet"@[0] == 'd' && "mainnet"@[0] == 'm');
    }
    assert(looks_like_version(version));
}

/// `==`, `=` and a space between the binary and the version part mean what
/// `@` means: `sui==1.2.3`, `sui=1.2.3` and `sui 1.2.3` are read as
/// `sui@1.2.3`.
pub proof fn lemma_component_delimiters(name: Seq<char>, spec: Seq<char>)
    requires
        is_known_binary(name),
        is_plain_name(spec),
    ensures
        component_result(name + "=="@ + spec) == component_result(name + "@"@ + spec),
        component_result(name + "="@ + spec) == component_result(name + "@"@ + spec),
        component_result(name + " "@ + spec) == component_result(name + "@"@ + spec),
{
    lemma_known_names_plain(name);
    reveal_strlit("@");
    reveal_strlit("==");
    reveal_strlit("=");
    reveal_strlit(" ");
    assert("@"@ =~= seq!['@']);
    assert("=="@ =~= seq!['=', '=']);
    assert("="@ =~= seq!['=']);
    assert(" "@ =~= seq![' ']);
    // `@`
    lemma_split_at_separator(name, '@', spec);
    assert(name + "@"@ + spec =~= name.push('@') + spec);
    assert(component_split(name + "@"@ + spec) == (name, Some(spec)));
    // `==`
    let s2 = name + "=="@ + spec;
    lemma_lacks_concat(name, seq!['=', '='], '@');
    lemma_lacks_concat(name + seq!['=', '='], spec, '@');
    lemma_split_absent(s2, "@"@);
    lemma_split_at_pattern(name, "=="@, spec);
    assert(component_split(s2) == (name, Some(spec)));
    // `=`
    let s1 = name + "="@ + spec;
    assert(s1 =~= name.push('=') + spec);
    lemma_lacks_concat(name, seq!['='], '@');
    lemma_lacks_concat(name + seq!['='], spec, '@');
    lemma_split_absent(s1, "@"@);
    lemma_no_double(name, '=', spec);
    lemma_split_at_separator(name, '=', spec);
    assert(component_split(s1) == (name, Some(spec)));
    // a space
    let s0 = name + " "@ + spec;
    assert(s0 =~= name.push(' ') + spec);
    lemma_lacks_concat(name, seq![' '], '@');
    lemma_lacks_concat(name + seq![' '], spec, '@');
    lemma_lacks_concat(name, seq![' '], '=');
    lemma_lacks_concat(name + seq![' '], spec, '=');
    lemma_split_absent(s0, "@"@);
    lemma_split_absent(s0, "=="@);
    lemma_split_absent(s0, "="@);
    lemma_split_at_separator(name, ' ', spec);
    assert(component_split(s0) == (name, Some(spec)));
}

/// Parses a component specification such as `sui`, `sui@testnet`,
/// `sui@testnet-1.39.3`, `sui@v1.60.0` or `mvr 0.0.5`.
pub fn parse_component_with_version(s: &str) -> (r: Result<CommandMetadata, CommandError>)
    ensures
        match component_result(s@) {
            Ok((name, network, version)) => r matches Ok(m) && m.name@ == name && m.network@
                == network && opt_view(m.version) == version,
            Err(e) => r matches Err(re) && re@ == e,
        },
{
    let (name, version_spec) = split_component_spec(s);
    let component = parse_binary_name(name)?;
    if let Some(spec) = version_spec {
        if spec.unicode_len() == 0 {
            assert(spec@ =~= Seq::<char>::empty());
            return Err(CommandError::EmptyVersion);
        }
    }
    let (network, version) = parse_version_spec(version_spec)?;
    Ok(CommandMetadata { name: component, network, version })
}

// ---------------------------------------------------------------------------
// The table of binaries
// ---------------------------------------------------------------------------

/// The row of the table for a record: binary, release or branch, version,
/// and `Yes` or `No` for a debug build.
pub open spec fn table_row(b: BinaryVersionView) -> Seq<Seq<char>> {
    seq![
        b.binary_name,
        b.network_release,
        b.version,
        if b.debug {
            "Yes"@
        } else {
            "No"@
        },
    ]
}

/// The header of the table.
pub fn table_header() -> (r: Vec<&'static str>)
    ensures
        r@.map_values(|s: &str| s@) == seq!["Binary"@, "Release/Branch"@, "Version"@, "Debug"@],
{
    let mut v: Vec<&'static str> = Vec::new();
    v.push("Binary");
    v.push("Release/Branch");
    v.push("Version");
    v.push("Debug");
    assert(v@.map_values(|s: &str| s@) =~= seq![
        "Binary"@,
        "Release/Branch"@,
        "Version"@,
        "Debug"@,
    ]);
    v
}

/// The rows of the table of binaries, sorted by binary name (stably).
pub fn table_rows(binaries: &[BinaryVersion]) -> (r: Vec<Vec<String>>)
    ensures
        r@.map_values(|row: Vec<String>| row@.map_values(|s: String| s@)) == stable_sort(
            versions_view(binaries@),
        ).map_values(|b: BinaryVersionView| table_row(b)),
{
    let copy = clone_versions(binaries);
    let sorted = sort_by_key(copy);
    proof {
        let f = |b: BinaryVersion| b@;
        assert forall|x: BinaryVersion| #[trigger] f(x).key_view() == x.key_view() by {}
        lemma_stable_sort_map(copy@, f);
    }
    let ghost sv = versions_view(sorted@);
    let n = sorted.len();
    let mut rows: Vec<Vec<String>> = Vec::new();
    let mut i: usize = 0;
    while i < n
        invariant
            n == sorted@.len(),
            sv == versions_view(sorted@),
            i <= n,
            rows@.len() == i,
            forall|j: int|
                0 <= j < i ==> (#[trigger] rows@[j])@.map_values(|s: String| s@) == table_row(
                    sv[j],
                ),
        decreases n - i,
    {
        let b = &sorted[i];
        let mut row: Vec<String> = Vec::new();
        row.push(b.binary_name.clone());
        row.push(b.network_release.clone());
        row.push(b.version.clone());
        if b.debug {
            row.push(String::from_str("Yes"));
        } else {
            row.push(String::from_str("No"));
        }
        assert(sv[i as int] == b@);
        assert(row@.map_values(|s: String| s@) =~= table_row(sv[i as int]));
        rows.push(row);
        i = i + 1;
    }
    assert(rows@.map_values(|row: Vec<String>| row@.map_values(|s: String| s@)) =~= sv.map_values(
        |b: BinaryVersionView| table_row(b),
    ));
    rows
}

} // verus!
