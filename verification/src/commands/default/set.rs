//! `suiup default set`: the arguments, and the decision of which installed
//! binary becomes the default.

use vstd::prelude::*;

use crate::commands::{
    command_error_text, component_result, is_network_name, lemma_component_at_version,
    parse_component_with_version, CommandError, CommandErrorView,
};
use crate::handlers::install::installed_record;
use crate::handlers::release::{ensure_version_prefix, with_v_prefix};
use crate::handlers::update::{
    has_named, lemma_max_named_version, lemma_on_network_members, max_named_version,
    newest_version, reinstalls, version_order_le,
};
use crate::registry::{config_of, is_known_binary, opt_view, InstallationType};
use crate::text::{has_prefix, str_eq};
use crate::types::{
    group_by_network, groups_view, keys_cover, keys_from, lemma_add_binary_idempotent, on_network,
    versions_view, with_binary, BinaryVersionView, InstalledBinaries,
};

verus! {

/// Set the default Sui CLI version.
#[derive(Debug)]
pub struct Command {
    /// Binary to be set as default and the version, e.g. `sui@testnet-1.39.3`,
    /// `sui@testnet` (the installed binary with the highest testnet version).
    pub name: String,
    /// Whether to set the debug version of the binary as default (only
    /// available for sui).
    pub debug: bool,
    /// Use the nightly version, optionally of a branch (`main` by default).
    pub nightly: Option<String>,
}

/// Why a binary could not be made the default.
#[derive(Debug)]
pub enum SetError {
    /// Neither a binary nor a branch was given.
    MissingArguments,
    /// The binary could not be parsed.
    Component(CommandError),
    /// Nothing is installed from that network or branch.
    NoBinariesForNetwork(String),
    /// The binary is not installed at all.
    NotInstalled(String),
    /// No version of the binary is installed from that network.
    NoVersion { name: String, network: String },
    /// The requested version is not installed from that network.
    VersionNotFound { binary_version: String, network: String },
}

/// The mathematical value of a `SetError`.
pub enum SetErrorView {
    MissingArguments,
    Component(CommandErrorView),
    NoBinariesForNetwork(Seq<char>),
    NotInstalled(Seq<char>),
    NoVersion { name: Seq<char>, network: Seq<char> },
    VersionNotFound { binary_version: Seq<char>, network: Seq<char> },
}

impl View for SetError {
    type V = SetErrorView;

    open spec fn view(&self) -> SetErrorView {
        match self {
            SetError::MissingArguments => SetErrorView::MissingArguments,
            SetError::Component(e) => SetErrorView::Component(e@),
            SetError::NoBinariesForNetwork(n) => SetErrorView::NoBinariesForNetwork(n@),
            SetError::NotInstalled(n) => SetErrorView::NotInstalled(n@),
            SetError::NoVersion { name, network } => SetErrorView::NoVersion {
                name: name@,
                network: network@,
            },
            SetError::VersionNotFound { binary_version, network } =>
                SetErrorView::VersionNotFound { binary_version: binary_version@, network: network@ },
        }
    }
}

/// The message of a refusal.
pub open spec fn set_error_text(e: SetErrorView) -> Seq<char> {
    match e {
        SetErrorView::MissingArguments => "Invalid number of arguments. Version is required: 'sui@testnet-1.39.3', 'sui@testnet' -- this will use an installed binary that has the highest testnet version. \n For `mvr` only pass the version: `mvr@0.0.5`"@,
        SetErrorView::Component(c) => command_error_text(c),
        SetErrorView::NoBinariesForNetwork(n) => "No binaries installed for "@ + n,
        SetErrorView::NotInstalled(n) => "Binary "@ + n
            + " not found in installed binaries. Use `suiup show` to see installed binaries."@,
        SetErrorView::NoVersion { name, network } => "No version found for "@ + name + " in "@
            + network,
        SetErrorView::VersionNotFound { binary_version, network } => "Binary "@ + binary_version
            + " from "@ + network
            + " release not found. Use `suiup show` to see installed binaries."@,
    }
}

impl SetError {
    /// The message of the refusal.
    pub fn message(&self) -> (r: String)
        ensures
            r@ == set_error_text(self@),
    {
        match self {
            SetError::MissingArguments => String::from_str(
                "Invalid number of arguments. Version is required: 'sui@testnet-1.39.3', 'sui@testnet' -- this will use an installed binary that has the highest testnet version. \n For `mvr` only pass the version: `mvr@0.0.5`",
            ),
            SetError::Component(e) => e.message(),
            SetError::NoBinariesForNetwork(n) => {
                let mut s = String::from_str("No binaries installed for ");
                s.append(n.as_str());
                s
            },
            SetError::NotInstalled(n) => {
                let mut s = String::from_str("Binary ");
                s.append(n.as_str());
                s.append(
                    " not found in installed binaries. Use `suiup show` to see installed binaries.",
                );
                s
            },
            SetError::NoVersion { name, network } => {
                let mut s = String::from_str("No version found for ");
                s.append(name.as_str());
                s.append(" in ");
                s.append(network.as_str());
                s
            },
            SetError::VersionNotFound { binary_version, network } => {
                let mut s = String::from_str("Binary ");
                s.append(binary_version.as_str());
                s.append(" from ");
                s.append(network.as_str());
                s.append(" release not found. Use `suiup show` to see installed binaries.");
                s
            },
        }
    }
}

/// What `default set` copies and records: the name the default binary gets
/// (and records in the default-version file), the network or branch, the
/// version, whether it is a debug build, whether the source lies in the `bin`
/// folder of a nightly build, and the source file's name (`name-version`, or
/// `name-debug-version` for a debug build, as installs name them).
#[derive(Debug)]
pub struct DefaultPlan {
    pub binary: String,
    pub network: String,
    pub version: String,
    pub debug: bool,
    pub in_bin_folder: bool,
    pub source_file: String,
}

/// The mathematical value of a `DefaultPlan`.
pub struct DefaultPlanView {
    pub binary: Seq<char>,
    pub network: Seq<char>,
    pub version: Seq<char>,
    pub debug: bool,
    pub in_bin_folder: bool,
    pub source_file: Seq<char>,
}

impl View for DefaultPlan {
    type V = DefaultPlanView;

    open spec fn view(&self) -> DefaultPlanView {
        DefaultPlanView {
            binary: self.binary@,
            network: self.network@,
            version: self.version@,
            debug: self.debug,
            in_bin_folder: self.in_bin_folder,
            source_file: self.source_file@,
        }
    }
}

/// The network the default comes from: the branch of a nightly build, else
/// `standalone` for a binary not released per network, else the requested
/// network.
pub open spec fn chosen_network(name: Seq<char>, nightly: Option<Seq<char>>, requested: Seq<char>) -> Seq<char> {
    match nightly {
        Some(b) => b,
        None => if reinstalls(config_of(name).network_based, config_of(name).installation_type) {
            "standalone"@
        } else {
            requested
        },
    }
}

/// Some record of `s` is from `net`.
pub open spec fn has_network(s: Seq<BinaryVersionView>, net: Seq<char>) -> bool {
    exists|k: int| 0 <= k < s.len() && #[trigger] s[k].network_release == net
}

/// Some record of `s` is of binary `name`, at `version`, from `net`.
pub open spec fn has_record(s: Seq<BinaryVersionView>, name: Seq<char>, version: Seq<char>, net: Seq<char>) -> bool {
    exists|k: int|
        0 <= k < s.len() && #[trigger] s[k].binary_name == name && s[k].version == version
            && s[k].network_release == net
}

/// The plan for a binary found installed.
pub open spec fn plan_of(name: Seq<char>, net: Seq<char>, version: Seq<char>, debug: bool, nightly: bool) -> DefaultPlanView {
    let binary = if debug {
        name + "-debug"@
    } else {
        name
    };
    DefaultPlanView {
        binary,
        network: net,
        version,
        debug,
        in_bin_folder: nightly,
        source_file: binary + "-"@ + version,
    }
}

/// What `default set` decides for the binary specification `spec`, the debug
/// flag and the nightly branch, given the installed records `s`.
pub open spec fn default_set_result(
    spec: Seq<char>,
    debug: bool,
    nightly: Option<Seq<char>>,
    s: Seq<BinaryVersionView>,
) -> Result<DefaultPlanView, SetErrorView> {
    if spec.len() == 0 && nightly is None {
        Err(SetErrorView::MissingArguments)
    } else {
        match component_result(spec) {
            Err(e) => Err(SetErrorView::Component(e)),
            Ok((name, requested, version)) => {
                let net = chosen_network(name, nightly, requested);
                if !has_network(s, net) {
                    Err(SetErrorView::NoBinariesForNetwork(net))
                } else if !has_named(s, name) {
                    Err(SetErrorView::NotInstalled(name))
                } else {
                    let chosen = match version {
                        Some(v) => Some(with_v_prefix(v)),
                        None => max_named_version(on_network(s, net), name),
                    };
                    match chosen {
                        None => Err(SetErrorView::NoVersion { name, network: net }),
                        Some(v) => if !has_record(s, name, v, net) {
                            Err(
                                SetErrorView::VersionNotFound {
                                    binary_version: name + "-"@ + v,
                                    network: net,
                                },
                            )
                        } else {
                            Ok(plan_of(name, net, v, debug, nightly is Some))
                        },
                    }
                }
            },
        }
    }
}

/// A binary just recorded as installed from a network at a `v`-prefixed
/// version can be made the default by naming it `name@network-version`: the
/// plan copies exactly that build.
pub proof fn lemma_installed_can_become_default(
    s: Seq<BinaryVersionView>,
    name: Seq<char>,
    network: Seq<char>,
    version: Seq<char>,
    build_debug: bool,
    path: Seq<char>,
    debug: bool,
)
    requires
        is_known_binary(name),
        is_network_name(network),
        !reinstalls(config_of(name).network_based, config_of(name).installation_type),
        has_prefix(version, "v"@),
    ensures
        default_set_result(
            name + "@"@ + network + "-"@ + version,
            debug,
            None,
            with_binary(s, installed_record(name, network, version, build_debug, path)),
        ) == Ok::<DefaultPlanView, SetErrorView>(plan_of(name, network, version, debug, false)),
{
    let b = installed_record(name, network, version, build_debug, path);
    let t = with_binary(s, b);
    lemma_component_at_version(name, network, version);
    lemma_add_binary_idempotent(s, b);
    let k = choose|k: int| 0 <= k < t.len() && t[k] == b;
    assert(t[k].network_release == network);
    assert(t[k].binary_name == name);
    assert(has_network(t, network));
    assert(has_named(t, name));
    assert(has_record(t, name, version, network));
    reveal_strlit("@");
    assert((name + "@"@ + network + "-"@ + version).len() > 0);
}

/// The network of the default, as `chosen_network` says.
fn choose_network(reinstall: bool, nightly: &Option<String>, requested: &str) -> (r: String)
    ensures
        r@ == match opt_view(*nightly) {
            Some(b) => b,
            None => if reinstall {
                "standalone"@
            } else {
                requested@
            },
        },
{
    match nightly {
        Some(b) => b.clone(),
        None => if reinstall {
            String::from_str("standalone")
        } else {
            String::from_str(requested)
        },
    }
}

impl Command {
    /// A command with default options (no debug, no nightly).
    pub fn new(name: String) -> (r: Self)
        ensures
            r.name == name,
            !r.debug,
            r.nightly is None,
    {
        Command { name, debug: false, nightly: None }
    }

    /// Decides which installed binary becomes the default, or why none can.
    #[verifier::rlimit(30)]
    pub fn plan(&self, installed: &InstalledBinaries) -> (r: Result<DefaultPlan, SetError>)
        ensures
            match default_set_result(self.name@, self.debug, opt_view(self.nightly), installed@) {
                Ok(p) => r matches Ok(q) && q@ == p,
                Err(e) => r matches Err(f) && f@ == e,
            },
            r matches Ok(q) ==> match component_result(self.name@) {
                Ok((name, _, None)) => forall|k: int|
                    0 <= k < installed@.len() && #[trigger] installed@[k].binary_name == name
                        && installed@[k].network_release == q.network@ ==> version_order_le(
                        installed@[k].version,
                        q.version@,
                    ),
                _ => true,
            },
    {
        let ghost s = installed@;
        if self.name.unicode_len() == 0 && self.nightly.is_none() {
            return Err(SetError::MissingArguments);
        }
        let meta = match parse_component_with_version(self.name.as_str()) {
            Ok(m) => m,
            Err(e) => {
                return Err(SetError::Component(e));
            },
        };
        let name = meta.name.as_str();
        let config = meta.name.config();
        let reinstall = !config.network_based || config.installation_type
            == InstallationType::Standalone;
        assert(reinstall == reinstalls(config_of(name@).network_based, config_of(name@).installation_type));
        let network = choose_network(reinstall, &self.nightly, meta.network.as_str());

        // The records grouped by network, and the group of the chosen one.
        let groups = group_by_network(installed.binaries());
        let ghost g = groups_view(groups@);
        let m = groups.len();
        let mut p: usize = 0;
        while p < m && !str_eq(groups[p].0.as_str(), network.as_str())
            invariant
                m == groups@.len(),
                g == groups_view(groups@),
                p <= m,
                forall|b: int| 0 <= b < p ==> (#[trigger] g[b]).0 != network@,
            decreases m - p,
        {
            p = p + 1;
        }
        if p == m {
            proof {
                if has_network(s, network@) {
                    reveal(keys_cover);
                    let k = choose|k: int| 0 <= k < s.len() && #[trigger] s[k].network_release == network@;
                    let b = choose|b: int| 0 <= b < g.len() && #[trigger] g[b].0 == s[k].network_release;
                }
            }
            return Err(SetError::NoBinariesForNetwork(network));
        }
        proof {
            reveal(keys_from);
            assert(g[p as int].0 == network@);
            let k = choose|k: int| 0 <= k < s.len() && #[trigger] s[k].network_release == g[p as int].0;
            assert(has_network(s, network@));
            assert(g[p as int].1 == on_network(s, network@));
            assert(g[p as int] == (groups@[p as int].0@, versions_view(groups@[p as int].1@)));
        }
        let group = groups[p].1.as_slice();

        // The binary must be installed from some network.
        let binaries = installed.binaries();
        let mut found = false;
        let mut i: usize = 0;
        while i < binaries.len()
            invariant
                i <= binaries@.len(),
                versions_view(binaries@) == s,
                found <==> exists|j: int| 0 <= j < i && #[trigger] binaries@[j].binary_name@ == name@,
            decreases binaries@.len() - i,
        {
            if str_eq(binaries[i].binary_name.as_str(), name) {
                found = true;
            }
            i = i + 1;
        }
        proof {
            if found {
                let j = choose|j: int| 0 <= j < i && #[trigger] binaries@[j].binary_name@ == name@;
                assert(s[j] == binaries@[j]@);
                assert(s[j].binary_name == name@);
            }
            if has_named(s, name@) {
                let j = choose|j: int| 0 <= j < s.len() && #[trigger] s[j].binary_name == name@;
                assert(s[j] == binaries@[j]@);
            }
        }
        if !found {
            return Err(SetError::NotInstalled(String::from_str(name)));
        }

        // The version: the requested one, or the newest installed.
        let version = match &meta.version {
            Some(v) => ensure_version_prefix(v.as_str()),
            None => match newest_version(group, name) {
                Some(v) => v,
                None => {
                    return Err(SetError::NoVersion { name: String::from_str(name), network });
                },
            },
        };

        // A record of that version must be installed from the network.
        let ghost o = on_network(s, network@);
        let mut q: usize = 0;
        let mut present = false;
        while q < group.len()
            invariant
                q <= group@.len(),
                versions_view(group@) == o,
                present <==> exists|j: int|
                    0 <= j < q && #[trigger] group@[j].binary_name@ == name@ && group@[j].version@
                        == version@,
            decreases group@.len() - q,
        {
            if str_eq(group[q].binary_name.as_str(), name) && str_eq(
                group[q].version.as_str(),
                version.as_str(),
            ) {
                present = true;
            }
            q = q + 1;
        }
        proof {
            lemma_on_network_members(s, network@);
            if present {
                let j = choose|j: int|
                    0 <= j < q && #[trigger] group@[j].binary_name@ == name@ && group@[j].version@
                        == version@;
                assert(o[j] == group@[j]@);
                assert(s.contains(o[j]));
                let k = choose|k: int| 0 <= k < s.len() && s[k] == o[j];
                assert(s[k].binary_name == name@ && s[k].version == version@ && s[k].network_release
                    == network@);
            }
            if has_record(s, name@, version@, network@) {
                let k = choose|k: int|
                    0 <= k < s.len() && #[trigger] s[k].binary_name == name@ && s[k].version
                        == version@ && s[k].network_release == network@;
                assert(o.contains(s[k]));
                let j = choose|j: int| 0 <= j < o.len() && o[j] == s[k];
                assert(o[j] == group@[j]@);
                assert(group@[j].binary_name@ == name@);
            }
        }
        if !present {
            let mut binary_version = String::from_str(name);
            binary_version.append("-");
            binary_version.append(version.as_str());
            return Err(SetError::VersionNotFound { binary_version, network });
        }
        let mut binary = String::from_str(name);
        if self.debug {
            binary.append("-debug");
        }
        let mut source_file = binary.clone();
        source_file.append("-");
        source_file.append(version.as_str());
        proof {
            if meta.version is None {
                lemma_max_named_version(o, name@);
                lemma_on_network_members(s, network@);
                assert forall|k: int|
                    0 <= k < s.len() && #[trigger] s[k].binary_name == name@ && s[k].network_release
                        == network@ implies version_order_le(s[k].version, version@) by {
                    assert(o.contains(s[k]));
                    let m = choose|m: int| 0 <= m < o.len() && o[m] == s[k];
                    assert(o[m].binary_name == name@);
                }
            }
        }
        Ok(
            DefaultPlan {
                binary,
                network,
                version,
                debug: self.debug,
                in_bin_folder: self.nightly.is_some(),
                source_file,
            },
        )
    }
}

} // verus!
