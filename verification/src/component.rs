//! The component manager: what each component command does, decided from
//! the command, the registry and the installed binaries. Carrying it out
//! (downloads, builds, files) is left to the caller.

use vstd::prelude::*;

use crate::commands::{
    component_result, parse_component_with_version, CommandError, CommandErrorView,
    ComponentCommands,
};
use crate::registry::{
    builtin_config_views, config_of, is_known_binary, lemma_config_of_in_registry,
    lemma_registry_defaults_supported, lemma_registry_names, opt_view, registry_of,
    BinaryConfigView, BinaryName, BinaryRegistry, InstallationType,
};
use crate::handlers::cleanup::{cleanup_indices, cleanup_targets, CachedArchive};
use crate::text::str_eq;
use crate::types::{
    lookup, versions_view, without_binary, BinaryVersion, BinaryVersionView, DefaultEntryView,
    DefaultVersions, InstalledBinaries,
};

verus! {

// ---------------------------------------------------------------------------
// Installing
// ---------------------------------------------------------------------------

/// How a binary is installed.
#[derive(Debug)]
pub enum InstallPlan {
    /// Build from a branch with `cargo install`.
    Nightly { branch: String },
    /// Download and extract the release archive of a network, at a version or
    /// the latest.
    Release { network: String, version: Option<String> },
    /// Download the standalone executable, at a version or the latest, under
    /// the binary's own name where the repository ships several binaries.
    Standalone { version: Option<String>, binary_name_override: Option<String> },
}

/// The mathematical value of an `InstallPlan`.
pub enum InstallPlanView {
    Nightly { branch: Seq<char> },
    Release { network: Seq<char>, version: Option<Seq<char>> },
    Standalone { version: Option<Seq<char>>, binary_name_override: Option<Seq<char>> },
}

impl View for InstallPlan {
    type V = InstallPlanView;

    open spec fn view(&self) -> InstallPlanView {
        match self {
            InstallPlan::Nightly { branch } => InstallPlanView::Nightly { branch: branch@ },
            InstallPlan::Release { network, version } => InstallPlanView::Release {
                network: network@,
                version: opt_view(*version),
            },
            InstallPlan::Standalone { version, binary_name_override } =>
                InstallPlanView::Standalone {
                    version: opt_view(*version),
                    binary_name_override: opt_view(*binary_name_override),
                },
        }
    }
}

/// Why a component command was refused.
#[derive(Debug)]
pub enum ComponentError {
    /// The component specification could not be parsed.
    Component(CommandError),
    /// A debug build was asked for a binary that has none.
    DebugUnsupported,
    /// Both a branch and a version were given.
    NightlyAndVersion,
    /// The binary to remove is not in the registry.
    UnknownBinary(String),
}

/// The mathematical value of a `ComponentError`.
pub enum ComponentErrorView {
    Component(CommandErrorView),
    DebugUnsupported,
    NightlyAndVersion,
    UnknownBinary(Seq<char>),
}

impl View for ComponentError {
    type V = ComponentErrorView;

    open spec fn view(&self) -> ComponentErrorView {
        match self {
            ComponentError::Component(e) => ComponentErrorView::Component(e@),
            ComponentError::DebugUnsupported => ComponentErrorView::DebugUnsupported,
            ComponentError::NightlyAndVersion => ComponentErrorView::NightlyAndVersion,
            ComponentError::UnknownBinary(b) => ComponentErrorView::UnknownBinary(b@),
        }
    }
}

/// The message of a refusal.
pub open spec fn component_error_text(e: ComponentErrorView) -> Seq<char> {
    match e {
        ComponentErrorView::Component(c) => crate::commands::command_error_text(c),
        ComponentErrorView::DebugUnsupported => "Debug flag is only available for the `sui` binary"@,
        ComponentErrorView::NightlyAndVersion => "Cannot install from nightly and a release at the same time. Remove the version or the nightly flag"@,
        ComponentErrorView::UnknownBinary(b) => "Unknown binary: "@ + b
            + ". Use `suiup list` to see available binaries."@,
    }
}

impl ComponentError {
    /// The message of the refusal.
    pub fn message(&self) -> (r: String)
        ensures
            r@ == component_error_text(self@),
    {
        match self {
            ComponentError::Component(e) => e.message(),
            ComponentError::DebugUnsupported => String::from_str(
                "Debug flag is only available for the `sui` binary",
            ),
            ComponentError::NightlyAndVersion => String::from_str(
                "Cannot install from nightly and a release at the same time. Remove the version or the nightly flag",
            ),
            ComponentError::UnknownBinary(b) => {
                let mut s = String::from_str("Unknown binary: ");
                s.append(b.as_str());
                s.append(". Use `suiup list` to see available binaries.");
                s
            },
        }
    }
}

/// The network a release is installed from: the requested one, unless the
/// binary is released per network for a list of networks that lacks it, in
/// which case its default network.
pub open spec fn effective_network(c: BinaryConfigView, requested: Seq<char>) -> Seq<char> {
    if c.network_based && c.supported_networks.len() > 0 && !c.supported_networks.contains(
        requested,
    ) {
        c.default_network
    } else {
        requested
    }
}

/// A requested network that the binary supports, or any network for a
/// binary that is not released per network or lists no networks, is the
/// network the release is installed from; a network it does not support
/// gives way to its default network.
pub proof fn lemma_requested_network_kept(c: BinaryConfigView, requested: Seq<char>)
    ensures
        c.supported_networks.contains(requested) ==> effective_network(c, requested) == requested,
        !c.network_based ==> effective_network(c, requested) == requested,
        c.supported_networks.len() == 0 ==> effective_network(c, requested) == requested,
        c.network_based && c.supported_networks.len() > 0 && !c.supported_networks.contains(
            requested,
        ) ==> effective_network(c, requested) == c.default_network,
{
}

/// A release install of a binary of the registry, from a network it
/// supports, is planned for that network and the requested version.
pub proof fn lemma_release_install_on_supported_network(
    name: Seq<char>,
    network: Seq<char>,
    version: Option<Seq<char>>,
    debug: bool,
)
    requires
        is_known_binary(name),
        config_of(name).installation_type == InstallationType::Archive,
        config_of(name).supported_networks.contains(network),
        config_of(name).supports_debug || !debug,
    ensures
        install_result(name, network, version, None, debug) == Ok::<
            InstallPlanView,
            ComponentErrorView,
        >(InstallPlanView::Release { network, version }),
{
    lemma_requested_network_kept(config_of(name), network);
}

/// A release of a binary released per network for a list of networks is
/// installed from one of them.
pub proof fn lemma_release_network_supported(name: Seq<char>, network: Seq<char>)
    requires
        is_known_binary(name),
        config_of(name).network_based,
        config_of(name).supported_networks.len() > 0,
    ensures
        config_of(name).supported_networks.contains(effective_network(config_of(name), network)),
{
    lemma_config_of_in_registry(name);
    let i = choose|i: int|
        0 <= i < registry_of(builtin_config_views()).len() && config_of(name)
            == #[trigger] registry_of(builtin_config_views())[i];
    lemma_registry_defaults_supported(i);
}

/// How the binary `name` is installed, asked for at `network` and `version`,
/// from the branch `nightly` if given, as a debug build or not.
pub open spec fn install_result(
    name: Seq<char>,
    network: Seq<char>,
    version: Option<Seq<char>>,
    nightly: Option<Seq<char>>,
    debug: bool,
) -> Result<InstallPlanView, ComponentErrorView> {
    let c = config_of(name);
    if !c.supports_debug && debug && nightly is None {
        Err(ComponentErrorView::DebugUnsupported)
    } else if nightly is Some && version is Some {
        Err(ComponentErrorView::NightlyAndVersion)
    } else {
        match nightly {
            Some(b) => Ok(InstallPlanView::Nightly { branch: b }),
            None => match c.installation_type {
                InstallationType::Archive => Ok(
                    InstallPlanView::Release { network: effective_network(c, network), version },
                ),
                InstallationType::Standalone => Ok(
                    InstallPlanView::Standalone {
                        version,
                        binary_name_override: if c.shared_repo_binary {
                            Some(name)
                        } else {
                            None
                        },
                    },
                ),
            },
        }
    }
}

fn clone_option(o: &Option<String>) -> (r: Option<String>)
    ensures
        opt_view(r) == opt_view(*o),
{
    match o {
        Some(s) => Some(s.clone()),
        None => None,
    }
}

/// Whether `list` holds `s`.
fn list_contains(list: &Vec<String>, s: &str) -> (r: bool)
    ensures
        r == list@.map_values(|x: String| x@).contains(s@),
{
    let ghost v = list@.map_values(|x: String| x@);
    let mut i: usize = 0;
    while i < list.len()
        invariant
            i <= list@.len(),
            v == list@.map_values(|x: String| x@),
            forall|j: int| 0 <= j < i ==> v[j] != s@,
        decreases list@.len() - i,
    {
        if str_eq(list[i].as_str(), s) {
            assert(v[i as int] == s@);
            return true;
        }
        i = i + 1;
    }
    false
}

/// Decides how the binary `name` is installed.
pub fn plan_install(
    name: &BinaryName,
    network: &str,
    version: &Option<String>,
    nightly: &Option<String>,
    debug: bool,
) -> (r: Result<InstallPlan, ComponentError>)
    ensures
        match install_result(name@, network@, opt_view(*version), opt_view(*nightly), debug) {
            Ok(p) => r matches Ok(q) && q@ == p,
            Err(e) => r matches Err(f) && f@ == e,
        },
{
    let config = name.config();
    if !config.supports_debug && debug && nightly.is_none() {
        return Err(ComponentError::DebugUnsupported);
    }
    if nightly.is_some() && version.is_some() {
        return Err(ComponentError::NightlyAndVersion);
    }
    match nightly {
        Some(branch) => {
            return Ok(InstallPlan::Nightly { branch: branch.clone() });
        },
        None => {},
    }
    match config.installation_type {
        InstallationType::Archive => {
            let network = if config.network_based && config.supported_networks.len() > 0
                && !list_contains(&config.supported_networks, network) {
                config.default_network.clone()
            } else {
                String::from_str(network)
            };
            Ok(InstallPlan::Release { network, version: clone_option(version) })
        },
        InstallationType::Standalone => {
            let binary_name_override = if config.shared_repo_binary {
                Some(String::from_str(name.as_str()))
            } else {
                None
            };
            Ok(InstallPlan::Standalone { version: clone_option(version), binary_name_override })
        },
    }
}

// ---------------------------------------------------------------------------
// Removing
// ---------------------------------------------------------------------------

/// The records of `s` of the binary `name`, in order.
pub open spec fn records_of(s: Seq<BinaryVersionView>, name: Seq<char>) -> Seq<BinaryVersionView>
    decreases s.len(),
{
    if s.len() == 0 {
        s
    } else if s.last().binary_name == name {
        records_of(s.drop_last(), name).push(s.last())
    } else {
        records_of(s.drop_last(), name)
    }
}

/// The installed records of the binary `binary`: the files that its removal
/// deletes.
pub fn removal_targets(installed: &InstalledBinaries, binary: &str) -> (r: Vec<BinaryVersion>)
    ensures
        versions_view(r@) == records_of(installed@, binary@),
{
    let ghost s = installed@;
    let binaries = installed.binaries();
    let n = binaries.len();
    let mut out: Vec<BinaryVersion> = Vec::new();
    let mut i: usize = 0;
    assert(s.subrange(0, 0) =~= Seq::<BinaryVersionView>::empty());
    assert(versions_view(out@) =~= Seq::<BinaryVersionView>::empty());
    while i < n
        invariant
            n == binaries@.len(),
            s == versions_view(binaries@),
            i <= n,
            versions_view(out@) == records_of(s.subrange(0, i as int), binary@),
        decreases n - i,
    {
        assert(s.subrange(0, i + 1).drop_last() =~= s.subrange(0, i as int));
        assert(s.subrange(0, i + 1).last() == binaries@[i as int]@);
        if str_eq(binaries[i].binary_name.as_str(), binary) {
            let ghost before = versions_view(out@);
            out.push(binaries[i].clone());
            assert(versions_view(out@) =~= before.push(binaries@[i as int]@));
        }
        i = i + 1;
    }
    assert(s.subrange(0, n as int) =~= s);
    out
}

/// Forgets the binary `binary`: its installed records and its default.
pub fn forget_binary(installed: &mut InstalledBinaries, defaults: &mut DefaultVersions, binary: &str)
    ensures
        final(installed)@ == without_binary(old(installed)@, binary@),
        forall|k: Seq<char>|
            #[trigger] lookup(final(defaults)@, k) == if k == binary@ {
                None::<DefaultEntryView>
            } else {
                lookup(old(defaults)@, k)
            },
{
    defaults.remove(binary);
    installed.remove_binary(binary);
}

// ---------------------------------------------------------------------------
// The component manager
// ---------------------------------------------------------------------------

/// What a component command comes to.
#[derive(Debug)]
pub enum ComponentAction {
    /// Run the diagnostic checks.
    Doctor,
    /// List the binaries that can be installed.
    List,
    /// Install a binary as planned, offering (or, with `yes`, making) it the
    /// default afterwards.
    Install { name: BinaryName, plan: InstallPlan, debug: bool, yes: bool },
    /// Remove a binary of the registry.
    Remove { binary: String },
    /// Clean the cache.
    Cleanup { all: bool, days: u32, dry_run: bool },
}

/// Handles all component-related operations.
#[derive(Debug)]
pub struct ComponentManager {
    github_token: Option<String>,
}

impl ComponentManager {
    /// A manager that authenticates its requests with `github_token`, if any.
    pub fn new(github_token: Option<String>) -> (r: ComponentManager)
        ensures
            opt_view(r.token()) == opt_view(github_token),
    {
        ComponentManager { github_token }
    }

    /// The token of the manager.
    pub closed spec fn token(&self) -> Option<String> {
        self.github_token
    }

    /// The GitHub token the manager's requests carry.
    pub fn github_token(&self) -> (r: Option<String>)
        ensures
            opt_view(r) == opt_view(self.token()),
    {
        clone_option(&self.github_token)
    }

    /// The cache files a cleanup removes, by index: none on a dry run, else
    /// every file with `all`, or each file older than `days` days.
    pub fn handle_cleanup(
        &self,
        files: &[CachedArchive],
        now_secs: u64,
        all: bool,
        days: u32,
        dry_run: bool,
    ) -> (r: Vec<usize>)
        ensures
            dry_run ==> r@.len() == 0,
            !dry_run ==> r@ == cleanup_indices(files@, now_secs, all, days),
    {
        cleanup_targets(files, now_secs, all, days, dry_run)
    }

    /// Decides what a component command does: an install is parsed and
    /// planned, a removal is checked against the registry.
    pub fn handle_command(&self, cmd: ComponentCommands) -> (r: Result<ComponentAction, ComponentError>)
        ensures
            match cmd {
                ComponentCommands::Doctor => r matches Ok(ComponentAction::Doctor),
                ComponentCommands::List => r matches Ok(ComponentAction::List),
                ComponentCommands::Add { component, debug, nightly, yes } => match component_result(
                    component@,
                ) {
                    Err(e) => r matches Err(ComponentError::Component(c)) && c@ == e,
                    Ok((name, network, version)) => match install_result(
                        name,
                        network,
                        version,
                        opt_view(nightly),
                        debug,
                    ) {
                        Err(e) => r matches Err(f) && f@ == e,
                        Ok(p) => r matches Ok(ComponentAction::Install { name: n, plan: q, debug: d, yes: y })
                            && n@ == name && q@ == p && d == debug && y == yes,
                    },
                },
                ComponentCommands::Remove { binary } => if is_known_binary(binary@) {
                    r matches Ok(ComponentAction::Remove { binary: b }) && b@ == binary@
                } else {
                    r matches Err(ComponentError::UnknownBinary(b)) && b@ == binary@
                },
                ComponentCommands::Cleanup { all, days, dry_run } => r matches Ok(
                    ComponentAction::Cleanup { all: a, days: n, dry_run: d },
                ) && a == all && n == days && d == dry_run,
            },
    {
        match cmd {
            ComponentCommands::Doctor => Ok(ComponentAction::Doctor),
            ComponentCommands::List => Ok(ComponentAction::List),
            ComponentCommands::Add { component, debug, nightly, yes } => {
                let meta = match parse_component_with_version(component.as_str()) {
                    Ok(m) => m,
                    Err(e) => {
                        return Err(ComponentError::Component(e));
                    },
                };
                match plan_install(&meta.name, meta.network.as_str(), &meta.version, &nightly, debug) {
                    Ok(plan) => Ok(ComponentAction::Install { name: meta.name, plan, debug, yes }),
                    Err(e) => Err(e),
                }
            },
            ComponentCommands::Remove { binary } => {
                proof {
                    lemma_registry_names(builtin_config_views(), binary@);
                }
                if BinaryRegistry::global().contains(binary.as_str()) {
                    Ok(ComponentAction::Remove { binary })
                } else {
                    Err(ComponentError::UnknownBinary(binary))
                }
            },
            ComponentCommands::Cleanup { all, days, dry_run } => Ok(
                ComponentAction::Cleanup { all, days, dry_run },
            ),
        }
    }
}

// ---------------------------------------------------------------------------
// Listing
// ---------------------------------------------------------------------------

/// The row of the list of installable binaries for a configuration: name,
/// description and notes (no binary of the registry carries a note).
pub open spec fn list_row(c: BinaryConfigView) -> Seq<Seq<char>> {
    seq![c.name, c.description, Seq::<char>::empty()]
}

/// The header of the list of installable binaries.
pub fn list_header() -> (r: Vec<String>)
    ensures
        r@.map_values(|s: String| s@) == seq!["Binary"@, "Description"@, "Notes"@],
{
    let mut v: Vec<String> = Vec::new();
    v.push(String::from_str("Binary"));
    v.push(String::from_str("Description"));
    v.push(String::from_str("Notes"));
    assert(v@.map_values(|s: String| s@) =~= seq!["Binary"@, "Description"@, "Notes"@]);
    v
}

/// The rows of the list of installable binaries, in name order.
pub fn list_rows() -> (r: Vec<Vec<String>>)
    ensures
        r@.len() == registry_of(builtin_config_views()).len(),
        forall|i: int|
            0 <= i < r@.len() ==> (#[trigger] r@[i])@.map_values(|s: String| s@) == list_row(
                registry_of(builtin_config_views())[i],
            ),
{
    let registry = BinaryRegistry::global();
    let all = registry.all();
    let n = all.len();
    let mut rows: Vec<Vec<String>> = Vec::new();
    let mut i: usize = 0;
    while i < n
        invariant
            n == all@.len(),
            all@.map_values(|c: crate::registry::BinaryConfig| c@) == registry_of(
                builtin_config_views(),
            ),
            i <= n,
            rows@.len() == i,
            forall|j: int|
                0 <= j < i ==> (#[trigger] rows@[j])@.map_values(|s: String| s@) == list_row(
                    registry_of(builtin_config_views())[j],
                ),
        decreases n - i,
    {
        let c = &all[i];
        let mut row: Vec<String> = Vec::new();
        row.push(c.name.clone());
        row.push(c.description.clone());
        row.push(String::new());
        proof {
            assert(registry_of(builtin_config_views())[i as int] == all@[i as int]@);
            assert(row@.map_values(|s: String| s@) =~= list_row(all@[i as int]@));
        }
        rows.push(row);
        i = i + 1;
    }
    rows
}

} // verus!
