//! The registry of installable binaries: their configurations, the registry
//! built from the embedded configuration documents, and validated binary
//! names.

use vstd::prelude::*;

use crate::sort::{
    is_sorted_by_key, lemma_stable_sort_map, lemma_stable_sort_permutation,
    lemma_stable_sort_sorted, sort_by_key, stable_sort, Keyed, SortKey,
};
use crate::text::{is_white_space, lacks_char, lex_le, str_eq, trim};

verus! {

broadcast use vstd::seq_lib::group_to_multiset_ensures;

/// How a binary is distributed.
#[derive(Debug, Clone, Copy, PartialEq, Eq, Structural)]
pub enum InstallationType {
    /// Released as archives per network, extracted after download.
    Archive,
    /// Released as a single executable per platform.
    Standalone,
}

/// The configuration of one installable binary.
#[derive(Debug)]
pub struct BinaryConfig {
    pub name: String,
    pub description: String,
    pub repository: String,
    pub main_branch: String,
    pub installation_type: InstallationType,
    pub network_based: bool,
    pub supported_networks: Vec<String>,
    pub default_network: String,
    pub supports_debug: bool,
    pub cargo_package: Option<String>,
    pub nightly_toolchain: Option<String>,
    pub shared_repo_binary: bool,
}

/// The mathematical value of a `BinaryConfig`.
pub struct BinaryConfigView {
    pub name: Seq<char>,
    pub description: Seq<char>,
    pub repository: Seq<char>,
    pub main_branch: Seq<char>,
    pub installation_type: InstallationType,
    pub network_based: bool,
    pub supported_networks: Seq<Seq<char>>,
    pub default_network: Seq<char>,
    pub supports_debug: bool,
    pub cargo_package: Option<Seq<char>>,
    pub nightly_toolchain: Option<Seq<char>>,
    pub shared_repo_binary: bool,
}

/// The view of an optional string.
pub open spec fn opt_view(o: Option<String>) -> Option<Seq<char>> {
    match o {
        Some(s) => Some(s@),
        None => None,
    }
}

/// The views of a vector of strings.
pub open spec fn strings_view(v: Seq<String>) -> Seq<Seq<char>> {
    v.map_values(|s: String| s@)
}

impl View for BinaryConfig {
    type V = BinaryConfigView;

    open spec fn view(&self) -> BinaryConfigView {
        BinaryConfigView {
            name: self.name@,
            description: self.description@,
            repository: self.repository@,
            main_branch: self.main_branch@,
            installation_type: self.installation_type,
            network_based: self.network_based,
            supported_networks: strings_view(self.supported_networks@),
            default_network: self.default_network@,
            supports_debug: self.supports_debug,
            cargo_package: opt_view(self.cargo_package),
            nightly_toolchain: opt_view(self.nightly_toolchain),
            shared_repo_binary: self.shared_repo_binary,
        }
    }
}

impl SortKey for BinaryConfig {
    open spec fn key_view(&self) -> Seq<char> {
        self.name@
    }
}

impl Keyed for BinaryConfig {
    fn key(&self) -> (r: &str) {
        self.name.as_str()
    }
}

impl SortKey for BinaryConfigView {
    open spec fn key_view(&self) -> Seq<char> {
        self.name
    }
}

/// A copy of a vector of strings.
pub fn clone_strings(v: &Vec<String>) -> (r: Vec<String>)
    ensures
        r@ == v@,
{
    let mut out: Vec<String> = Vec::new();
    let mut i: usize = 0;
    while i < v.len()
        invariant
            i <= v@.len(),
            out@ == v@.subrange(0, i as int),
        decreases v@.len() - i,
    {
        out.push(v[i].clone());
        assert(out@ =~= v@.subrange(0, i + 1));
        i = i + 1;
    }
    assert(v@.subrange(0, v@.len() as int) =~= v@);
    out
}

/// A copy of an optional string.
pub fn clone_opt(o: &Option<String>) -> (r: Option<String>)
    ensures
        r == *o,
{
    match o {
        Some(s) => Some(s.clone()),
        None => None,
    }
}

impl Clone for BinaryConfig {
    fn clone(&self) -> (r: Self)
        ensures
            r@ == self@,
    {
        BinaryConfig {
            name: self.name.clone(),
            description: self.description.clone(),
            repository: self.repository.clone(),
            main_branch: self.main_branch.clone(),
            installation_type: self.installation_type,
            network_based: self.network_based,
            supported_networks: clone_strings(&self.supported_networks),
            default_network: self.default_network.clone(),
            supports_debug: self.supports_debug,
            cargo_package: clone_opt(&self.cargo_package),
            nightly_toolchain: clone_opt(&self.nightly_toolchain),
            shared_repo_binary: self.shared_repo_binary,
        }
    }
}

/// The default `main_branch` of a configuration: `main`.
pub fn default_main_branch() -> (r: String)
    ensures
        r@ == "main"@,
{
    String::from_str("main")
}

/// The default `default_network` of a configuration: `testnet`.
pub fn default_network() -> (r: String)
    ensures
        r@ == "testnet"@,
{
    String::from_str("testnet")
}

/// `s` consists of white space only (the empty string included).
pub open spec fn is_blank(s: Seq<char>) -> bool {
    forall|i: int| 0 <= i < s.len() ==> is_white_space(#[trigger] s[i])
}

/// An optional string that is present but blank counts as absent.
pub open spec fn normalized_opt(o: Option<Seq<char>>) -> Option<Seq<char>> {
    match o {
        Some(v) => if is_blank(v) {
            None
        } else {
            o
        },
        None => None,
    }
}

/// Turns a present but blank optional string into `None`.
pub fn normalize_optional_string(value: &mut Option<String>)
    ensures
        opt_view(*final(value)) == normalized_opt(opt_view(*old(value))),
{
    let blank = match value {
        Some(v) => {
            let t = trim(v.as_str());
            let b = t.unicode_len() == 0;
            proof {
                let a_b = choose|a: int, b: int|
                    crate::text::trim_bounds(v@, a, b) && t@ == v@.subrange(a, b);
                if b {
                    assert forall|i: int| 0 <= i < v@.len() implies is_white_space(
                        #[trigger] v@[i],
                    ) by {
                        if i >= a_b.0 {
                            assert(i >= a_b.1);
                        }
                    }
                } else if is_blank(v@) {
                    assert(is_white_space(v@[a_b.0]));
                }
            }
            b
        },
        None => false,
    };
    if blank {
        *value = None;
    }
}

/// A configuration with its blank optional strings made absent.
pub open spec fn normalized_config(c: BinaryConfigView) -> BinaryConfigView {
    BinaryConfigView {
        cargo_package: normalized_opt(c.cargo_package),
        nightly_toolchain: normalized_opt(c.nightly_toolchain),
        ..c
    }
}

/// Normalizes the optional strings of a configuration.
pub fn normalize_config(c: &mut BinaryConfig)
    ensures
        final(c)@ == normalized_config(old(c)@),
{
    normalize_optional_string(&mut c.cargo_package);
    normalize_optional_string(&mut c.nightly_toolchain);
}

impl BinaryConfig {
    /// The GitHub address of the repository.
    pub fn repo_url(&self) -> (r: String)
        ensures
            r@ == "https://github.com/"@ + self.repository@,
    {
        let mut s = String::from_str("https://github.com/");
        s.append(self.repository.as_str());
        s
    }
}

// ---------------------------------------------------------------------------
// The registry
// ---------------------------------------------------------------------------

/// The registry built from configurations: normalized and sorted by name.
pub open spec fn registry_of(configs: Seq<BinaryConfigView>) -> Seq<BinaryConfigView> {
    stable_sort(configs.map_values(|c: BinaryConfigView| normalized_config(c)))
}

/// Some configuration in `s` has the name `name`.
pub open spec fn has_name(s: Seq<BinaryConfigView>, name: Seq<char>) -> bool {
    exists|i: int| 0 <= i < s.len() && #[trigger] s[i].name == name
}

/// `i` is the first index in `s` whose configuration has the name `name`.
pub open spec fn is_first_named(s: Seq<BinaryConfigView>, name: Seq<char>, i: int) -> bool {
    0 <= i < s.len() && s[i].name == name && forall|j: int| 0 <= j < i ==> s[j].name != name
}

/// The set of binaries that can be installed, ordered by name.
pub struct BinaryRegistry {
    configs: Vec<BinaryConfig>,
}

impl View for BinaryRegistry {
    type V = Seq<BinaryConfigView>;

    closed spec fn view(&self) -> Seq<BinaryConfigView> {
        self.configs@.map_values(|c: BinaryConfig| c@)
    }
}

impl BinaryRegistry {
    /// The configurations of a registry, in order.
    pub closed spec fn configs(&self) -> Seq<BinaryConfig> {
        self.configs@
    }

    /// The view of a registry is the views of its configurations.
    pub proof fn lemma_view(&self)
        ensures
            self@ == self.configs().map_values(|c: BinaryConfig| c@),
    {
    }

    /// Builds a registry: normalizes each configuration's optional strings and
    /// sorts the configurations by name (stably).
    pub fn from_configs(configs: Vec<BinaryConfig>) -> (r: BinaryRegistry)
        ensures
            r@ == registry_of(configs@.map_values(|c: BinaryConfig| c@)),
    {
        let ghost orig = configs@;
        let mut configs = configs;
        let n = configs.len();
        let mut i: usize = 0;
        while i < n
            invariant
                n == configs@.len(),
                n == orig.len(),
                i <= n,
                forall|j: int| 0 <= j < i ==> #[trigger] configs@[j]@ == normalized_config(orig[j]@),
                forall|j: int| i <= j < n ==> #[trigger] configs@[j] == orig[j],
            decreases n - i,
        {
            let mut c = configs.remove(i);
            normalize_config(&mut c);
            configs.insert(i, c);
            i = i + 1;
        }
        let ghost normalized = configs@;
        let sorted = sort_by_key(configs);
        let r = BinaryRegistry { configs: sorted };
        proof {
            let f = |c: BinaryConfig| c@;
            let g = |c: BinaryConfigView| normalized_config(c);
            assert forall|x: BinaryConfig| #[trigger] f(x).key_view() == x.key_view() by {}
            lemma_stable_sort_map(normalized, f);
            assert(normalized.map_values(f) =~= orig.map_values(f).map_values(g));
        }
        r
    }

    /// The registry of the binaries that `suiup` knows, built from the embedded
    /// configuration documents.
    pub fn global() -> (r: BinaryRegistry)
        ensures
            r@ == registry_of(builtin_config_views()),
    {
        let configs = builtin_configs();
        BinaryRegistry::from_configs(configs)
    }

    /// The first configuration with the given name.
    pub fn get(&self, name: &str) -> (r: Option<&BinaryConfig>)
        ensures
            r is Some <==> has_name(self@, name@),
            r matches Some(c) ==> exists|i: int|
                is_first_named(self@, name@, i) && c@ == #[trigger] self@[i],
    {
        let n = self.configs.len();
        let mut i: usize = 0;
        while i < n
            invariant
                n == self.configs@.len(),
                i <= n,
                forall|j: int| 0 <= j < i ==> self@[j].name != name@,
            decreases n - i,
        {
            if str_eq(self.configs[i].name.as_str(), name) {
                assert(is_first_named(self@, name@, i as int));
                return Some(&self.configs[i]);
            }
            i = i + 1;
        }
        None
    }

    /// All configurations, in order.
    pub fn all(&self) -> (r: &[BinaryConfig])
        ensures
            r@.map_values(|c: BinaryConfig| c@) == self@,
    {
        self.configs.as_slice()
    }

    /// The names of all configurations, in order.
    pub fn all_names(&self) -> (r: Vec<&str>)
        ensures
            r@.map_values(|s: &str| s@) == self@.map_values(|c: BinaryConfigView| c.name),
    {
        let n = self.configs.len();
        let mut out: Vec<&str> = Vec::new();
        let mut i: usize = 0;
        while i < n
            invariant
                n == self.configs@.len(),
                i <= n,
                out@.len() == i,
                forall|j: int| 0 <= j < i ==> #[trigger] out@[j]@ == self@[j].name,
            decreases n - i,
        {
            out.push(self.configs[i].name.as_str());
            i = i + 1;
        }
        assert(out@.map_values(|s: &str| s@) =~= self@.map_values(|c: BinaryConfigView| c.name));
        out
    }

    /// Whether a configuration with the given name exists.
    pub fn contains(&self, name: &str) -> (r: bool)
        ensures
            r == has_name(self@, name@),
    {
        self.get(name).is_some()
    }

    /// Takes the first configuration with the given name out of the registry.
    fn into_config(self, name: &str) -> (r: Option<BinaryConfig>)
        ensures
            r is Some <==> has_name(self@, name@),
            r matches Some(c) ==> exists|i: int|
                is_first_named(self@, name@, i) && c@ == #[trigger] self@[i],
    {
        let ghost v = self@;
        let mut configs = self.configs;
        let n = configs.len();
        let mut i: usize = 0;
        while i < n
            invariant
                n == configs@.len(),
                v == configs@.map_values(|c: BinaryConfig| c@),
                v == self@,
                i <= n,
                forall|j: int| 0 <= j < i ==> v[j].name != name@,
            decreases n - i,
        {
            if str_eq(configs[i].name.as_str(), name) {
                assert(is_first_named(v, name@, i as int));
                assert(v[i as int] == configs@[i as int]@);
                return Some(configs.remove(i));
            }
            i = i + 1;
        }
        None
    }
}

/// Every name of a configuration is a name in the registry built from them,
/// and the other way round.
pub proof fn lemma_registry_names(configs: Seq<BinaryConfigView>, name: Seq<char>)
    ensures
        has_name(registry_of(configs), name) <==> has_name(configs, name),
{
    let normalized = configs.map_values(|c: BinaryConfigView| normalized_config(c));
    let sorted = registry_of(configs);
    lemma_stable_sort_permutation(normalized);
    if has_name(configs, name) {
        let i = choose|i: int| 0 <= i < configs.len() && #[trigger] configs[i].name == name;
        let x = normalized[i];
        assert(normalized.contains(x));
        assert(normalized.to_multiset().count(x) > 0);
        assert(sorted.to_multiset().count(x) > 0);
        assert(sorted.contains(x));
        let k = choose|k: int| 0 <= k < sorted.len() && sorted[k] == x;
        assert(sorted[k].name == name);
    }
    if has_name(sorted, name) {
        let k = choose|k: int| 0 <= k < sorted.len() && #[trigger] sorted[k].name == name;
        let x = sorted[k];
        assert(sorted.contains(x));
        assert(sorted.to_multiset().count(x) > 0);
        assert(normalized.to_multiset().count(x) > 0);
        assert(normalized.contains(x));
        let i = choose|i: int| 0 <= i < normalized.len() && normalized[i] == x;
        assert(configs[i].name == name);
    }
}

/// The registry built from configurations lists them in name order.
pub proof fn lemma_registry_sorted(configs: Seq<BinaryConfigView>)
    ensures
        is_sorted_by_key(registry_of(configs)),
        forall|i: int, j: int|
            0 <= i < j < registry_of(configs).len() ==> lex_le(
                #[trigger] registry_of(configs)[i].name,
                #[trigger] registry_of(configs)[j].name,
            ),
{
    let r = registry_of(configs);
    lemma_stable_sort_sorted(configs.map_values(|c: BinaryConfigView| normalized_config(c)));
    assert forall|i: int, j: int| 0 <= i < j < r.len() implies lex_le(
        #[trigger] r[i].name,
        #[trigger] r[j].name,
    ) by {
        assert(lex_le(r[i].key_view(), r[j].key_view()));
    }
}

// ---------------------------------------------------------------------------
// Binary names
// ---------------------------------------------------------------------------

/// `name` is the name of a binary in the registry.
pub open spec fn is_known_binary(name: Seq<char>) -> bool {
    has_name(builtin_config_views(), name)
}

/// A binary released per network for a list of networks lists its default
/// network among them.
pub open spec fn default_is_supported(c: BinaryConfigView) -> bool {
    c.network_based && c.supported_networks.len() > 0 ==> c.supported_networks.contains(
        c.default_network,
    )
}

/// Every binary of the registry released per network for a list of networks
/// lists its default network among them.
pub proof fn lemma_registry_defaults_supported(i: int)
    requires
        0 <= i < registry_of(builtin_config_views()).len(),
    ensures
        default_is_supported(registry_of(builtin_config_views())[i]),
{
    let v = builtin_config_views();
    let normalized = v.map_values(|c: BinaryConfigView| normalized_config(c));
    let sorted = registry_of(v);
    assert(sorted == stable_sort(normalized));
    lemma_stable_sort_permutation(normalized);
    let x = sorted[i];
    assert(sorted.contains(x));
    assert(sorted.to_multiset().count(x) > 0);
    assert(normalized.to_multiset().count(x) > 0);
    assert(normalized.contains(x));
    let j = choose|j: int| 0 <= j < normalized.len() && normalized[j] == x;
    assert(x.supported_networks == v[j].supported_networks);
    assert(x.default_network == v[j].default_network);
    assert(x.network_based == v[j].network_based);
    assert(v[1].supported_networks[0] == v[1].default_network);
    assert(v[3].supported_networks[0] == v[3].default_network);
    assert(v[4].supported_networks[0] == v[4].default_network);
    assert(v[5].supported_networks[0] == v[5].default_network);
    assert(v[6].supported_networks[0] == v[6].default_network);
    assert(default_is_supported(v[j]));
}

/// The configuration of a binary of the registry is one of the registry's.
pub proof fn lemma_config_of_in_registry(name: Seq<char>)
    requires
        is_known_binary(name),
    ensures
        exists|i: int|
            0 <= i < registry_of(builtin_config_views()).len() && config_of(name)
                == #[trigger] registry_of(builtin_config_views())[i],
{
    let s = registry_of(builtin_config_views());
    lemma_registry_names(builtin_config_views(), name);
    let k = choose|k: int| 0 <= k < s.len() && #[trigger] s[k].name == name;
    assert(exists|i: int| is_first_named(s, name, i)) by {
        lemma_first_named_exists(s, name, k);
    }
    let i = choose|i: int| is_first_named(s, name, i);
    assert(config_of(name) == s[i]);
}

/// A name that occurs in `s` has a first index there.
proof fn lemma_first_named_exists(s: Seq<BinaryConfigView>, name: Seq<char>, k: int)
    requires
        0 <= k < s.len(),
        s[k].name == name,
    ensures
        exists|i: int| is_first_named(s, name, i),
    decreases k,
{
    if exists|j: int| 0 <= j < k && s[j].name == name {
        let j = choose|j: int| 0 <= j < k && s[j].name == name;
        lemma_first_named_exists(s, name, j);
    } else {
        assert(is_first_named(s, name, k));
    }
}

/// A name without `@`, `=` or spaces, which a component specification can
/// carry as it is.
pub open spec fn is_plain_name(name: Seq<char>) -> bool {
    lacks_char(name, '@') && lacks_char(name, '=') && lacks_char(name, ' ')
}

/// The names of the registry are plain.
pub proof fn lemma_known_names_plain(name: Seq<char>)
    requires
        is_known_binary(name),
    ensures
        is_plain_name(name),
{
    let v = builtin_config_views();
    let i = choose|i: int| 0 <= i < v.len() && #[trigger] v[i].name == name;
    reveal_strlit("ledger-signer");
    reveal_strlit("move-analyzer");
    reveal_strlit("mvr");
    reveal_strlit("site-builder");
    reveal_strlit("sui");
    reveal_strlit("sui-node");
    reveal_strlit("walrus");
    reveal_strlit("yubikey-signer");
    assert(is_plain_name(v[i].name));
}

/// The registry's configuration of the binary `name`: the first one of that
/// name.
pub open spec fn config_of(name: Seq<char>) -> BinaryConfigView {
    let s = registry_of(builtin_config_views());
    s[choose|i: int| is_first_named(s, name, i)]
}

/// The first index of a name is unique.
pub proof fn lemma_first_named_unique(s: Seq<BinaryConfigView>, name: Seq<char>, i: int, j: int)
    requires
        is_first_named(s, name, i),
        is_first_named(s, name, j),
    ensures
        i == j,
{
}

/// Why a binary name was refused.
#[derive(Debug)]
pub enum RegistryError {
    /// No binary of that name is in the registry.
    UnknownBinary(String),
}

impl RegistryError {
    /// The message of the error: `Unknown binary: <name>`.
    pub fn message(&self) -> (r: String)
        ensures
            match self {
                RegistryError::UnknownBinary(name) => r@ == "Unknown binary: "@ + name@,
            },
    {
        match self {
            RegistryError::UnknownBinary(name) => {
                let mut s = String::from_str("Unknown binary: ");
                s.append(name.as_str());
                s
            },
        }
    }
}

/// The name of a binary that is in the registry.
#[derive(Debug, Hash)]
pub struct BinaryName(String);

impl View for BinaryName {
    type V = Seq<char>;

    closed spec fn view(&self) -> Seq<char> {
        self.0@
    }
}

impl BinaryName {
    #[verifier::type_invariant]
    closed spec fn known(self) -> bool {
        is_known_binary(self.0@)
    }

    /// Accepts `name` if the registry has a binary of that name.
    pub fn new(name: &str) -> (r: Result<BinaryName, RegistryError>)
        ensures
            r is Ok <==> is_known_binary(name@),
            r matches Ok(b) ==> b@ == name@,
            r matches Err(RegistryError::UnknownBinary(n)) ==> n@ == name@,
    {
        let registry = BinaryRegistry::global();
        proof {
            lemma_registry_names(builtin_config_views(), name@);
        }
        if registry.contains(name) {
            Ok(BinaryName(String::from_str(name)))
        } else {
            Err(RegistryError::UnknownBinary(String::from_str(name)))
        }
    }

    /// The name as a string.
    pub fn as_str(&self) -> (r: &str)
        ensures
            r@ == self@,
            is_known_binary(r@),
    {
        proof {
            use_type_invariant(self);
        }
        self.0.as_str()
    }

    /// The name as a string (the `Display` of the name).
    pub fn to_string(&self) -> (r: String)
        ensures
            r@ == self@,
    {
        self.0.clone()
    }

    /// Parses a binary name, with the error as a message (`FromStr`).
    pub fn from_str(s: &str) -> (r: Result<BinaryName, String>)
        ensures
            r is Ok <==> is_known_binary(s@),
            r matches Ok(b) ==> b@ == s@,
            r matches Err(m) ==> m@ == "Unknown binary: "@ + s@,
    {
        match BinaryName::new(s) {
            Ok(b) => Ok(b),
            Err(e) => Err(e.message()),
        }
    }

    /// The registry's configuration of this binary.
    pub fn config(&self) -> (r: BinaryConfig)
        ensures
            r@ == config_of(self@),
            exists|i: int|
                is_first_named(registry_of(builtin_config_views()), self@, i) && r@
                    == #[trigger] registry_of(builtin_config_views())[i],
    {
        proof {
            use_type_invariant(self);
            lemma_registry_names(builtin_config_views(), self@);
        }
        let registry = BinaryRegistry::global();
        match registry.into_config(self.0.as_str()) {
            Some(c) => {
                proof {
                    let s = registry_of(builtin_config_views());
                    let i = choose|i: int| is_first_named(s, self@, i) && c@ == #[trigger] s[i];
                    let j = choose|j: int| is_first_named(s, self@, j);
                    lemma_first_named_unique(s, self@, i, j);
                }
                c
            },
            None => {
                proof {
                    assert(false);
                }
                builtin_sui_config()
            },
        }
    }

    /// The GitHub address of this binary's repository.
    pub fn repo_url(&self) -> (r: String)
        ensures
            r@ == "https://github.com/"@ + config_of(self@).repository,
            exists|i: int|
                is_first_named(registry_of(builtin_config_views()), self@, i) && r@
                    == "https://github.com/"@ + (#[trigger] registry_of(
                    builtin_config_views(),
                )[i]).repository,
    {
        self.config().repo_url()
    }
}

impl Clone for BinaryName {
    fn clone(&self) -> (r: Self)
        ensures
            r@ == self@,
    {
        proof {
            use_type_invariant(self);
        }
        BinaryName(self.0.clone())
    }
}

impl PartialEq for BinaryName {
    fn eq(&self, other: &Self) -> (r: bool) {
        self.0 == other.0
    }
}

impl vstd::std_specs::cmp::PartialEqSpecImpl for BinaryName {
    open spec fn obeys_eq_spec() -> bool {
        true
    }

    open spec fn eq_spec(&self, other: &BinaryName) -> bool {
        self@ == other@
    }
}

impl Eq for BinaryName {

}

// ---------------------------------------------------------------------------
// The embedded configurations
// ---------------------------------------------------------------------------

/// A vector of strings with the given contents.
pub fn strings(items: &[&str]) -> (r: Vec<String>)
    ensures
        strings_view(r@) == items@.map_values(|s: &str| s@),
{
    let mut out: Vec<String> = Vec::new();
    let mut i: usize = 0;
    while i < items.len()
        invariant
            i <= items@.len(),
            out@.len() == i,
            forall|j: int| 0 <= j < i ==> #[trigger] out@[j]@ == items@[j]@,
        decreases items@.len() - i,
    {
        out.push(String::from_str(items[i]));
        i = i + 1;
    }
    assert(strings_view(out@) =~= items@.map_values(|s: &str| s@));
    out
}

/// The three networks `testnet`, `devnet`, `mainnet`.
fn all_networks() -> (r: Vec<String>)
    ensures
        strings_view(r@) == seq!["testnet"@, "devnet"@, "mainnet"@],
{
    let mut v: Vec<String> = Vec::new();
    v.push(String::from_str("testnet"));
    v.push(String::from_str("devnet"));
    v.push(String::from_str("mainnet"));
    assert(strings_view(v@) =~= seq!["testnet"@, "devnet"@, "mainnet"@]);
    v
}

/// The networks `testnet` and `mainnet`.
fn testnet_and_mainnet() -> (r: Vec<String>)
    ensures
        strings_view(r@) == seq!["testnet"@, "mainnet"@],
{
    let mut v: Vec<String> = Vec::new();
    v.push(String::from_str("testnet"));
    v.push(String::from_str("mainnet"));
    assert(strings_view(v@) =~= seq!["testnet"@, "mainnet"@]);
    v
}

/// The network `mainnet` alone.
fn mainnet_only() -> (r: Vec<String>)
    ensures
        strings_view(r@) == seq!["mainnet"@],
{
    let mut v: Vec<String> = Vec::new();
    v.push(String::from_str("mainnet"));
    assert(strings_view(v@) =~= seq!["mainnet"@]);
    v
}

/// No networks.
fn no_networks() -> (r: Vec<String>)
    ensures
        strings_view(r@) == Seq::<Seq<char>>::empty(),
{
    let v: Vec<String> = Vec::new();
    assert(strings_view(v@) =~= Seq::<Seq<char>>::empty());
    v
}

/// A configuration built from its fields.
fn config(
    name: &str,
    description: &str,
    repository: &str,
    installation_type: InstallationType,
    network_based: bool,
    supported_networks: Vec<String>,
    default_network: &str,
    supports_debug: bool,
    cargo_package: &str,
    nightly_toolchain: &str,
    shared_repo_binary: bool,
) -> (r: BinaryConfig)
    ensures
        r@ == config_view(
            name@,
            description@,
            repository@,
            installation_type,
            network_based,
            strings_view(supported_networks@),
            default_network@,
            supports_debug,
            cargo_package@,
            nightly_toolchain@,
            shared_repo_binary,
        ),
{
    BinaryConfig {
        name: String::from_str(name),
        description: String::from_str(description),
        repository: String::from_str(repository),
        main_branch: default_main_branch(),
        installation_type,
        network_based,
        supported_networks,
        default_network: String::from_str(default_network),
        supports_debug,
        cargo_package: Some(String::from_str(cargo_package)),
        nightly_toolchain: Some(String::from_str(nightly_toolchain)),
        shared_repo_binary,
    }
}

/// The view of a configuration as its document writes it (on the `main`
/// branch; an empty optional string stands for an absent one).
pub open spec fn config_view(
    name: Seq<char>,
    description: Seq<char>,
    repository: Seq<char>,
    installation_type: InstallationType,
    network_based: bool,
    supported_networks: Seq<Seq<char>>,
    default_network: Seq<char>,
    supports_debug: bool,
    cargo_package: Seq<char>,
    nightly_toolchain: Seq<char>,
    shared_repo_binary: bool,
) -> BinaryConfigView {
    BinaryConfigView {
        name,
        description,
        repository,
        main_branch: "main"@,
        installation_type,
        network_based,
        supported_networks,
        default_network,
        supports_debug,
        cargo_package: Some(cargo_package),
        nightly_toolchain: Some(nightly_toolchain),
        shared_repo_binary,
    }
}

/// The embedded configurations, in the order of their documents.
pub open spec fn builtin_config_views() -> Seq<BinaryConfigView> {
    seq![
        config_view(
            "ledger-signer"@,
            "Sui transaction signer backed by a Ledger hardware wallet"@,
            "MystenLabs/rust-signers"@,
            InstallationType::Standalone,
            false,
            seq![],
            "testnet"@,
            false,
            ""@,
            "nightly"@,
            true,
        ),
        config_view(
            "move-analyzer"@,
            "Language server for the Move programming language"@,
            "MystenLabs/sui"@,
            InstallationType::Archive,
            true,
            seq!["testnet"@, "devnet"@, "mainnet"@],
            "testnet"@,
            false,
            ""@,
            ""@,
            false,
        ),
        config_view(
            "mvr"@,
            "Move Registry CLI"@,
            "MystenLabs/mvr"@,
            InstallationType::Standalone,
            false,
            seq![],
            "testnet"@,
            false,
            ""@,
            ""@,
            false,
        ),
        config_view(
            "site-builder"@,
            "Walrus Sites builder"@,
            "MystenLabs/walrus-sites"@,
            InstallationType::Archive,
            true,
            seq!["mainnet"@],
            "mainnet"@,
            false,
            ""@,
            ""@,
            false,
        ),
        config_view(
            "sui"@,
            "Sui command line interface"@,
            "MystenLabs/sui"@,
            InstallationType::Archive,
            true,
            seq!["testnet"@, "devnet"@, "mainnet"@],
            "testnet"@,
            true,
            ""@,
            ""@,
            false,
        ),
        config_view(
            "sui-node"@,
            "Sui full node and validator"@,
            "MystenLabs/sui"@,
            InstallationType::Archive,
            true,
            seq!["testnet"@, "devnet"@, "mainnet"@],
            "testnet"@,
            false,
            ""@,
            ""@,
            false,
        ),
        config_view(
            "walrus"@,
            "Walrus decentralized storage CLI"@,
            "MystenLabs/walrus"@,
            InstallationType::Archive,
            true,
            seq!["testnet"@, "mainnet"@],
            "testnet"@,
            false,
            "walrus-service"@,
            ""@,
            false,
        ),
        config_view(
            "yubikey-signer"@,
            "Sui transaction signer backed by a YubiKey"@,
            "MystenLabs/rust-signers"@,
            InstallationType::Standalone,
            false,
            seq![],
            "testnet"@,
            false,
            ""@,
            "nightly"@,
            true,
        ),
    ]
}

/// The configuration of `sui`.
fn builtin_sui_config() -> (r: BinaryConfig)
    ensures
        r@ == builtin_config_views()[4],
{
    config(
        "sui",
        "Sui command line interface",
        "MystenLabs/sui",
        InstallationType::Archive,
        true,
        all_networks(),
        "testnet",
        true,
        "",
        "",
        false,
    )
}

/// The embedded configurations, in the order of their documents.
pub fn builtin_configs() -> (r: Vec<BinaryConfig>)
    ensures
        r@.map_values(|c: BinaryConfig| c@) == builtin_config_views(),
{
    let mut v: Vec<BinaryConfig> = Vec::new();
    v.push(
        config(
            "ledger-signer",
            "Sui transaction signer backed by a Ledger hardware wallet",
            "MystenLabs/rust-signers",
            InstallationType::Standalone,
            false,
            no_networks(),
            "testnet",
            false,
            "",
            "nightly",
            true,
        ),
    );
    v.push(
        config(
            "move-analyzer",
            "Language server for the Move programming language",
            "MystenLabs/sui",
            InstallationType::Archive,
            true,
            all_networks(),
            "testnet",
            false,
            "",
            "",
            false,
        ),
    );
    v.push(
        config(
            "mvr",
            "Move Registry CLI",
            "MystenLabs/mvr",
            InstallationType::Standalone,
            false,
            no_networks(),
            "testnet",
            false,
            "",
            "",
            false,
        ),
    );
    v.push(
        config(
            "site-builder",
            "Walrus Sites builder",
            "MystenLabs/walrus-sites",
            InstallationType::Archive,
            true,
            mainnet_only(),
            "mainnet",
            false,
            "",
            "",
            false,
        ),
    );
    v.push(builtin_sui_config());
    v.push(
        config(
            "sui-node",
            "Sui full node and validator",
            "MystenLabs/sui",
            InstallationType::Archive,
            true,
            all_networks(),
            "testnet",
            false,
            "",
            "",
            false,
        ),
    );
    v.push(
        config(
            "walrus",
            "Walrus decentralized storage CLI",
            "MystenLabs/walrus",
            InstallationType::Archive,
            true,
            testnet_and_mainnet(),
            "testnet",
            false,
            "walrus-service",
            "",
            false,
        ),
    );
    v.push(
        config(
            "yubikey-signer",
            "Sui transaction signer backed by a YubiKey",
            "MystenLabs/rust-signers",
            InstallationType::Standalone,
            false,
            no_networks(),
            "testnet",
            false,
            "",
            "nightly",
            true,
        ),
    );
    assert(v@.map_values(|c: BinaryConfig| c@) =~= builtin_config_views());
    v
}

} // verus!

verus! {

// ---------------------------------------------------------------------------
// The configuration documents
// ---------------------------------------------------------------------------

/// The configuration document of `ledger-signer`.
pub const LEDGER_SIGNER_TOML: &'static str = "name = \"ledger-signer\"\ndescription = \"Sui transaction signer backed by a Ledger hardware wallet\"\nrepository = \"MystenLabs/rust-signers\"\nmain_branch = \"main\"\ninstallation_type = \"standalone\"\nnetwork_based = false\nsupported_networks = []\ndefault_network = \"testnet\"\nsupports_debug = false\ncargo_package = \"\"\nnightly_toolchain = \"nightly\"\nshared_repo_binary = true\n";

/// The configuration document of `move-analyzer`.
pub const MOVE_ANALYZER_TOML: &'static str = "name = \"move-analyzer\"\ndescription = \"Language server for the Move programming language\"\nrepository = \"MystenLabs/sui\"\nmain_branch = \"main\"\ninstallation_type = \"archive\"\nnetwork_based = true\nsupported_networks = [\"testnet\", \"devnet\", \"mainnet\"]\ndefault_network = \"testnet\"\nsupports_debug = false\ncargo_package = \"\"\nnightly_toolchain = \"\"\nshared_repo_binary = false\n";

/// The configuration document of `mvr`.
pub const MVR_TOML: &'static str = "name = \"mvr\"\ndescription = \"Move Registry CLI\"\nrepository = \"MystenLabs/mvr\"\nmain_branch = \"main\"\ninstallation_type = \"standalone\"\nnetwork_based = false\nsupported_networks = []\ndefault_network = \"testnet\"\nsupports_debug = false\ncargo_package = \"\"\nnightly_toolchain = \"\"\nshared_repo_binary = false\n";

/// The configuration document of `site-builder`.
pub const SITE_BUILDER_TOML: &'static str = "name = \"site-builder\"\ndescription = \"Walrus Sites builder\"\nrepository = \"MystenLabs/walrus-sites\"\nmain_branch = \"main\"\ninstallation_type = \"archive\"\nnetwork_based = true\nsupported_networks = [\"mainnet\"]\ndefault_network = \"mainnet\"\nsupports_debug = false\ncargo_package = \"\"\nnightly_toolchain = \"\"\nshared_repo_binary = false\n";

/// The configuration document of `sui`.
pub const SUI_TOML: &'static str = "name = \"sui\"\ndescription = \"Sui command line interface\"\nrepository = \"MystenLabs/sui\"\nmain_branch = \"main\"\ninstallation_type = \"archive\"\nnetwork_based = true\nsupported_networks = [\"testnet\", \"devnet\", \"mainnet\"]\ndefault_network = \"testnet\"\nsupports_debug = true\ncargo_package = \"\"\nnightly_toolchain = \"\"\nshared_repo_binary = false\n";

/// The configuration document of `sui-node`.
pub const SUI_NODE_TOML: &'static str = "name = \"sui-node\"\ndescription = \"Sui full node and validator\"\nrepository = \"MystenLabs/sui\"\nmain_branch = \"main\"\ninstallation_type = \"archive\"\nnetwork_based = true\nsupported_networks = [\"testnet\", \"devnet\", \"mainnet\"]\ndefault_network = \"testnet\"\nsupports_debug = false\ncargo_package = \"\"\nnightly_toolchain = \"\"\nshared_repo_binary = false\n";

/// The configuration document of `walrus`.
pub const WALRUS_TOML: &'static str = "name = \"walrus\"\ndescription = \"Walrus decentralized storage CLI\"\nrepository = \"MystenLabs/walrus\"\nmain_branch = \"main\"\ninstallation_type = \"archive\"\nnetwork_based = true\nsupported_networks = [\"testnet\", \"mainnet\"]\ndefault_network = \"testnet\"\nsupports_debug = false\ncargo_package = \"walrus-service\"\nnightly_toolchain = \"\"\nshared_repo_binary = false\n";

/// The configuration document of `yubikey-signer`.
pub const YUBIKEY_SIGNER_TOML: &'static str = "name = \"yubikey-signer\"\ndescription = \"Sui transaction signer backed by a YubiKey\"\nrepository = \"MystenLabs/rust-signers\"\nmain_branch = \"main\"\ninstallation_type = \"standalone\"\nnetwork_based = false\nsupported_networks = []\ndefault_network = \"testnet\"\nsupports_debug = false\ncargo_package = \"\"\nnightly_toolchain = \"nightly\"\nshared_repo_binary = true\n";

/// The configuration documents, one per binary, in file-name order.
pub open spec fn config_documents() -> Seq<Seq<char>> {
    seq![LEDGER_SIGNER_TOML@, MOVE_ANALYZER_TOML@, MVR_TOML@, SITE_BUILDER_TOML@, SUI_TOML@, SUI_NODE_TOML@, WALRUS_TOML@, YUBIKEY_SIGNER_TOML@]
}

/// The configuration documents, one per binary, in file-name order.
pub fn binary_config_documents() -> (r: Vec<&'static str>)
    ensures
        r@.map_values(|s: &str| s@) == config_documents(),
{
    let mut v: Vec<&'static str> = Vec::new();
    v.push(LEDGER_SIGNER_TOML);
    v.push(MOVE_ANALYZER_TOML);
    v.push(MVR_TOML);
    v.push(SITE_BUILDER_TOML);
    v.push(SUI_TOML);
    v.push(SUI_NODE_TOML);
    v.push(WALRUS_TOML);
    v.push(YUBIKEY_SIGNER_TOML);
    assert(v@.map_values(|s: &str| s@) =~= config_documents());
    v
}

} // verus!
