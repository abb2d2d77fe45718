//! The records `suiup` keeps: networks, installed binary versions, the list
//! of installed binaries, releases and their assets, and the default version
//! of each binary.

use vstd::prelude::*;

use crate::registry::{clone_opt, opt_view};
use crate::sort::{Keyed, SortKey};
use crate::text::{lex_lt, str_eq, str_less, lemma_lex_irreflexive, lemma_lex_total, lemma_lex_transitive, lemma_lex_asymmetric};

verus! {

// ---------------------------------------------------------------------------
// Networks
// ---------------------------------------------------------------------------

/// A Sui network.
#[derive(Debug, Clone, Copy, PartialEq, Eq, PartialOrd, Ord, Hash, Structural)]
pub enum Network {
    Testnet,
    Devnet,
    Mainnet,
}

/// Why a network name was refused.
#[derive(Debug, Clone, Copy, PartialEq, Eq, Structural)]
pub enum NetworkError {
    /// The name is not `testnet`, `devnet` or `mainnet`.
    InvalidNetwork,
}

/// The name of a network.
pub open spec fn network_name(n: Network) -> Seq<char> {
    match n {
        Network::Testnet => "testnet"@,
        Network::Devnet => "devnet"@,
        Network::Mainnet => "mainnet"@,
    }
}

impl Network {
    /// Parses `testnet`, `devnet` or `mainnet` (`FromStr`).
    pub fn from_str(s: &str) -> (r: Result<Network, NetworkError>)
        ensures
            r matches Ok(n) ==> network_name(n) == s@,
            r is Err ==> s@ != "testnet"@ && s@ != "devnet"@ && s@ != "mainnet"@,
    {
        if str_eq(s, "testnet") {
            Ok(Network::Testnet)
        } else if str_eq(s, "devnet") {
            Ok(Network::Devnet)
        } else if str_eq(s, "mainnet") {
            Ok(Network::Mainnet)
        } else {
            Err(NetworkError::InvalidNetwork)
        }
    }

    /// The name of the network (its `Display`).
    pub fn as_str(&self) -> (r: &'static str)
        ensures
            r@ == network_name(*self),
    {
        match self {
            Network::Testnet => "testnet",
            Network::Devnet => "devnet",
            Network::Mainnet => "mainnet",
        }
    }
}

impl NetworkError {
    /// The message of the error.
    pub fn message(&self) -> (r: &'static str)
        ensures
            r@ == "Invalid network"@,
    {
        "Invalid network"
    }
}

// ---------------------------------------------------------------------------
// Binary versions
// ---------------------------------------------------------------------------

/// One installed binary: its name, the network release or branch it comes
/// from, its version, whether it is a debug build, and where it lies.
#[derive(Debug)]
pub struct BinaryVersion {
    /// The name of the Sui tool binary
    pub binary_name: String,
    /// The network release of the binary
    pub network_release: String,
    /// The version of the binary in the corresponding release
    pub version: String,
    /// Debug build of the binary
    pub debug: bool,
    /// Path to the binary
    pub path: Option<String>,
}

/// The mathematical value of a `BinaryVersion`.
pub struct BinaryVersionView {
    pub binary_name: Seq<char>,
    pub network_release: Seq<char>,
    pub version: Seq<char>,
    pub debug: bool,
    pub path: Option<Seq<char>>,
}

impl View for BinaryVersion {
    type V = BinaryVersionView;

    open spec fn view(&self) -> BinaryVersionView {
        BinaryVersionView {
            binary_name: self.binary_name@,
            network_release: self.network_release@,
            version: self.version@,
            debug: self.debug,
            path: opt_view(self.path),
        }
    }
}

impl SortKey for BinaryVersion {
    open spec fn key_view(&self) -> Seq<char> {
        self.binary_name@
    }
}

impl Keyed for BinaryVersion {
    fn key(&self) -> (r: &str) {
        self.binary_name.as_str()
    }
}

impl SortKey for BinaryVersionView {
    open spec fn key_view(&self) -> Seq<char> {
        self.binary_name
    }
}

/// The views of a sequence of binary versions.
pub open spec fn versions_view(s: Seq<BinaryVersion>) -> Seq<BinaryVersionView> {
    s.map_values(|b: BinaryVersion| b@)
}

impl Clone for BinaryVersion {
    fn clone(&self) -> (r: Self)
        ensures
            r@ == self@,
    {
        BinaryVersion {
            binary_name: self.binary_name.clone(),
            network_release: self.network_release.clone(),
            version: self.version.clone(),
            debug: self.debug,
            path: clone_opt(&self.path),
        }
    }
}

/// Whether two optional strings are equal.
pub fn opt_str_eq(a: &Option<String>, b: &Option<String>) -> (r: bool)
    ensures
        r == (opt_view(*a) == opt_view(*b)),
{
    match (a, b) {
        (Some(x), Some(y)) => str_eq(x.as_str(), y.as_str()),
        (None, None) => true,
        _ => false,
    }
}

impl BinaryVersion {
    /// Whether two records are equal in every field.
    pub fn same_as(&self, other: &BinaryVersion) -> (r: bool)
        ensures
            r == (self@ == other@),
    {
        str_eq(self.binary_name.as_str(), other.binary_name.as_str()) && str_eq(
            self.network_release.as_str(),
            other.network_release.as_str(),
        ) && str_eq(self.version.as_str(), other.version.as_str()) && self.debug == other.debug
            && opt_str_eq(&self.path, &other.path)
    }

    /// `name-version`, followed by ` (debug build)` for a debug build (the
    /// `Display` of the record).
    pub fn to_string(&self) -> (r: String)
        ensures
            r@ == self.binary_name@ + "-"@ + self.version@ + (if self.debug {
                " (debug build)"@
            } else {
                ""@
            }),
    {
        let mut s = self.binary_name.clone();
        s.append("-");
        s.append(self.version.as_str());
        if self.debug {
            s.append(" (debug build)");
        } else {
            proof {
                reveal_strlit("");
            }
            assert(s@ + ""@ =~= s@);
        }
        s
    }
}

impl PartialEq for BinaryVersion {
    fn eq(&self, other: &Self) -> (r: bool) {
        self.same_as(other)
    }
}

impl vstd::std_specs::cmp::PartialEqSpecImpl for BinaryVersion {
    open spec fn obeys_eq_spec() -> bool {
        true
    }

    open spec fn eq_spec(&self, other: &BinaryVersion) -> bool {
        self@ == other@
    }
}

/// A copy of a sequence of records.
pub fn clone_versions(v: &[BinaryVersion]) -> (r: Vec<BinaryVersion>)
    ensures
        versions_view(r@) == versions_view(v@),
{
    let mut out: Vec<BinaryVersion> = Vec::new();
    let mut i: usize = 0;
    while i < v.len()
        invariant
            i <= v@.len(),
            out@.len() == i,
            forall|j: int| 0 <= j < i ==> #[trigger] out@[j]@ == v@[j]@,
        decreases v@.len() - i,
    {
        out.push(v[i].clone());
        i = i + 1;
    }
    assert(versions_view(out@) =~= versions_view(v@));
    out
}

// ---------------------------------------------------------------------------
// Installed binaries
// ---------------------------------------------------------------------------

/// `s` with `b` appended, unless an equal record is already there.
pub open spec fn with_binary(s: Seq<BinaryVersionView>, b: BinaryVersionView) -> Seq<BinaryVersionView> {
    if s.contains(b) {
        s
    } else {
        s.push(b)
    }
}

/// `s` without the records of the binary `name`, the others in order.
pub open spec fn without_binary(s: Seq<BinaryVersionView>, name: Seq<char>) -> Seq<BinaryVersionView>
    decreases s.len(),
{
    if s.len() == 0 {
        s
    } else if s.last().binary_name == name {
        without_binary(s.drop_last(), name)
    } else {
        without_binary(s.drop_last(), name).push(s.last())
    }
}

/// The list of installed binaries.
#[derive(Debug)]
pub struct InstalledBinaries {
    binaries: Vec<BinaryVersion>,
}

impl View for InstalledBinaries {
    type V = Seq<BinaryVersionView>;

    closed spec fn view(&self) -> Seq<BinaryVersionView> {
        versions_view(self.binaries@)
    }
}

impl InstalledBinaries {
    /// An empty list (the content of a freshly created file).
    pub fn empty() -> (r: InstalledBinaries)
        ensures
            r@ == Seq::<BinaryVersionView>::empty(),
    {
        let r = InstalledBinaries { binaries: Vec::new() };
        assert(r@ =~= Seq::<BinaryVersionView>::empty());
        r
    }

    /// The list holding the given records, as read from the file.
    pub fn from_binaries(binaries: Vec<BinaryVersion>) -> (r: InstalledBinaries)
        ensures
            r@ == versions_view(binaries@),
    {
        InstalledBinaries { binaries }
    }

    /// The records, to be written to the file.
    pub fn into_binaries(self) -> (r: Vec<BinaryVersion>)
        ensures
            versions_view(r@) == self@,
    {
        self.binaries
    }

    /// Adds a record unless an equal one is already listed.
    pub fn add_binary(&mut self, binary: BinaryVersion)
        ensures
            final(self)@ == with_binary(old(self)@, binary@),
    {
        let ghost v = self@;
        let n = self.binaries.len();
        let mut i: usize = 0;
        while i < n
            invariant
                n == self.binaries@.len(),
                v == self@,
                v == versions_view(self.binaries@),
                i <= n,
                forall|j: int| 0 <= j < i ==> v[j] != binary@,
            decreases n - i,
        {
            if self.binaries[i].same_as(&binary) {
                assert(v[i as int] == binary@);
                assert(v.contains(binary@));
                return;
            }
            i = i + 1;
        }
        assert(!v.contains(binary@));
        self.binaries.push(binary);
        assert(self@ =~= v.push(binary@));
    }

    /// Removes every record of the binary `binary`.
    pub fn remove_binary(&mut self, binary: &str)
        ensures
            final(self)@ == without_binary(old(self)@, binary@),
    {
        let ghost v = self@;
        let n = self.binaries.len();
        let mut kept: Vec<BinaryVersion> = Vec::new();
        let mut rest: Vec<BinaryVersion> = Vec::new();
        std::mem::swap(&mut rest, &mut self.binaries);
        assert(versions_view(rest@) == v);
        assert(v.subrange(0, n as int) =~= v);
        let mut i: usize = 0;
        assert(v.subrange(0, 0) =~= Seq::<BinaryVersionView>::empty());
        assert(versions_view(kept@) =~= Seq::<BinaryVersionView>::empty());
        while i < n
            invariant
                n == v.len(),
                i <= n,
                rest@.len() == n - i,
                versions_view(rest@) == v.subrange(i as int, n as int),
                versions_view(kept@) == without_binary(v.subrange(0, i as int), binary@),
            decreases n - i,
        {
            let ghost old_rest = rest@;
            let b = rest.remove(0);
            assert(versions_view(old_rest)[0] == old_rest[0]@);
            assert(b@ == v[i as int]);
            assert forall|j: int| 0 <= j < rest@.len() implies #[trigger] versions_view(rest@)[j]
                == v.subrange(i + 1, n as int)[j] by {
                assert(rest@[j] == old_rest[j + 1]);
                assert(versions_view(old_rest)[j + 1] == old_rest[j + 1]@);
            }
            assert(versions_view(rest@) =~= v.subrange(i + 1, n as int));
            assert(v.subrange(0, i + 1).drop_last() =~= v.subrange(0, i as int));
            if !str_eq(b.binary_name.as_str(), binary) {
                let ghost before = versions_view(kept@);
                kept.push(b);
                assert(versions_view(kept@) =~= before.push(v[i as int]));
            }
            i = i + 1;
        }
        assert(v.subrange(0, n as int) =~= v);
        self.binaries = kept;
    }

    /// The listed records.
    pub fn binaries(&self) -> (r: &[BinaryVersion])
        ensures
            versions_view(r@) == self@,
    {
        self.binaries.as_slice()
    }
}

/// Adding a record twice is adding it once.
pub proof fn lemma_add_binary_idempotent(s: Seq<BinaryVersionView>, b: BinaryVersionView)
    ensures
        with_binary(with_binary(s, b), b) == with_binary(s, b),
        with_binary(s, b).contains(b),
{
    if !s.contains(b) {
        assert(s.push(b)[s.len() as int] == b);
    }
}

/// After removing a binary no record of it is left, and every other record
/// stays.
pub proof fn lemma_remove_binary(s: Seq<BinaryVersionView>, name: Seq<char>)
    ensures
        forall|i: int|
            0 <= i < without_binary(s, name).len() ==> #[trigger] without_binary(
                s,
                name,
            )[i].binary_name != name,
        forall|x: BinaryVersionView|
            x.binary_name != name ==> (#[trigger] without_binary(s, name).contains(x)
                <==> s.contains(x)),
    decreases s.len(),
{
    if s.len() > 0 {
        let d = s.drop_last();
        lemma_remove_binary(d, name);
        let r = without_binary(s, name);
        let rd = without_binary(d, name);
        assert forall|x: BinaryVersionView| x.binary_name != name implies (r.contains(x)
            <==> s.contains(x)) by {
            if s.contains(x) {
                let k = choose|k: int| 0 <= k < s.len() && s[k] == x;
                if k < d.len() {
                    assert(d[k] == x);
                    assert(rd.contains(x));
                    let m = choose|m: int| 0 <= m < rd.len() && rd[m] == x;
                    if s.last().binary_name != name {
                        assert(r[m] == x);
                    }
                } else {
                    assert(r[r.len() - 1] == x);
                }
            }
            if r.contains(x) {
                let m = choose|m: int| 0 <= m < r.len() && r[m] == x;
                if s.last().binary_name != name && m == r.len() - 1 {
                    assert(s[s.len() - 1] == x);
                } else {
                    assert(rd[m] == x);
                    assert(rd.contains(x));
                    let k = choose|k: int| 0 <= k < d.len() && d[k] == x;
                    assert(s[k] == x);
                }
            }
        }
    }
}

/// Removing a binary after adding one of its records leaves no record of it.
pub proof fn lemma_add_then_remove(s: Seq<BinaryVersionView>, b: BinaryVersionView)
    ensures
        forall|x: BinaryVersionView| #[trigger]
            without_binary(with_binary(s, b), b.binary_name).contains(x) ==> x.binary_name
                != b.binary_name,
{
    lemma_remove_binary(with_binary(s, b), b.binary_name);
    assert forall|x: BinaryVersionView| #[trigger]
        without_binary(with_binary(s, b), b.binary_name).contains(x) implies x.binary_name
        != b.binary_name by {
        let r = without_binary(with_binary(s, b), b.binary_name);
        let m = choose|m: int| 0 <= m < r.len() && r[m] == x;
    }
}

// ---------------------------------------------------------------------------
// Grouping by network
// ---------------------------------------------------------------------------

/// The records of `s` from the network release `net`, in order.
pub open spec fn on_network(s: Seq<BinaryVersionView>, net: Seq<char>) -> Seq<BinaryVersionView>
    decreases s.len(),
{
    if s.len() == 0 {
        s
    } else if s.last().network_release == net {
        on_network(s.drop_last(), net).push(s.last())
    } else {
        on_network(s.drop_last(), net)
    }
}

/// The networks of the groups increase strictly.
pub open spec fn keys_increasing(groups: Seq<(Seq<char>, Seq<BinaryVersionView>)>) -> bool {
    forall|i: int, j: int|
        #![trigger groups[i], groups[j]]
        0 <= i < j < groups.len() ==> lex_lt(groups[i].0, groups[j].0)
}

/// Each group holds the records of `s` from its network, in order.
pub open spec fn groups_hold(
    groups: Seq<(Seq<char>, Seq<BinaryVersionView>)>,
    s: Seq<BinaryVersionView>,
) -> bool {
    forall|i: int| 0 <= i < groups.len() ==> #[trigger] groups[i].1 == on_network(s, groups[i].0)
}

/// Each group's network is the network of some record of `s`.
#[verifier::opaque]
pub open spec fn keys_from(
    groups: Seq<(Seq<char>, Seq<BinaryVersionView>)>,
    s: Seq<BinaryVersionView>,
) -> bool {
    forall|i: int|
        #![trigger groups[i]]
        0 <= i < groups.len() ==> exists|k: int|
            0 <= k < s.len() && #[trigger] s[k].network_release == groups[i].0
}

/// Each record's network has a group.
#[verifier::opaque]
pub open spec fn keys_cover(
    groups: Seq<(Seq<char>, Seq<BinaryVersionView>)>,
    s: Seq<BinaryVersionView>,
) -> bool {
    forall|k: int|
        #![trigger s[k]]
        0 <= k < s.len() ==> exists|i: int|
            0 <= i < groups.len() && #[trigger] groups[i].0 == s[k].network_release
}

/// `groups` lists each network release of `s` once, in increasing order, with
/// the records of `s` from it in their order: what a `BTreeMap` from network to
/// records holds.
pub open spec fn is_grouping_of(
    groups: Seq<(Seq<char>, Seq<BinaryVersionView>)>,
    s: Seq<BinaryVersionView>,
) -> bool {
    &&& keys_increasing(groups)
    &&& groups_hold(groups, s)
    &&& keys_from(groups, s)
    &&& keys_cover(groups, s)
}

/// The views of groups of records.
pub open spec fn groups_view(g: Seq<(String, Vec<BinaryVersion>)>) -> Seq<(Seq<char>, Seq<BinaryVersionView>)> {
    g.map_values(|e: (String, Vec<BinaryVersion>)| (e.0@, versions_view(e.1@)))
}

proof fn lemma_on_network_absent(s: Seq<BinaryVersionView>, net: Seq<char>)
    requires
        forall|k: int| 0 <= k < s.len() ==> #[trigger] s[k].network_release != net,
    ensures
        on_network(s, net) == Seq::<BinaryVersionView>::empty(),
    decreases s.len(),
{
    if s.len() > 0 {
        lemma_on_network_absent(s.drop_last(), net);
    }
}

proof fn lemma_grouping_push_existing(
    g: Seq<(Seq<char>, Seq<BinaryVersionView>)>,
    prefix: Seq<BinaryVersionView>,
    b: BinaryVersionView,
    p: int,
)
    requires
        is_grouping_of(g, prefix),
        0 <= p < g.len(),
        g[p].0 == b.network_release,
    ensures
        is_grouping_of(g.update(p, (g[p].0, g[p].1.push(b))), prefix.push(b)),
{
    let next = prefix.push(b);
    let g2 = g.update(p, (g[p].0, g[p].1.push(b)));
    assert(next.drop_last() =~= prefix);
    assert(keys_increasing(g2)) by {
        assert forall|i: int, j: int| #![trigger g2[i], g2[j]] 0 <= i < j < g2.len() implies lex_lt(
            g2[i].0,
            g2[j].0,
        ) by {
            assert(g2[i].0 == g[i].0 && g2[j].0 == g[j].0);
            assert(lex_lt(g[i].0, g[j].0));
        }
    }
    assert(groups_hold(g2, next)) by {
        assert forall|j: int| 0 <= j < g2.len() implies #[trigger] g2[j].1 == on_network(
            next,
            g2[j].0,
        ) by {
            assert(g2[j].0 == g[j].0);
            assert(g[j].1 == on_network(prefix, g[j].0));
            if j != p {
                assert(g[j].0 != g[p].0) by {
                    if j < p {
                        assert(lex_lt(g[j].0, g[p].0));
                    } else {
                        assert(lex_lt(g[p].0, g[j].0));
                    }
                    lemma_lex_irreflexive(g[p].0);
                }
            }
        }
    }
    assert(keys_from(g2, next)) by {
        reveal(keys_from);
        assert forall|j: int| #![trigger g2[j]] 0 <= j < g2.len() implies exists|k: int|
            0 <= k < next.len() && #[trigger] next[k].network_release == g2[j].0 by {
            assert(g2[j].0 == g[j].0);
            let k = choose|k: int|
                0 <= k < prefix.len() && #[trigger] prefix[k].network_release == g[j].0;
            assert(next[k] == prefix[k]);
        }
    }
    assert(keys_cover(g2, next)) by {
        reveal(keys_cover);
        assert forall|k: int| #![trigger next[k]] 0 <= k < next.len() implies exists|j: int|
            0 <= j < g2.len() && #[trigger] g2[j].0 == next[k].network_release by {
            if k < prefix.len() {
                assert(next[k] == prefix[k]);
                let j = choose|j: int|
                    0 <= j < g.len() && #[trigger] g[j].0 == prefix[k].network_release;
                assert(g2[j].0 == g[j].0);
            } else {
                assert(g2[p].0 == next[k].network_release);
            }
        }
    }
}

proof fn lemma_grouping_insert_new(
    g: Seq<(Seq<char>, Seq<BinaryVersionView>)>,
    prefix: Seq<BinaryVersionView>,
    b: BinaryVersionView,
    p: int,
)
    requires
        is_grouping_of(g, prefix),
        0 <= p <= g.len(),
        forall|j: int| 0 <= j < p ==> lex_lt(#[trigger] g[j].0, b.network_release),
        p < g.len() ==> !lex_lt(g[p].0, b.network_release) && g[p].0 != b.network_release,
    ensures
        is_grouping_of(g.insert(p, (b.network_release, seq![b])), prefix.push(b)),
{
    let next = prefix.push(b);
    let kv = b.network_release;
    let g2 = g.insert(p, (kv, seq![b]));
    assert(next.drop_last() =~= prefix);
    if p < g.len() {
        lemma_lex_total(g[p].0, kv);
    }
    assert forall|j: int| 0 <= j < g.len() implies #[trigger] g[j].0 != kv by {
        if j < p {
            lemma_lex_irreflexive(kv);
        } else if j > p {
            assert(lex_lt(g[p].0, g[j].0));
            lemma_lex_transitive(kv, g[p].0, g[j].0);
            lemma_lex_irreflexive(kv);
        }
    }
    assert(forall|k: int| 0 <= k < prefix.len() ==> #[trigger] prefix[k].network_release != kv)
        by {
        reveal(keys_cover);
        assert forall|k: int| 0 <= k < prefix.len() implies #[trigger] prefix[k].network_release
            != kv by {
            let j = choose|j: int|
                0 <= j < g.len() && #[trigger] g[j].0 == prefix[k].network_release;
            assert(g[j].0 != kv);
        }
    }
    lemma_on_network_absent(prefix, kv);
    assert(on_network(next, kv) =~= seq![b]);
    assert(keys_increasing(g2)) by {
        assert forall|a: int, c: int| #![trigger g2[a], g2[c]] 0 <= a < c < g2.len() implies lex_lt(
            g2[a].0,
            g2[c].0,
        ) by {
            if c == p {
                assert(g2[a] == g[a]);
            } else if a == p {
                assert(g2[c] == g[c - 1]);
                if c - 1 > p {
                    assert(lex_lt(g[p].0, g[c - 1].0));
                    lemma_lex_transitive(kv, g[p].0, g[c - 1].0);
                }
            } else if a < p && c > p {
                assert(g2[a] == g[a]);
                assert(g2[c] == g[c - 1]);
                if c - 1 > p {
                    assert(lex_lt(g[p].0, g[c - 1].0));
                    lemma_lex_transitive(kv, g[p].0, g[c - 1].0);
                }
                lemma_lex_transitive(g[a].0, kv, g[c - 1].0);
            } else if a > p {
                assert(g2[a] == g[a - 1]);
                assert(g2[c] == g[c - 1]);
                assert(lex_lt(g[a - 1].0, g[c - 1].0));
            } else {
                assert(g2[a] == g[a]);
                assert(g2[c] == g[c]);
                assert(lex_lt(g[a].0, g[c].0));
            }
        }
    }
    assert(groups_hold(g2, next)) by {
        assert forall|j: int| 0 <= j < g2.len() implies #[trigger] g2[j].1 == on_network(
            next,
            g2[j].0,
        ) by {
            if j < p {
                assert(g2[j] == g[j]);
                assert(g[j].1 == on_network(prefix, g[j].0));
            } else if j > p {
                assert(g2[j] == g[j - 1]);
                assert(g[j - 1].1 == on_network(prefix, g[j - 1].0));
            }
        }
    }
    assert(keys_from(g2, next)) by {
        reveal(keys_from);
        assert forall|j: int| #![trigger g2[j]] 0 <= j < g2.len() implies exists|k: int|
            0 <= k < next.len() && #[trigger] next[k].network_release == g2[j].0 by {
            if j == p {
                assert(next[prefix.len() as int].network_release == kv);
            } else {
                let jj = if j < p {
                    j
                } else {
                    j - 1
                };
                assert(g2[j] == g[jj]);
                let k = choose|k: int|
                    0 <= k < prefix.len() && #[trigger] prefix[k].network_release == g[jj].0;
                assert(next[k] == prefix[k]);
            }
        }
    }
    assert(keys_cover(g2, next)) by {
        reveal(keys_cover);
        assert forall|k: int| #![trigger next[k]] 0 <= k < next.len() implies exists|j: int|
            0 <= j < g2.len() && #[trigger] g2[j].0 == next[k].network_release by {
            if k < prefix.len() {
                assert(next[k] == prefix[k]);
                let j = choose|j: int|
                    0 <= j < g.len() && #[trigger] g[j].0 == prefix[k].network_release;
                if j < p {
                    assert(g2[j] == g[j]);
                } else {
                    assert(g2[j + 1] == g[j]);
                }
            } else {
                assert(g2[p].0 == next[k].network_release);
            }
        }
    }
}

/// A network of one grouping of records is a network of any other.
proof fn lemma_key_in_other(
    g1: Seq<(Seq<char>, Seq<BinaryVersionView>)>,
    g2: Seq<(Seq<char>, Seq<BinaryVersionView>)>,
    s: Seq<BinaryVersionView>,
    k: int,
) -> (j: int)
    requires
        keys_from(g1, s),
        keys_cover(g2, s),
        0 <= k < g1.len(),
    ensures
        0 <= j < g2.len(),
        g2[j].0 == g1[k].0,
{
    reveal(keys_from);
    reveal(keys_cover);
    let m = choose|m: int| 0 <= m < s.len() && #[trigger] s[m].network_release == g1[k].0;
    choose|j: int| 0 <= j < g2.len() && #[trigger] g2[j].0 == s[m].network_release
}

/// The networks of two groupings of the same records agree up to index `i`.
proof fn lemma_grouping_keys_agree(
    g1: Seq<(Seq<char>, Seq<BinaryVersionView>)>,
    g2: Seq<(Seq<char>, Seq<BinaryVersionView>)>,
    s: Seq<BinaryVersionView>,
    i: int,
)
    requires
        keys_increasing(g1),
        keys_increasing(g2),
        keys_from(g1, s),
        keys_from(g2, s),
        keys_cover(g1, s),
        keys_cover(g2, s),
        0 <= i <= g1.len(),
        i <= g2.len(),
    ensures
        forall|j: int| 0 <= j < i ==> #[trigger] g1[j].0 == g2[j].0,
    decreases i,
{
    if i > 0 {
        let k = i - 1;
        lemma_grouping_keys_agree(g1, g2, s, k);
        let a = g1[k].0;
        let b = g2[k].0;
        let j2 = lemma_key_in_other(g1, g2, s, k);
        let j1 = lemma_key_in_other(g2, g1, s, k);
        if j2 < k {
            assert(g1[j2].0 == g2[j2].0);
            assert(lex_lt(g1[j2].0, g1[k].0));
            lemma_lex_irreflexive(a);
        }
        if j1 < k {
            assert(g1[j1].0 == g2[j1].0);
            assert(lex_lt(g2[j1].0, g2[k].0));
            lemma_lex_irreflexive(b);
        }
        if j2 > k && j1 > k {
            assert(lex_lt(g2[k].0, g2[j2].0));
            assert(lex_lt(g1[k].0, g1[j1].0));
            lemma_lex_asymmetric(a, b);
        }
    }
}

/// The grouping of records by network is unique.
pub proof fn lemma_grouping_unique(
    g1: Seq<(Seq<char>, Seq<BinaryVersionView>)>,
    g2: Seq<(Seq<char>, Seq<BinaryVersionView>)>,
    s: Seq<BinaryVersionView>,
)
    requires
        is_grouping_of(g1, s),
        is_grouping_of(g2, s),
    ensures
        g1 == g2,
{
    let n = if g1.len() <= g2.len() {
        g1.len() as int
    } else {
        g2.len() as int
    };
    lemma_grouping_keys_agree(g1, g2, s, n);
    if g1.len() > g2.len() {
        let j = lemma_key_in_other(g1, g2, s, n);
        assert(g1[j].0 == g2[j].0);
        assert(lex_lt(g1[j].0, g1[n].0));
        lemma_lex_irreflexive(g1[n].0);
    }
    if g2.len() > g1.len() {
        let j = lemma_key_in_other(g2, g1, s, n);
        assert(g1[j].0 == g2[j].0);
        assert(lex_lt(g2[j].0, g2[n].0));
        lemma_lex_irreflexive(g2[n].0);
    }
    assert forall|j: int| 0 <= j < g1.len() implies #[trigger] g1[j] == g2[j] by {
        assert(g1[j].0 == g2[j].0);
        assert(g1[j].1 == on_network(s, g1[j].0));
        assert(g2[j].1 == on_network(s, g2[j].0));
    }
    assert(g1 =~= g2);
}

/// The grouping of the records `s` by network.
pub open spec fn grouping_of(s: Seq<BinaryVersionView>) -> Seq<(Seq<char>, Seq<BinaryVersionView>)> {
    choose|g: Seq<(Seq<char>, Seq<BinaryVersionView>)>| is_grouping_of(g, s)
}

/// Groups records by network release, the groups ordered by network and each
/// holding its records in their order.
pub fn group_by_network(binaries: &[BinaryVersion]) -> (r: Vec<(String, Vec<BinaryVersion>)>)
    ensures
        is_grouping_of(groups_view(r@), versions_view(binaries@)),
        groups_view(r@) == grouping_of(versions_view(binaries@)),
{
    let ghost s = versions_view(binaries@);
    let n = binaries.len();
    let mut groups: Vec<(String, Vec<BinaryVersion>)> = Vec::new();
    let mut i: usize = 0;
    assert(s.subrange(0, 0) =~= Seq::<BinaryVersionView>::empty());
    assert(groups_view(groups@) =~= Seq::<(Seq<char>, Seq<BinaryVersionView>)>::empty());
    assert(is_grouping_of(groups_view(groups@), s.subrange(0, 0))) by {
        reveal(keys_from);
        reveal(keys_cover);
    }
    while i < n
        invariant
            n == binaries@.len(),
            s == versions_view(binaries@),
            i <= n,
            is_grouping_of(groups_view(groups@), s.subrange(0, i as int)),
        decreases n - i,
    {
        let b = binaries[i].clone();
        let ghost prefix = s.subrange(0, i as int);
        let ghost g = groups_view(groups@);
        assert(s.subrange(0, i + 1) =~= prefix.push(b@));
        let key = b.network_release.as_str();
        // The first group whose network is not less than the record's.
        let m = groups.len();
        let mut p: usize = 0;
        while p < m && str_less(groups[p].0.as_str(), key)
            invariant
                m == groups@.len(),
                g == groups_view(groups@),
                p <= m,
                forall|j: int| 0 <= j < p ==> lex_lt(#[trigger] g[j].0, key@),
            decreases m - p,
        {
            p = p + 1;
        }
        if p < m && str_eq(groups[p].0.as_str(), key) {
            let ghost gp = g[p as int];
            let ghost old_groups = groups@;
            let (k, mut list) = groups.remove(p);
            let ghost old_list = list@;
            list.push(b);
            assert(versions_view(list@) =~= versions_view(old_list).push(s[i as int]));
            let entry = (k, list);
            let ghost ev = entry;
            groups.insert(p, entry);
            proof {
                assert(groups@ =~= old_groups.update(p as int, ev));
                lemma_grouping_push_existing(g, prefix, s[i as int], p as int);
                assert(groups_view(groups@) =~= g.update(p as int, (gp.0, gp.1.push(s[i as int]))));
            }
        } else {
            let ghost old_groups = groups@;
            let mut list: Vec<BinaryVersion> = Vec::new();
            let k = b.network_release.clone();
            list.push(b);
            assert(versions_view(list@) =~= seq![s[i as int]]);
            let entry = (k, list);
            let ghost ev = entry;
            groups.insert(p, entry);
            proof {
                old_groups.insert_ensures(p as int, ev);
                g.insert_ensures(p as int, (s[i as int].network_release, seq![s[i as int]]));
                lemma_grouping_insert_new(g, prefix, s[i as int], p as int);
                assert(groups_view(groups@) =~= g.insert(
                    p as int,
                    (s[i as int].network_release, seq![s[i as int]]),
                ));
            }
        }
        i = i + 1;
    }
    assert(s.subrange(0, n as int) =~= s);
    proof {
        lemma_grouping_unique(groups_view(groups@), grouping_of(s), s);
    }
    groups
}

} // verus!

verus! {

// ---------------------------------------------------------------------------
// Default versions
// ---------------------------------------------------------------------------

/// The default version of one binary: the network release or branch, the
/// version and whether it is a debug build.
#[derive(Debug)]
pub struct DefaultEntry {
    pub binary: String,
    pub network: String,
    pub version: String,
    pub debug: bool,
}

/// The mathematical value of a `DefaultEntry`.
pub struct DefaultEntryView {
    pub binary: Seq<char>,
    pub network: Seq<char>,
    pub version: Seq<char>,
    pub debug: bool,
}

impl View for DefaultEntry {
    type V = DefaultEntryView;

    open spec fn view(&self) -> DefaultEntryView {
        DefaultEntryView {
            binary: self.binary@,
            network: self.network@,
            version: self.version@,
            debug: self.debug,
        }
    }
}

/// The views of a sequence of entries.
pub open spec fn entries_view(s: Seq<DefaultEntry>) -> Seq<DefaultEntryView> {
    s.map_values(|e: DefaultEntry| e@)
}

/// The entry of binary `k` in `s`: the last one, if several.
pub open spec fn lookup(s: Seq<DefaultEntryView>, k: Seq<char>) -> Option<DefaultEntryView>
    decreases s.len(),
{
    if s.len() == 0 {
        None
    } else if s.last().binary == k {
        Some(s.last())
    } else {
        lookup(s.drop_last(), k)
    }
}

/// The binaries of `s` increase strictly, so each occurs once.
pub open spec fn binaries_increasing(s: Seq<DefaultEntryView>) -> bool {
    forall|i: int, j: int|
        #![trigger s[i], s[j]]
        0 <= i < j < s.len() ==> lex_lt(s[i].binary, s[j].binary)
}

proof fn lemma_lookup_at(s: Seq<DefaultEntryView>, k: Seq<char>, i: int)
    requires
        binaries_increasing(s),
        0 <= i < s.len(),
        s[i].binary == k,
    ensures
        lookup(s, k) == Some(s[i]),
    decreases s.len(),
{
    if i < s.len() - 1 {
        assert(lex_lt(s[i].binary, s[s.len() - 1].binary));
        lemma_lex_irreflexive(k);
        let d = s.drop_last();
        assert(d[i] == s[i]);
        assert(binaries_increasing(d)) by {
            assert forall|a: int, b: int| #![trigger d[a], d[b]] 0 <= a < b < d.len() implies lex_lt(
                d[a].binary,
                d[b].binary,
            ) by {
                assert(d[a] == s[a] && d[b] == s[b]);
            }
        }
        lemma_lookup_at(d, k, i);
    }
}

proof fn lemma_lookup_absent(s: Seq<DefaultEntryView>, k: Seq<char>)
    requires
        forall|i: int| 0 <= i < s.len() ==> #[trigger] s[i].binary != k,
    ensures
        lookup(s, k) == None::<DefaultEntryView>,
    decreases s.len(),
{
    if s.len() > 0 {
        let d = s.drop_last();
        assert forall|i: int| 0 <= i < d.len() implies #[trigger] d[i].binary != k by {
            assert(d[i] == s[i]);
        }
        lemma_lookup_absent(d, k);
    }
}

/// The lookup in a sequence with increasing binaries: the entry with that
/// binary, if there is one.
proof fn lemma_lookup(s: Seq<DefaultEntryView>, k: Seq<char>)
    requires
        binaries_increasing(s),
    ensures
        lookup(s, k) is Some <==> exists|i: int| 0 <= i < s.len() && #[trigger] s[i].binary == k,
        forall|i: int| 0 <= i < s.len() && #[trigger] s[i].binary == k ==> lookup(s, k) == Some(s[i]),
{
    if exists|i: int| 0 <= i < s.len() && #[trigger] s[i].binary == k {
        let i = choose|i: int| 0 <= i < s.len() && #[trigger] s[i].binary == k;
        lemma_lookup_at(s, k, i);
        assert forall|j: int| 0 <= j < s.len() && #[trigger] s[j].binary == k implies lookup(s, k)
            == Some(s[j]) by {
            lemma_lookup_at(s, k, j);
        }
    } else {
        lemma_lookup_absent(s, k);
    }
}

/// The default version of each binary, ordered by binary name: what the
/// default-version file holds.
#[derive(Debug)]
pub struct DefaultVersions {
    entries: Vec<DefaultEntry>,
}

impl View for DefaultVersions {
    type V = Seq<DefaultEntryView>;

    closed spec fn view(&self) -> Seq<DefaultEntryView> {
        entries_view(self.entries@)
    }
}

/// The entry that `set` writes.
pub open spec fn entry_view(binary: Seq<char>, network: Seq<char>, version: Seq<char>, debug: bool) -> DefaultEntryView {
    DefaultEntryView { binary, network, version, debug }
}

impl DefaultVersions {
    #[verifier::type_invariant]
    closed spec fn well_formed(self) -> bool {
        binaries_increasing(entries_view(self.entries@))
    }

    /// No defaults.
    pub fn new() -> (r: DefaultVersions)
        ensures
            forall|k: Seq<char>| #[trigger] lookup(r@, k) == None::<DefaultEntryView>,
            r@.len() == 0,
    {
        let r = DefaultVersions { entries: Vec::new() };
        assert(entries_view(r.entries@) =~= Seq::<DefaultEntryView>::empty());
        r
    }

    /// The entries, ordered by binary, each binary once.
    pub fn entries(&self) -> (r: &[DefaultEntry])
        ensures
            entries_view(r@) == self@,
            binaries_increasing(self@),
    {
        proof {
            use_type_invariant(self);
        }
        self.entries.as_slice()
    }

    /// The default of `binary`.
    pub fn get(&self, binary: &str) -> (r: Option<&DefaultEntry>)
        ensures
            match r {
                Some(e) => lookup(self@, binary@) == Some(e@),
                None => lookup(self@, binary@) == None::<DefaultEntryView>,
            },
    {
        proof {
            use_type_invariant(self);
        }
        let n = self.entries.len();
        let mut i: usize = 0;
        while i < n
            invariant
                n == self.entries@.len(),
                i <= n,
                forall|j: int| 0 <= j < i ==> #[trigger] self@[j].binary != binary@,
            decreases n - i,
        {
            if str_eq(self.entries[i].binary.as_str(), binary) {
                assert(self@[i as int] == self.entries@[i as int]@);
                proof {
                    use_type_invariant(self);
                    lemma_lookup(self@, binary@);
                }
                return Some(&self.entries[i]);
            }
            assert(self@[i as int] == self.entries@[i as int]@);
            i = i + 1;
        }
        proof {
            use_type_invariant(self);
            lemma_lookup(self@, binary@);
        }
        None
    }

    /// Sets the default of `binary`, replacing any earlier one.
    pub fn set(&mut self, binary: &str, network: &str, version: &str, debug: bool)
        ensures
            forall|k: Seq<char>|
                #[trigger] lookup(final(self)@, k) == if k == binary@ {
                    Some(entry_view(binary@, network@, version@, debug))
                } else {
                    lookup(old(self)@, k)
                },
    {
        proof {
            use_type_invariant(&*self);
        }
        let ghost s = self@;
        let mut entries: Vec<DefaultEntry> = Vec::new();
        std::mem::swap(&mut entries, &mut self.entries);
        assert(entries_view(entries@) == s);
        let m = entries.len();
        let mut p: usize = 0;
        while p < m && str_less(entries[p].binary.as_str(), binary)
            invariant
                m == entries@.len(),
                s == entries_view(entries@),
                p <= m,
                forall|j: int| 0 <= j < p ==> lex_lt(#[trigger] s[j].binary, binary@),
            decreases m - p,
        {
            assert(s[p as int] == entries@[p as int]@);
            p = p + 1;
        }
        let e = DefaultEntry {
            binary: String::from_str(binary),
            network: String::from_str(network),
            version: String::from_str(version),
            debug,
        };
        let ghost ev = e@;
        let ghost old_entries = entries@;
        let replace = p < m && str_eq(entries[p].binary.as_str(), binary);
        if replace {
            entries.remove(p);
        }
        entries.insert(p, e);
        let ghost t = if replace {
            s.update(p as int, ev)
        } else {
            s.insert(p as int, ev)
        };
        proof {
            if p < m {
                assert(s[p as int] == old_entries[p as int]@);
            }
            if replace {
                assert(entries@ =~= old_entries.update(p as int, e));
            }
            assert(entries_view(entries@) =~= t);
            lemma_set_keeps_increasing(s, ev, p as int, replace);
            lemma_lookup(s, binary@);
            lemma_lookup(t, binary@);
            assert(t[p as int] == ev);
            assert forall|k: Seq<char>| #[trigger] lookup(t, k) == if k == binary@ {
                Some(ev)
            } else {
                lookup(s, k)
            } by {
                lemma_lookup(s, k);
                lemma_lookup(t, k);
                if k != binary@ {
                    if exists|i: int| 0 <= i < s.len() && #[trigger] s[i].binary == k {
                        let i = choose|i: int| 0 <= i < s.len() && #[trigger] s[i].binary == k;
                        if replace {
                            assert(i != p);
                            assert(t[i] == s[i]);
                        } else if i < p {
                            assert(t[i] == s[i]);
                        } else {
                            assert(t[i + 1] == s[i]);
                        }
                    }
                    if exists|i: int| 0 <= i < t.len() && #[trigger] t[i].binary == k {
                        let i = choose|i: int| 0 <= i < t.len() && #[trigger] t[i].binary == k;
                        if replace {
                            assert(t[i] == s[i]);
                        } else if i < p {
                            assert(t[i] == s[i]);
                        } else {
                            assert(i != p);
                            assert(t[i] == s[i - 1]);
                        }
                    }
                }
            }
        }
        self.entries = entries;
    }

    /// Removes the default of `binary`.
    pub fn remove(&mut self, binary: &str)
        ensures
            forall|k: Seq<char>|
                #[trigger] lookup(final(self)@, k) == if k == binary@ {
                    None::<DefaultEntryView>
                } else {
                    lookup(old(self)@, k)
                },
    {
        proof {
            use_type_invariant(&*self);
        }
        let ghost s = self@;
        let mut entries: Vec<DefaultEntry> = Vec::new();
        std::mem::swap(&mut entries, &mut self.entries);
        assert(entries_view(entries@) == s);
        let m = entries.len();
        let mut p: usize = 0;
        while p < m
            invariant
                m == entries@.len(),
                s == entries_view(entries@),
                p <= m,
                forall|j: int| 0 <= j < p ==> #[trigger] s[j].binary != binary@,
            ensures
                p <= m,
                forall|j: int| 0 <= j < p ==> #[trigger] s[j].binary != binary@,
                p < m ==> s[p as int].binary == binary@,
            decreases m - p,
        {
            assert(s[p as int] == entries@[p as int]@);
            if str_eq(entries[p].binary.as_str(), binary) {
                break;
            }
            p = p + 1;
        }
        let ghost old_entries = entries@;
        let ghost t = if p < m {
            s.remove(p as int)
        } else {
            s
        };
        if p < m {
            entries.remove(p);
        }
        proof {
            if p < m {
                s.remove_ensures(p as int);
            }
            assert(entries_view(entries@) =~= t);
            assert(binaries_increasing(t)) by {
                if p < m {
                    assert forall|a: int, b: int| #![trigger t[a], t[b]] 0 <= a < b < t.len() implies lex_lt(
                        t[a].binary,
                        t[b].binary,
                    ) by {
                        let a2 = if a < p {
                            a
                        } else {
                            a + 1
                        };
                        let b2 = if b < p {
                            b
                        } else {
                            b + 1
                        };
                        assert(t[a] == s[a2] && t[b] == s[b2]);
                    }
                }
            }
            assert forall|k: Seq<char>| #[trigger] lookup(t, k) == if k == binary@ {
                None::<DefaultEntryView>
            } else {
                lookup(s, k)
            } by {
                lemma_lookup(s, k);
                lemma_lookup(t, k);
                if k == binary@ {
                    if p < m {
                        assert forall|i: int| 0 <= i < t.len() implies #[trigger] t[i].binary != k by {
                            if i < p {
                                assert(t[i] == s[i]);
                            } else {
                                assert(t[i] == s[i + 1]);
                                assert(lex_lt(s[p as int].binary, s[i + 1].binary));
                                lemma_lex_irreflexive(k);
                            }
                        }
                    }
                } else {
                    if exists|i: int| 0 <= i < s.len() && #[trigger] s[i].binary == k {
                        let i = choose|i: int| 0 <= i < s.len() && #[trigger] s[i].binary == k;
                        if p < m {
                            if i < p {
                                assert(t[i] == s[i]);
                            } else {
                                assert(i != p);
                                assert(t[i - 1] == s[i]);
                            }
                        }
                    }
                    if exists|i: int| 0 <= i < t.len() && #[trigger] t[i].binary == k {
                        let i = choose|i: int| 0 <= i < t.len() && #[trigger] t[i].binary == k;
                        if p < m {
                            if i < p {
                                assert(t[i] == s[i]);
                            } else {
                                assert(t[i] == s[i + 1]);
                            }
                        }
                    }
                }
            }
        }
        self.entries = entries;
    }

    /// Sets the default of each of `binaries` to the same network, version and
    /// build (the update of the default-version file after an install or a
    /// `default set`).
    pub fn set_all(&mut self, binaries: &[String], network: &str, version: &str, debug: bool)
        ensures
            forall|k: Seq<char>|
                #[trigger] lookup(final(self)@, k) == if binaries@.map_values(|b: String| b@).contains(
                    k,
                ) {
                    Some(entry_view(k, network@, version@, debug))
                } else {
                    lookup(old(self)@, k)
                },
    {
        let ghost s = self@;
        let ghost names = binaries@.map_values(|b: String| b@);
        let n = binaries.len();
        let mut i: usize = 0;
        while i < n
            invariant
                n == binaries@.len(),
                names == binaries@.map_values(|b: String| b@),
                i <= n,
                forall|k: Seq<char>|
                    #[trigger] lookup(self@, k) == if names.subrange(0, i as int).contains(k) {
                        Some(entry_view(k, network@, version@, debug))
                    } else {
                        lookup(s, k)
                    },
            decreases n - i,
        {
            let ghost before = self@;
            self.set(binaries[i].as_str(), network, version, debug);
            proof {
                assert forall|k: Seq<char>| #[trigger] lookup(self@, k) == if names.subrange(
                    0,
                    i + 1,
                ).contains(k) {
                    Some(entry_view(k, network@, version@, debug))
                } else {
                    lookup(s, k)
                } by {
                    assert(names[i as int] == binaries@[i as int]@);
                    if names.subrange(0, i + 1).contains(k) {
                        if k != names[i as int] {
                            let j = choose|j: int| 0 <= j < i + 1 && #[trigger] names.subrange(0, i + 1)[j] == k;
                            assert(names.subrange(0, i as int)[j] == k);
                        }
                    } else {
                        if names.subrange(0, i as int).contains(k) {
                            let j = choose|j: int| 0 <= j < i && #[trigger] names.subrange(0, i as int)[j] == k;
                            assert(names.subrange(0, i + 1)[j] == k);
                        }
                        assert(names.subrange(0, i + 1)[i as int] == names[i as int]);
                    }
                }
            }
            i = i + 1;
        }
        assert(names.subrange(0, n as int) =~= names);
    }

    /// Builds the defaults from entries as read from the file; of several
    /// entries for one binary the last counts.
    pub fn from_entries(entries: Vec<DefaultEntry>) -> (r: DefaultVersions)
        ensures
            forall|k: Seq<char>| #[trigger] lookup(r@, k) == lookup(entries_view(entries@), k),
    {
        let ghost src = entries_view(entries@);
        let mut r = DefaultVersions::new();
        let n = entries.len();
        let mut i: usize = 0;
        assert(src.subrange(0, 0) =~= Seq::<DefaultEntryView>::empty());
        while i < n
            invariant
                n == entries@.len(),
                src == entries_view(entries@),
                i <= n,
                forall|k: Seq<char>|
                    #[trigger] lookup(r@, k) == lookup(src.subrange(0, i as int), k),
            decreases n - i,
        {
            let e = &entries[i];
            r.set(e.binary.as_str(), e.network.as_str(), e.version.as_str(), e.debug);
            proof {
                let sub = src.subrange(0, i + 1);
                assert(sub.drop_last() =~= src.subrange(0, i as int));
                assert(sub.last() == entries@[i as int]@);
                assert forall|k: Seq<char>| #[trigger] lookup(r@, k) == lookup(sub, k) by {
                }
            }
            i = i + 1;
        }
        assert(src.subrange(0, n as int) =~= src);
        r
    }
}

proof fn lemma_set_keeps_increasing(s: Seq<DefaultEntryView>, e: DefaultEntryView, p: int, replace: bool)
    requires
        binaries_increasing(s),
        0 <= p <= s.len(),
        forall|j: int| 0 <= j < p ==> lex_lt(#[trigger] s[j].binary, e.binary),
        replace ==> p < s.len() && s[p].binary == e.binary,
        !replace && p < s.len() ==> !lex_lt(s[p].binary, e.binary) && s[p].binary != e.binary,
    ensures
        binaries_increasing(
            if replace {
                s.update(p, e)
            } else {
                s.insert(p, e)
            },
        ),
{
    let t = if replace {
        s.update(p, e)
    } else {
        s.insert(p, e)
    };
    let k = e.binary;
    if !replace && p < s.len() {
        lemma_lex_total(s[p].binary, k);
    }
    assert forall|a: int, b: int| #![trigger t[a], t[b]] 0 <= a < b < t.len() implies lex_lt(
        t[a].binary,
        t[b].binary,
    ) by {
        if replace {
            if a == p {
                assert(lex_lt(s[p].binary, s[b].binary));
            } else if b == p {
                assert(t[a] == s[a]);
            } else {
                assert(t[a] == s[a] && t[b] == s[b]);
            }
        } else {
            if b == p {
                assert(t[a] == s[a]);
            } else if a == p {
                assert(t[b] == s[b - 1]);
                if b - 1 > p {
                    assert(lex_lt(s[p].binary, s[b - 1].binary));
                    lemma_lex_transitive(k, s[p].binary, s[b - 1].binary);
                }
            } else if a < p && b > p {
                assert(t[a] == s[a]);
                assert(t[b] == s[b - 1]);
                if b - 1 > p {
                    assert(lex_lt(s[p].binary, s[b - 1].binary));
                    lemma_lex_transitive(k, s[p].binary, s[b - 1].binary);
                }
                lemma_lex_transitive(s[a].binary, k, s[b - 1].binary);
            } else if a > p {
                assert(t[a] == s[a - 1] && t[b] == s[b - 1]);
                assert(lex_lt(s[a - 1].binary, s[b - 1].binary));
            } else {
                assert(t[a] == s[a] && t[b] == s[b]);
                assert(lex_lt(s[a].binary, s[b].binary));
            }
        }
    }
}

} // verus!

verus! {

// ---------------------------------------------------------------------------
// Default binaries as records
// ---------------------------------------------------------------------------

/// The default binaries as the default-version file once listed them.
#[derive(Debug)]
pub struct DefaultBinaries {
    pub binaries: Vec<BinaryVersion>,
}

/// A list of binary records (the default binaries, for display).
#[derive(Debug)]
pub struct Binaries {
    pub binaries: Vec<BinaryVersion>,
}

/// The record shown for a default entry: no path.
pub open spec fn default_record(e: DefaultEntryView) -> BinaryVersionView {
    BinaryVersionView {
        binary_name: e.binary,
        network_release: e.network,
        version: e.version,
        debug: e.debug,
        path: None,
    }
}

/// The line shown for a record: indented `name-version`, marked as a debug
/// build for a debug build of `sui`.
pub open spec fn binary_line(b: BinaryVersionView) -> Seq<char> {
    "    "@ + b.binary_name + "-"@ + b.version + (if b.binary_name == "sui"@ && b.debug {
        " (debug build)"@
    } else {
        ""@
    }) + "\n"@
}

/// The lines shown for records, in order.
pub open spec fn binary_lines(s: Seq<BinaryVersionView>) -> Seq<char>
    decreases s.len(),
{
    if s.len() == 0 {
        Seq::empty()
    } else {
        binary_lines(s.drop_last()) + binary_line(s.last())
    }
}

/// The block shown for the records of a network: a heading, then a line per
/// record.
pub open spec fn group_block(g: (Seq<char>, Seq<BinaryVersionView>)) -> Seq<char> {
    "["@ + g.0 + " release/branch]\n"@ + binary_lines(g.1)
}

/// The blocks of the groups, in order.
pub open spec fn groups_text(g: Seq<(Seq<char>, Seq<BinaryVersionView>)>) -> Seq<char>
    decreases g.len(),
{
    if g.len() == 0 {
        Seq::empty()
    } else {
        groups_text(g.drop_last()) + group_block(g.last())
    }
}

/// The line shown for a record.
fn push_binary_line(out: &mut String, b: &BinaryVersion)
    ensures
        final(out)@ == old(out)@ + binary_line(b@),
{
    out.append("    ");
    out.append(b.binary_name.as_str());
    out.append("-");
    out.append(b.version.as_str());
    if str_eq(b.binary_name.as_str(), "sui") && b.debug {
        out.append(" (debug build)");
    } else {
        proof {
            reveal_strlit("");
        }
    }
    out.append("\n");
    assert(final(out)@ =~= old(out)@ + binary_line(b@)) by {
        reveal_strlit("");
    }
}

impl Binaries {
    /// The records grouped by network, in network order, one line each under
    /// the heading of their network (the `Display` of the list).
    pub fn render(&self) -> (r: String)
        ensures
            r@ == groups_text(grouping_of(versions_view(self.binaries@))),
    {
        let groups = group_by_network(self.binaries.as_slice());
        let ghost g = groups_view(groups@);
        let mut out = String::new();
        let mut i: usize = 0;
        assert(g.subrange(0, 0) =~= Seq::<(Seq<char>, Seq<BinaryVersionView>)>::empty());
        while i < groups.len()
            invariant
                i <= groups@.len(),
                g == groups_view(groups@),
                out@ == groups_text(g.subrange(0, i as int)),
            decreases groups@.len() - i,
        {
            let ghost start = out@;
            out.append("[");
            out.append(groups[i].0.as_str());
            out.append(" release/branch]\n");
            let list = &groups[i].1;
            let ghost lv = versions_view(list@);
            let ghost head = out@;
            let mut j: usize = 0;
            assert(lv.subrange(0, 0) =~= Seq::<BinaryVersionView>::empty());
            assert(head =~= head + binary_lines(lv.subrange(0, 0)));
            while j < list.len()
                invariant
                    j <= list@.len(),
                    lv == versions_view(list@),
                    out@ == head + binary_lines(lv.subrange(0, j as int)),
                decreases list@.len() - j,
            {
                assert(lv.subrange(0, j + 1).drop_last() =~= lv.subrange(0, j as int));
                assert(lv.subrange(0, j + 1).last() == list@[j as int]@);
                push_binary_line(&mut out, &list[j]);
                assert(out@ =~= head + binary_lines(lv.subrange(0, j + 1)));
                j = j + 1;
            }
            assert(lv.subrange(0, list@.len() as int) =~= lv);
            assert(g[i as int] == (groups@[i as int].0@, lv));
            assert(g.subrange(0, i + 1).drop_last() =~= g.subrange(0, i as int));
            assert(g.subrange(0, i + 1).last() == g[i as int]);
            assert(out@ =~= start + group_block(g[i as int]));
            i = i + 1;
        }
        assert(g.subrange(0, groups@.len() as int) =~= g);
        out
    }

    /// The default binaries as records, ordered by binary name
    /// (`From` the default-version map).
    pub fn from_defaults(defaults: &DefaultVersions) -> (r: Binaries)
        ensures
            versions_view(r.binaries@) == defaults@.map_values(|e: DefaultEntryView| default_record(e)),
    {
        let entries = defaults.entries();
        let n = entries.len();
        let mut out: Vec<BinaryVersion> = Vec::new();
        let mut i: usize = 0;
        while i < n
            invariant
                n == entries@.len(),
                entries_view(entries@) == defaults@,
                i <= n,
                out@.len() == i,
                forall|j: int| 0 <= j < i ==> #[trigger] out@[j]@ == default_record(defaults@[j]),
            decreases n - i,
        {
            let e = &entries[i];
            assert(defaults@[i as int] == e@);
            out.push(
                BinaryVersion {
                    binary_name: e.binary.clone(),
                    network_release: e.network.clone(),
                    version: e.version.clone(),
                    debug: e.debug,
                    path: None,
                },
            );
            i = i + 1;
        }
        let r = Binaries { binaries: out };
        assert(versions_view(r.binaries@) =~= defaults@.map_values(
            |e: DefaultEntryView| default_record(e),
        ));
        r
    }
}

// ---------------------------------------------------------------------------
// Releases
// ---------------------------------------------------------------------------

/// A downloadable file of a release.
#[derive(Debug)]
pub struct Asset {
    pub browser_download_url: String,
    pub name: String,
}

/// The mathematical value of an `Asset`.
pub struct AssetView {
    pub browser_download_url: Seq<char>,
    pub name: Seq<char>,
}

impl View for Asset {
    type V = AssetView;

    open spec fn view(&self) -> AssetView {
        AssetView { browser_download_url: self.browser_download_url@, name: self.name@ }
    }
}

impl Clone for Asset {
    fn clone(&self) -> (r: Self)
        ensures
            r@ == self@,
    {
        Asset { browser_download_url: self.browser_download_url.clone(), name: self.name.clone() }
    }
}

/// A release of a repository: its assets.
#[derive(Debug)]
pub struct Release {
    pub assets: Vec<Asset>,
}

/// The views of the assets of a release.
pub open spec fn assets_view(s: Seq<Asset>) -> Seq<AssetView> {
    s.map_values(|a: Asset| a@)
}

impl View for Release {
    type V = Seq<AssetView>;

    open spec fn view(&self) -> Seq<AssetView> {
        assets_view(self.assets@)
    }
}

/// The views of a sequence of releases.
pub open spec fn releases_view(s: Seq<Release>) -> Seq<Seq<AssetView>> {
    s.map_values(|r: Release| r@)
}

impl Clone for Release {
    fn clone(&self) -> (r: Self)
        ensures
            r@ == self@,
    {
        let mut assets: Vec<Asset> = Vec::new();
        let mut i: usize = 0;
        while i < self.assets.len()
            invariant
                i <= self.assets@.len(),
                assets@.len() == i,
                forall|j: int| 0 <= j < i ==> #[trigger] assets@[j]@ == self.assets@[j]@,
            decreases self.assets@.len() - i,
        {
            assets.push(self.assets[i].clone());
            i = i + 1;
        }
        let r = Release { assets };
        assert(r@ =~= self@);
        r
    }
}

} // verus!
