//! The decisions of `suiup update`: which request is accepted, the newest
//! installed version of the binary on each network, and which networks have
//! a newer release.

use vstd::prelude::*;

use crate::commands::{component_result, parse_component_with_version, CommandError, CommandErrorView};
use crate::registry::{config_of, InstallationType};
use crate::handlers::self_::{
    lemma_version_lt_irreflexive, lemma_version_lt_total, lemma_version_lt_transitive,
    parse_version, version_lt, Ver,
};
use crate::text::{
    lemma_lex_asymmetric, lemma_lex_irreflexive, lemma_lex_le_transitive, lemma_lex_total,
    lemma_lex_transitive, lex_lt, str_eq, str_less,
};
use crate::types::{
    group_by_network, groups_view, is_grouping_of, keys_cover, on_network, versions_view,
    BinaryVersion, BinaryVersionView, InstalledBinaries,
};

verus! {

// ---------------------------------------------------------------------------
// The newest version of a binary
// ---------------------------------------------------------------------------

/// The order of versions: by `major.minor.patch` as numbers (written with or
/// without leading `v`s), texts that are no such version (such as `nightly`)
/// before every version, and ties broken by string order so that the order
/// is total.
pub open spec fn version_order_lt(a: Seq<char>, b: Seq<char>) -> bool {
    match (parse_version(a), parse_version(b)) {
        (Ok(x), Ok(y)) => version_lt(x, y) || (x == y && lex_lt(a, b)),
        (Err(_), Ok(_)) => true,
        (Ok(_), Err(_)) => false,
        (Err(_), Err(_)) => lex_lt(a, b),
    }
}

/// `a` comes no later than `b` in the order of versions.
pub open spec fn version_order_le(a: Seq<char>, b: Seq<char>) -> bool {
    !version_order_lt(b, a)
}

/// No version comes before itself.
pub proof fn lemma_version_order_irreflexive(a: Seq<char>)
    ensures
        !version_order_lt(a, a),
{
    lemma_lex_irreflexive(a);
    if let Ok(x) = parse_version(a) {
        lemma_version_lt_irreflexive(x);
    }
}

/// Of two different texts, one comes before the other.
pub proof fn lemma_version_order_total(a: Seq<char>, b: Seq<char>)
    ensures
        a == b || version_order_lt(a, b) || version_order_lt(b, a),
{
    lemma_lex_total(a, b);
    if let (Ok(x), Ok(y)) = (parse_version(a), parse_version(b)) {
        lemma_version_lt_total(x, y);
    }
}

/// Two texts do not each come before the other.
pub proof fn lemma_version_order_asymmetric(a: Seq<char>, b: Seq<char>)
    ensures
        !(version_order_lt(a, b) && version_order_lt(b, a)),
{
    lemma_lex_asymmetric(a, b);
    if let (Ok(x), Ok(y)) = (parse_version(a), parse_version(b)) {
        lemma_version_lt_irreflexive(x);
        if version_lt(x, y) && version_lt(y, x) {
            lemma_version_lt_transitive(x, y, x);
        }
    }
}

/// The order of versions is transitive.
pub proof fn lemma_version_order_transitive(a: Seq<char>, b: Seq<char>, c: Seq<char>)
    requires
        version_order_lt(a, b),
        version_order_lt(b, c),
    ensures
        version_order_lt(a, c),
{
    match (parse_version(a), parse_version(b), parse_version(c)) {
        (Ok(x), Ok(y), Ok(z)) => {
            if version_lt(x, y) && version_lt(y, z) {
                lemma_version_lt_transitive(x, y, z);
            } else if x == y && y == z {
                lemma_lex_transitive(a, b, c);
            }
        },
        (Err(_), Err(_), Err(_)) => {
            lemma_lex_transitive(a, b, c);
        },
        _ => {},
    }
}

/// "No later than" is transitive.
pub proof fn lemma_version_order_le_transitive(a: Seq<char>, b: Seq<char>, c: Seq<char>)
    requires
        version_order_le(a, b),
        version_order_le(b, c),
    ensures
        version_order_le(a, c),
{
    if version_order_lt(c, a) {
        lemma_version_order_total(a, b);
        lemma_version_order_total(b, c);
        if a == b {
        } else if b == c {
        } else {
            lemma_version_order_transitive(a, b, c);
            lemma_version_order_asymmetric(a, c);
        }
    }
}

/// Whether `a` comes before `b` in the order of versions.
pub fn version_less(a: &str, b: &str) -> (r: bool)
    ensures
        r == version_order_lt(a@, b@),
{
    match (Ver::from_str(a), Ver::from_str(b)) {
        (Ok(x), Ok(y)) => x.is_older_than(&y) || (x.same_as(&y) && str_less(a, b)),
        (Err(_), Ok(_)) => true,
        (Ok(_), Err(_)) => false,
        (Err(_), Err(_)) => str_less(a, b),
    }
}

/// `a` comes before `b`: in the order of versions where `numeric`, else in
/// string order.
pub open spec fn precedes(numeric: bool, a: Seq<char>, b: Seq<char>) -> bool {
    if numeric {
        version_order_lt(a, b)
    } else {
        lex_lt(a, b)
    }
}

/// `a` comes no later than `b`.
pub open spec fn precedes_or_equal(numeric: bool, a: Seq<char>, b: Seq<char>) -> bool {
    !precedes(numeric, b, a)
}

proof fn lemma_precedes_irreflexive(numeric: bool, a: Seq<char>)
    ensures
        !precedes(numeric, a, a),
{
    lemma_lex_irreflexive(a);
    lemma_version_order_irreflexive(a);
}

proof fn lemma_precedes_total(numeric: bool, a: Seq<char>, b: Seq<char>)
    ensures
        a == b || precedes(numeric, a, b) || precedes(numeric, b, a),
{
    lemma_lex_total(a, b);
    lemma_version_order_total(a, b);
}

proof fn lemma_precedes_asymmetric(numeric: bool, a: Seq<char>, b: Seq<char>)
    ensures
        !(precedes(numeric, a, b) && precedes(numeric, b, a)),
{
    lemma_lex_asymmetric(a, b);
    lemma_version_order_asymmetric(a, b);
}

proof fn lemma_precedes_or_equal_transitive(numeric: bool, a: Seq<char>, b: Seq<char>, c: Seq<char>)
    requires
        precedes_or_equal(numeric, a, b),
        precedes_or_equal(numeric, b, c),
    ensures
        precedes_or_equal(numeric, a, c),
{
    if numeric {
        lemma_version_order_le_transitive(a, b, c);
    } else {
        lemma_lex_le_transitive(a, b, c);
    }
}

/// The greatest version among the records of `s` of the binary `name`, if
/// there is one: in the order of versions where `numeric`, else in string
/// order.
pub open spec fn max_version_in(s: Seq<BinaryVersionView>, name: Seq<char>, numeric: bool) -> Option<
    Seq<char>,
>
    decreases s.len(),
{
    if s.len() == 0 {
        None
    } else {
        let rest = max_version_in(s.drop_last(), name, numeric);
        if s.last().binary_name == name {
            match rest {
                Some(v) => if precedes(numeric, s.last().version, v) {
                    Some(v)
                } else {
                    Some(s.last().version)
                },
                None => Some(s.last().version),
            }
        } else {
            rest
        }
    }
}

/// The greatest version (in the order of versions) among the records of `s`
/// of the binary `name`, if there is one: what `default set` takes.
pub open spec fn max_named_version(s: Seq<BinaryVersionView>, name: Seq<char>) -> Option<Seq<char>> {
    max_version_in(s, name, true)
}

/// The greatest version in string order among the records of `s` of the
/// binary `name`, if there is one: what `update` compares with the releases.
pub open spec fn max_named_string(s: Seq<BinaryVersionView>, name: Seq<char>) -> Option<Seq<char>> {
    max_version_in(s, name, false)
}

/// Some record of `s` is of the binary `name`.
pub open spec fn has_named(s: Seq<BinaryVersionView>, name: Seq<char>) -> bool {
    exists|j: int| 0 <= j < s.len() && #[trigger] s[j].binary_name == name
}

/// The greatest version, in either order, is the version of a record of the
/// binary, and no record of the binary has a greater one.
pub proof fn lemma_max_version_in(s: Seq<BinaryVersionView>, name: Seq<char>, numeric: bool)
    ensures
        max_version_in(s, name, numeric) is Some <==> has_named(s, name),
        max_version_in(s, name, numeric) matches Some(v) ==> {
            &&& exists|j: int|
                0 <= j < s.len() && #[trigger] s[j].binary_name == name && s[j].version == v
            &&& forall|j: int|
                0 <= j < s.len() && #[trigger] s[j].binary_name == name ==> precedes_or_equal(
                    numeric,
                    s[j].version,
                    v,
                )
        },
    decreases s.len(),
{
    if s.len() > 0 {
        let d = s.drop_last();
        lemma_max_version_in(d, name, numeric);
        let last = s.last();
        assert forall|j: int| 0 <= j < d.len() implies #[trigger] d[j] == s[j] by {}
        if has_named(d, name) {
            let j = choose|j: int| 0 <= j < d.len() && #[trigger] d[j].binary_name == name;
            assert(s[j].binary_name == name);
        }
        if last.binary_name == name {
            assert(s[s.len() - 1].binary_name == name);
            match max_version_in(d, name, numeric) {
                Some(v) => {
                    lemma_precedes_total(numeric, last.version, v);
                    if precedes(numeric, last.version, v) {
                        lemma_precedes_asymmetric(numeric, last.version, v);
                        assert forall|j: int|
                            0 <= j < s.len() && #[trigger] s[j].binary_name == name implies precedes_or_equal(
                            numeric,
                            s[j].version,
                            v,
                        ) by {
                            if j < d.len() {
                                assert(d[j].binary_name == name);
                            }
                        }
                        let k = choose|j: int|
                            0 <= j < d.len() && #[trigger] d[j].binary_name == name && d[j].version
                                == v;
                        assert(s[k].binary_name == name && s[k].version == v);
                    } else {
                        assert forall|j: int|
                            0 <= j < s.len() && #[trigger] s[j].binary_name == name implies precedes_or_equal(
                            numeric,
                            s[j].version,
                            last.version,
                        ) by {
                            if j < d.len() {
                                assert(d[j].binary_name == name);
                                lemma_precedes_or_equal_transitive(
                                    numeric,
                                    d[j].version,
                                    v,
                                    last.version,
                                );
                            } else {
                                lemma_precedes_irreflexive(numeric, last.version);
                            }
                        }
                    }
                },
                None => {
                    assert forall|j: int|
                        0 <= j < s.len() && #[trigger] s[j].binary_name == name implies precedes_or_equal(
                        numeric,
                        s[j].version,
                        last.version,
                    ) by {
                        if j < d.len() {
                            assert(d[j].binary_name == name);
                        } else {
                            lemma_precedes_irreflexive(numeric, last.version);
                        }
                    }
                },
            }
        } else {
            if has_named(s, name) {
                let j = choose|j: int| 0 <= j < s.len() && #[trigger] s[j].binary_name == name;
                assert(d[j].binary_name == name);
            }
            match max_version_in(d, name, numeric) {
                Some(v) => {
                    let k = choose|j: int|
                        0 <= j < d.len() && #[trigger] d[j].binary_name == name && d[j].version
                            == v;
                    assert(s[k].binary_name == name && s[k].version == v);
                    assert forall|j: int|
                        0 <= j < s.len() && #[trigger] s[j].binary_name == name implies precedes_or_equal(
                        numeric,
                        s[j].version,
                        v,
                    ) by {
                        assert(d[j].binary_name == name);
                    }
                },
                None => {},
            }
        }
    }
}

/// The greatest version in the order of versions is the version of a record
/// of the binary, and no record of the binary has a greater one.
pub proof fn lemma_max_named_version(s: Seq<BinaryVersionView>, name: Seq<char>)
    ensures
        max_named_version(s, name) is Some <==> has_named(s, name),
        max_named_version(s, name) matches Some(v) ==> {
            &&& exists|j: int|
                0 <= j < s.len() && #[trigger] s[j].binary_name == name && s[j].version == v
            &&& forall|j: int|
                0 <= j < s.len() && #[trigger] s[j].binary_name == name ==> version_order_le(
                    s[j].version,
                    v,
                )
        },
{
    lemma_max_version_in(s, name, true);
}

/// The greatest version of the binary `name` among the records, in the order
/// of versions where `numeric`, else in string order.
fn newest_in(binaries: &[BinaryVersion], name: &str, numeric: bool) -> (r: Option<String>)
    ensures
        match r {
            Some(v) => max_version_in(versions_view(binaries@), name@, numeric) == Some(v@),
            None => max_version_in(versions_view(binaries@), name@, numeric) is None,
        },
{
    let ghost s = versions_view(binaries@);
    let n = binaries.len();
    let mut best: Option<String> = None;
    let mut i: usize = 0;
    assert(s.subrange(0, 0) =~= Seq::<BinaryVersionView>::empty());
    while i < n
        invariant
            n == binaries@.len(),
            s == versions_view(binaries@),
            i <= n,
            match best {
                Some(v) => max_version_in(s.subrange(0, i as int), name@, numeric) == Some(v@),
                None => max_version_in(s.subrange(0, i as int), name@, numeric) is None,
            },
        decreases n - i,
    {
        assert(s.subrange(0, i + 1).drop_last() =~= s.subrange(0, i as int));
        assert(s.subrange(0, i + 1).last() == binaries@[i as int]@);
        let b = &binaries[i];
        if str_eq(b.binary_name.as_str(), name) {
            match best {
                Some(v) => {
                    let earlier = if numeric {
                        version_less(b.version.as_str(), v.as_str())
                    } else {
                        str_less(b.version.as_str(), v.as_str())
                    };
                    if earlier {
                        best = Some(v);
                    } else {
                        best = Some(b.version.clone());
                    }
                },
                None => {
                    best = Some(b.version.clone());
                },
            }
        }
        i = i + 1;
    }
    assert(s.subrange(0, n as int) =~= s);
    best
}

/// The greatest version of the binary `name` among the records, in the order
/// of versions.
pub fn newest_version(binaries: &[BinaryVersion], name: &str) -> (r: Option<String>)
    ensures
        match r {
            Some(v) => max_named_version(versions_view(binaries@), name@) == Some(v@),
            None => max_named_version(versions_view(binaries@), name@) is None,
        },
{
    newest_in(binaries, name, true)
}

/// The greatest version of the binary `name` among the records, in string
/// order.
pub fn newest_string_version(binaries: &[BinaryVersion], name: &str) -> (r: Option<String>)
    ensures
        match r {
            Some(v) => max_named_string(versions_view(binaries@), name@) == Some(v@),
            None => max_named_string(versions_view(binaries@), name@) is None,
        },
{
    newest_in(binaries, name, false)
}

// ---------------------------------------------------------------------------
// The newest installed version on each network
// ---------------------------------------------------------------------------

/// A record of `s` from `net` is in the records of `s` from `net`, and
/// every record there is a record of `s` from `net`.
pub proof fn lemma_on_network_members(s: Seq<BinaryVersionView>, net: Seq<char>)
    ensures
        forall|k: int|
            0 <= k < s.len() && #[trigger] s[k].network_release == net ==> on_network(
                s,
                net,
            ).contains(s[k]),
        forall|j: int|
            0 <= j < on_network(s, net).len() ==> s.contains(#[trigger] on_network(s, net)[j])
                && on_network(s, net)[j].network_release == net,
    decreases s.len(),
{
    if s.len() > 0 {
        let d = s.drop_last();
        lemma_on_network_members(d, net);
        let od = on_network(d, net);
        let o = on_network(s, net);
        assert forall|k: int|
            0 <= k < s.len() && #[trigger] s[k].network_release == net implies o.contains(s[k]) by {
            if k < d.len() {
                assert(d[k] == s[k]);
                assert(od.contains(s[k]));
                let m = choose|m: int| 0 <= m < od.len() && od[m] == s[k];
                if s.last().network_release == net {
                    assert(o[m] == s[k]);
                }
            } else {
                assert(o[o.len() - 1] == s[k]);
            }
        }
        assert forall|j: int| 0 <= j < o.len() implies s.contains(#[trigger] o[j])
            && o[j].network_release == net by {
            if s.last().network_release == net && j == o.len() - 1 {
                assert(s[s.len() - 1] == o[j]);
            } else {
                assert(o[j] == od[j]);
                assert(d.contains(od[j]));
                let k = choose|k: int| 0 <= k < d.len() && d[k] == od[j];
                assert(s[k] == o[j]);
            }
        }
    }
}

/// `r` lists, in increasing order of network, each network that has a record
/// of the binary `name`, with the greatest version of that binary there in
/// string order.
pub open spec fn is_newest_per_network(
    r: Seq<(Seq<char>, Seq<char>)>,
    s: Seq<BinaryVersionView>,
    name: Seq<char>,
) -> bool {
    &&& forall|i: int, j: int|
        #![trigger r[i], r[j]]
        0 <= i < j < r.len() ==> lex_lt(r[i].0, r[j].0)
    &&& forall|i: int|
        0 <= i < r.len() ==> max_named_string(on_network(s, (#[trigger] r[i]).0), name) == Some(
            r[i].1,
        )
    &&& forall|k: int|
        0 <= k < s.len() && (#[trigger] s[k]).binary_name == name ==> exists|i: int|
            0 <= i < r.len() && #[trigger] r[i].0 == s[k].network_release
}

/// The views of pairs of strings.
pub open spec fn pairs_view(v: Seq<(String, String)>) -> Seq<(Seq<char>, Seq<char>)> {
    v.map_values(|p: (String, String)| (p.0@, p.1@))
}

/// The newest installed version of the binary `name` on each network where it
/// is installed, in network order (what `update` compares with the releases).
pub fn newest_versions_by_network(installed: &InstalledBinaries, name: &str) -> (r: Vec<
    (String, String),
>)
    ensures
        is_newest_per_network(pairs_view(r@), installed@, name@),
{
    let ghost s = installed@;
    let groups = group_by_network(installed.binaries());
    let ghost g = groups_view(groups@);
    let n = groups.len();
    let mut out: Vec<(String, String)> = Vec::new();
    let mut i: usize = 0;
    while i < n
        invariant
            n == groups@.len(),
            g == groups_view(groups@),
            is_grouping_of(g, s),
            i <= n,
            forall|a: int, b: int|
                #![trigger pairs_view(out@)[a], pairs_view(out@)[b]]
                0 <= a < b < out@.len() ==> lex_lt(pairs_view(out@)[a].0, pairs_view(out@)[b].0),
            forall|a: int|
                0 <= a < out@.len() ==> max_named_string(
                    on_network(s, (#[trigger] pairs_view(out@)[a]).0),
                    name@,
                ) == Some(pairs_view(out@)[a].1),
            forall|a: int|
                0 <= a < out@.len() ==> exists|b: int|
                    0 <= b < i && (#[trigger] pairs_view(out@)[a]).0 == g[b].0,
            forall|b: int|
                0 <= b < i && has_named(on_network(s, (#[trigger] g[b]).0), name@) ==> exists|
                    a: int,
                | 0 <= a < out@.len() && #[trigger] pairs_view(out@)[a].0 == g[b].0,
        decreases n - i,
    {
        let ghost before = pairs_view(out@);
        assert(g[i as int].1 == on_network(s, g[i as int].0));
        assert(g[i as int] == (groups@[i as int].0@, versions_view(groups@[i as int].1@)));
        let newest = newest_string_version(groups[i].1.as_slice(), name);
        proof {
            lemma_max_version_in(on_network(s, g[i as int].0), name@, false);
        }
        match newest {
            Some(v) => {
                let net = groups[i].0.clone();
                out.push((net, v));
                proof {
                    let pv = pairs_view(out@);
                    assert(pv =~= before.push((g[i as int].0, v@)));
                    assert forall|a: int, b: int|
                        #![trigger pv[a], pv[b]]
                        0 <= a < b < pv.len() implies lex_lt(pv[a].0, pv[b].0) by {
                        if b == pv.len() - 1 {
                            assert(pv[a] == before[a]);
                            let c = choose|c: int| 0 <= c < i && before[a].0 == g[c].0;
                            assert(lex_lt(g[c].0, g[i as int].0));
                        } else {
                            assert(pv[a] == before[a] && pv[b] == before[b]);
                        }
                    }
                    assert forall|a: int|
                        0 <= a < pv.len() implies max_named_string(
                            on_network(s, (#[trigger] pv[a]).0),
                            name@,
                        ) == Some(pv[a].1) by {
                        if a < before.len() {
                            assert(pv[a] == before[a]);
                        }
                    }
                    assert forall|a: int| 0 <= a < pv.len() implies exists|b: int|
                        0 <= b < i + 1 && (#[trigger] pv[a]).0 == g[b].0 by {
                        if a < before.len() {
                            assert(pv[a] == before[a]);
                            let c = choose|c: int| 0 <= c < i && before[a].0 == g[c].0;
                            assert(0 <= c < i + 1 && pv[a].0 == g[c].0);
                        } else {
                            assert(pv[a].0 == g[i as int].0);
                        }
                    }
                    assert forall|b: int|
                        0 <= b < i + 1 && has_named(on_network(s, (#[trigger] g[b]).0), name@)
                            implies exists|a: int|
                        0 <= a < pv.len() && #[trigger] pv[a].0 == g[b].0 by {
                        if b < i {
                            let a = choose|a: int| 0 <= a < before.len() && #[trigger] before[a].0 == g[b].0;
                            assert(pv[a] == before[a]);
                        } else {
                            assert(pv[pv.len() - 1].0 == g[b].0);
                        }
                    }
                }
            },
            None => {
                proof {
                    assert(!has_named(on_network(s, g[i as int].0), name@));
                }
            },
        }
        i = i + 1;
    }
    proof {
        let pv = pairs_view(out@);
        assert forall|k: int|
            0 <= k < s.len() && (#[trigger] s[k]).binary_name == name@ implies exists|a: int|
            0 <= a < pv.len() && #[trigger] pv[a].0 == s[k].network_release by {
            reveal(keys_cover);
            let b = choose|b: int| 0 <= b < g.len() && #[trigger] g[b].0 == s[k].network_release;
            lemma_on_network_members(s, s[k].network_release);
            let o = on_network(s, s[k].network_release);
            let m = choose|m: int| 0 <= m < o.len() && o[m] == s[k];
            assert(o[m].binary_name == name@);
            assert(has_named(o, name@));
        }
    }
    out
}

// ---------------------------------------------------------------------------
// The update request
// ---------------------------------------------------------------------------

/// What `update` does once the request is accepted.
#[derive(Debug)]
pub enum UpdatePlan {
    /// The binary is not released per network: install it again.
    Reinstall,
    /// Compare the newest installed version on each network, in network order,
    /// with the newest release for that network.
    CheckNetworks(Vec<(String, String)>),
}

/// Why an update was refused.
#[derive(Debug)]
pub enum UpdateError {
    /// No binary was given.
    MissingBinary,
    /// The binary could not be parsed.
    Component(CommandError),
    /// A version was given.
    VersionGiven,
    /// The binary is not installed.
    NotInstalled(String),
}

/// The mathematical value of an `UpdateError`.
pub enum UpdateErrorView {
    MissingBinary,
    Component(CommandErrorView),
    VersionGiven,
    NotInstalled(Seq<char>),
}

impl View for UpdateError {
    type V = UpdateErrorView;

    open spec fn view(&self) -> UpdateErrorView {
        match self {
            UpdateError::MissingBinary => UpdateErrorView::MissingBinary,
            UpdateError::Component(e) => UpdateErrorView::Component(e@),
            UpdateError::VersionGiven => UpdateErrorView::VersionGiven,
            UpdateError::NotInstalled(n) => UpdateErrorView::NotInstalled(n@),
        }
    }
}

/// The message of an update error.
pub open spec fn update_error_text(e: UpdateErrorView) -> Seq<char> {
    match e {
        UpdateErrorView::MissingBinary => "Invalid number of arguments for `update` command"@,
        UpdateErrorView::Component(c) => crate::commands::command_error_text(c),
        UpdateErrorView::VersionGiven => "Update should be done without a version. Use `suiup install` to specify a version"@,
        UpdateErrorView::NotInstalled(n) => "Binary "@ + n
            + " not found in installed binaries. Use `suiup show` to see installed binaries and `suiup install` to install the binary."@,
    }
}

impl UpdateError {
    /// The message of the error.
    pub fn message(&self) -> (r: String)
        ensures
            r@ == update_error_text(self@),
    {
        match self {
            UpdateError::MissingBinary => String::from_str(
                "Invalid number of arguments for `update` command",
            ),
            UpdateError::Component(e) => e.message(),
            UpdateError::VersionGiven => String::from_str(
                "Update should be done without a version. Use `suiup install` to specify a version",
            ),
            UpdateError::NotInstalled(n) => {
                let mut s = String::from_str("Binary ");
                s.append(n.as_str());
                s.append(
                    " not found in installed binaries. Use `suiup show` to see installed binaries and `suiup install` to install the binary.",
                );
                s
            },
        }
    }
}

/// Whether the binary of this configuration is updated by installing it
/// again rather than per network.
pub open spec fn reinstalls(network_based: bool, installation_type: InstallationType) -> bool {
    !network_based || installation_type == InstallationType::Standalone
}

/// Decides what `update` does for the request `binary_name`, given the
/// installed binaries.
pub fn plan_update(binary_name: &str, installed: &InstalledBinaries) -> (r: Result<
    UpdatePlan,
    UpdateError,
>)
    ensures
        binary_name@.len() == 0 ==> r matches Err(UpdateError::MissingBinary),
        binary_name@.len() > 0 ==> match component_result(binary_name@) {
            Err(e) => r matches Err(UpdateError::Component(c)) && c@ == e,
            Ok((name, _network, version)) => if version is Some {
                r matches Err(UpdateError::VersionGiven)
            } else if !has_named(installed@, name) {
                r matches Err(UpdateError::NotInstalled(n)) && n@ == name
            } else if reinstalls(
                config_of(name).network_based,
                config_of(name).installation_type,
            ) {
                r matches Ok(UpdatePlan::Reinstall)
            } else {
                r matches Ok(UpdatePlan::CheckNetworks(v)) && is_newest_per_network(
                    pairs_view(v@),
                    installed@,
                    name,
                )
            },
        },
{
    if binary_name.unicode_len() == 0 {
        return Err(UpdateError::MissingBinary);
    }
    let meta = match parse_component_with_version(binary_name) {
        Ok(m) => m,
        Err(e) => {
            return Err(UpdateError::Component(e));
        },
    };
    if meta.version.is_some() {
        return Err(UpdateError::VersionGiven);
    }
    let name = meta.name.as_str();
    let binaries = installed.binaries();
    let mut found = false;
    let mut i: usize = 0;
    while i < binaries.len()
        invariant
            i <= binaries@.len(),
            versions_view(binaries@) == installed@,
            found <==> exists|j: int| 0 <= j < i && #[trigger] binaries@[j].binary_name@ == name@,
        decreases binaries@.len() - i,
    {
        assert(versions_view(binaries@)[i as int] == binaries@[i as int]@);
        if str_eq(binaries[i].binary_name.as_str(), name) {
            found = true;
        }
        i = i + 1;
    }
    proof {
        let s = installed@;
        if found {
            let j = choose|j: int| 0 <= j < i && #[trigger] binaries@[j].binary_name@ == name@;
            assert(s[j] == binaries@[j]@);
            assert(s[j].binary_name == name@);
            assert(has_named(s, name@));
        }
        if has_named(s, name@) {
            let j = choose|j: int| 0 <= j < s.len() && #[trigger] s[j].binary_name == name@;
            assert(s[j] == binaries@[j]@);
        }
    }
    if !found {
        return Err(UpdateError::NotInstalled(String::from_str(name)));
    }
    let config = meta.name.config();
    let reinstall = !config.network_based || config.installation_type
        == InstallationType::Standalone;
    assert(reinstall == reinstalls(config@.network_based, config@.installation_type));
    if reinstall {
        return Ok(UpdatePlan::Reinstall);
    }
    Ok(UpdatePlan::CheckNetworks(newest_versions_by_network(installed, name)))
}

/// The networks to update: each network whose newest installed version differs
/// from the newest release for it, with that release's version, in order.
pub open spec fn outdated_spec(
    local: Seq<(Seq<char>, Seq<char>)>,
    latest: Seq<Seq<char>>,
) -> Seq<(Seq<char>, Seq<char>)>
    decreases local.len(),
{
    if local.len() == 0 || latest.len() != local.len() {
        Seq::empty()
    } else {
        let rest = outdated_spec(local.drop_last(), latest.drop_last());
        if local.last().1 == latest.last() {
            rest
        } else {
            rest.push((local.last().0, latest.last()))
        }
    }
}

/// One network is outdated exactly when its installed version differs from
/// the latest release, whatever their order; it is then listed with the
/// latest release's version.
pub proof fn lemma_outdated_one(network: Seq<char>, installed: Seq<char>, latest: Seq<char>)
    ensures
        installed == latest ==> outdated_spec(seq![(network, installed)], seq![latest])
            == Seq::<(Seq<char>, Seq<char>)>::empty(),
        installed != latest ==> outdated_spec(seq![(network, installed)], seq![latest])
            == seq![(network, latest)],
{
    let l = seq![(network, installed)];
    let t = seq![latest];
    assert(l.drop_last() =~= Seq::<(Seq<char>, Seq<char>)>::empty());
    assert(t.drop_last() =~= Seq::<Seq<char>>::empty());
    assert(outdated_spec(l.drop_last(), t.drop_last()) =~= Seq::<(Seq<char>, Seq<char>)>::empty());
    assert(Seq::<(Seq<char>, Seq<char>)>::empty().push((network, latest)) =~= seq![(network, latest)]);
}

/// The networks are judged one by one: the outdated networks of two lists put
/// together are those of the first list followed by those of the second.
pub proof fn lemma_outdated_append(
    l1: Seq<(Seq<char>, Seq<char>)>,
    t1: Seq<Seq<char>>,
    l2: Seq<(Seq<char>, Seq<char>)>,
    t2: Seq<Seq<char>>,
)
    requires
        l1.len() == t1.len(),
        l2.len() == t2.len(),
    ensures
        outdated_spec(l1 + l2, t1 + t2) == outdated_spec(l1, t1) + outdated_spec(l2, t2),
    decreases l2.len(),
{
    if l2.len() == 0 {
        assert(l1 + l2 =~= l1);
        assert(t1 + t2 =~= t1);
        assert(outdated_spec(l1, t1) + outdated_spec(l2, t2) =~= outdated_spec(l1, t1));
    } else {
        lemma_outdated_append(l1, t1, l2.drop_last(), t2.drop_last());
        assert((l1 + l2).drop_last() =~= l1 + l2.drop_last());
        assert((t1 + t2).drop_last() =~= t1 + t2.drop_last());
        assert((l1 + l2).last() == l2.last());
        assert((t1 + t2).last() == t2.last());
        let a = outdated_spec(l1, t1);
        let b = outdated_spec(l2.drop_last(), t2.drop_last());
        if l2.last().1 != t2.last() {
            assert(a + b.push((l2.last().0, t2.last())) =~= (a + b).push((l2.last().0, t2.last())));
        }
    }
}

/// A network whose installed version differs from its latest release is
/// listed, with that release's version, and one whose versions are equal is
/// not: the entry at each position of the lists is judged by equality alone.
pub proof fn lemma_outdated_entry(
    local: Seq<(Seq<char>, Seq<char>)>,
    latest: Seq<Seq<char>>,
    i: int,
)
    requires
        local.len() == latest.len(),
        0 <= i < local.len(),
    ensures
        outdated_spec(local, latest) == outdated_spec(local.take(i), latest.take(i)) + (if local[i].1
            == latest[i] {
            Seq::<(Seq<char>, Seq<char>)>::empty()
        } else {
            seq![(local[i].0, latest[i])]
        }) + outdated_spec(local.skip(i + 1), latest.skip(i + 1)),
{
    let l1 = local.take(i);
    let t1 = latest.take(i);
    let lm = seq![local[i]];
    let tm = seq![latest[i]];
    let l3 = local.skip(i + 1);
    let t3 = latest.skip(i + 1);
    assert(local =~= l1 + lm + l3);
    assert(latest =~= t1 + tm + t3);
    lemma_outdated_append(l1, t1, lm, tm);
    lemma_outdated_append(l1 + lm, t1 + tm, l3, t3);
    lemma_outdated_one(local[i].0, local[i].1, latest[i]);
    assert(lm == seq![(local[i].0, local[i].1)]);
}

/// The networks whose newest installed version (`local`) differs from the
/// newest release (`latest`, one version per entry of `local`).
pub fn outdated_networks(local: &[(String, String)], latest: &[String]) -> (r: Vec<(String, String)>)
    requires
        local@.len() == latest@.len(),
    ensures
        pairs_view(r@) == outdated_spec(
            pairs_view(local@),
            latest@.map_values(|s: String| s@),
        ),
{
    let ghost lv = pairs_view(local@);
    let ghost tv = latest@.map_values(|s: String| s@);
    let n = local.len();
    let mut out: Vec<(String, String)> = Vec::new();
    let mut i: usize = 0;
    assert(lv.subrange(0, 0).len() == 0);
    while i < n
        invariant
            n == local@.len(),
            n == latest@.len(),
            lv == pairs_view(local@),
            tv == latest@.map_values(|s: String| s@),
            i <= n,
            pairs_view(out@) == outdated_spec(lv.subrange(0, i as int), tv.subrange(0, i as int)),
        decreases n - i,
    {
        let ghost before = pairs_view(out@);
        assert(lv.subrange(0, i + 1).drop_last() =~= lv.subrange(0, i as int));
        assert(tv.subrange(0, i + 1).drop_last() =~= tv.subrange(0, i as int));
        assert(lv.subrange(0, i + 1).last() == lv[i as int]);
        assert(tv.subrange(0, i + 1).last() == tv[i as int]);
        if !str_eq(local[i].1.as_str(), latest[i].as_str()) {
            out.push((local[i].0.clone(), latest[i].clone()));
            assert(pairs_view(out@) =~= before.push((lv[i as int].0, tv[i as int])));
        }
        i = i + 1;
    }
    assert(lv.subrange(0, n as int) =~= lv);
    assert(tv.subrange(0, n as int) =~= tv);
    out
}

} // verus!
