//! Stable sorting of records by a string key (`sort_by`/`sort_by_key` on a
//! name), with proofs that the result is ordered and a permutation.

use vstd::prelude::*;

use crate::text::{
    lemma_lex_asymmetric, lemma_lex_le_transitive, lex_le,
    lex_lt, str_less,
};

verus! {

broadcast use vstd::seq_lib::group_to_multiset_ensures;

/// A value ordered by a string key.
pub trait SortKey {
    spec fn key_view(&self) -> Seq<char>;
}

/// A record whose key can be read at run time.
pub trait Keyed: SortKey {
    fn key(&self) -> (r: &str)
        ensures
            r@ == self.key_view(),
    ;
}

/// Where `k` goes in `t` so that it follows every element whose key is not
/// greater: the first index whose key is greater than `k`.
pub open spec fn insert_position<T: SortKey>(t: Seq<T>, k: Seq<char>) -> int
    decreases t.len(),
{
    if t.len() == 0 {
        0
    } else if lex_lt(k, t[0].key_view()) {
        0
    } else {
        1 + insert_position(t.drop_first(), k)
    }
}

/// `t` with `x` inserted after every element whose key is not greater.
pub open spec fn insert_sorted<T: SortKey>(t: Seq<T>, x: T) -> Seq<T> {
    t.insert(insert_position(t, x.key_view()), x)
}

/// The stable sort of `s` by key: each element in turn is placed after the
/// elements already placed whose keys are not greater, so elements with equal
/// keys keep their order.
pub open spec fn stable_sort<T: SortKey>(s: Seq<T>) -> Seq<T>
    decreases s.len(),
{
    if s.len() == 0 {
        s
    } else {
        insert_sorted(stable_sort(s.drop_last()), s.last())
    }
}

/// The keys of `s` never decrease.
pub open spec fn is_sorted_by_key<T: SortKey>(s: Seq<T>) -> bool {
    forall|i: int, j: int| 0 <= i < j < s.len() ==> lex_le(s[i].key_view(), s[j].key_view())
}

proof fn lemma_insert_position<T: SortKey>(t: Seq<T>, k: Seq<char>)
    ensures
        0 <= insert_position(t, k) <= t.len(),
        forall|i: int| 0 <= i < insert_position(t, k) ==> !lex_lt(k, #[trigger] t[i].key_view()),
        insert_position(t, k) < t.len() ==> lex_lt(k, t[insert_position(t, k)].key_view()),
    decreases t.len(),
{
    if t.len() > 0 && !lex_lt(k, t[0].key_view()) {
        let d = t.drop_first();
        lemma_insert_position(d, k);
        assert forall|i: int| 0 <= i < insert_position(t, k) implies !lex_lt(
            k,
            #[trigger] t[i].key_view(),
        ) by {
            if i > 0 {
                assert(t[i] == d[i - 1]);
            }
        }
    }
}

/// Inserting at the insert position keeps a sorted sequence sorted.
proof fn lemma_insert_sorted_keeps_order<T: SortKey>(t: Seq<T>, x: T)
    requires
        is_sorted_by_key(t),
    ensures
        is_sorted_by_key(insert_sorted(t, x)),
{
    let k = x.key_view();
    let p = insert_position(t, k);
    lemma_insert_position(t, k);
    let u = insert_sorted(t, x);
    t.insert_ensures(p, x);
    assert forall|i: int, j: int| 0 <= i < j < u.len() implies lex_le(
        u[i].key_view(),
        u[j].key_view(),
    ) by {
        if j < p {
        } else if j == p {
            assert(!lex_lt(k, t[i].key_view()));
        } else if i == p {
            assert(u[j] == t[j - 1]);
            let q = t[p].key_view();
            if j - 1 == p {
                lemma_lex_asymmetric(k, q);
            } else {
                assert(lex_le(q, t[j - 1].key_view()));
                lemma_lex_asymmetric(k, q);
                lemma_lex_le_transitive(k, q, t[j - 1].key_view());
            }
        } else if i < p {
            assert(u[j] == t[j - 1]);
        } else {
            assert(u[i] == t[i - 1]);
            assert(u[j] == t[j - 1]);
        }
    }
}

/// The stable sort orders its elements by key.
pub proof fn lemma_stable_sort_sorted<T: SortKey>(s: Seq<T>)
    ensures
        is_sorted_by_key(stable_sort(s)),
    decreases s.len(),
{
    if s.len() > 0 {
        lemma_stable_sort_sorted(s.drop_last());
        lemma_insert_sorted_keeps_order(stable_sort(s.drop_last()), s.last());
    }
}

/// The stable sort keeps exactly the elements it was given.
pub proof fn lemma_stable_sort_permutation<T: SortKey>(s: Seq<T>)
    ensures
        stable_sort(s).to_multiset() == s.to_multiset(),
        stable_sort(s).len() == s.len(),
    decreases s.len(),
{
    if s.len() > 0 {
        let d = s.drop_last();
        lemma_stable_sort_permutation(d);
        let t = stable_sort(d);
        lemma_insert_position(t, s.last().key_view());
        assert(d.push(s.last()) =~= s);
        assert(insert_sorted(t, s.last()).to_multiset() == t.to_multiset().insert(s.last()));
    }
}

proof fn lemma_insert_position_map<A: SortKey, B: SortKey>(
    t: Seq<A>,
    k: Seq<char>,
    f: spec_fn(A) -> B,
)
    requires
        forall|x: A| #[trigger] f(x).key_view() == x.key_view(),
    ensures
        insert_position(t.map_values(f), k) == insert_position(t, k),
    decreases t.len(),
{
    if t.len() > 0 {
        assert(t.map_values(f)[0] == f(t[0]));
        assert(t.map_values(f).drop_first() =~= t.drop_first().map_values(f));
        lemma_insert_position_map(t.drop_first(), k, f);
    }
}

/// Sorting commutes with a map that keeps keys: sorting records and then
/// viewing them is viewing them and then sorting.
pub proof fn lemma_stable_sort_map<A: SortKey, B: SortKey>(s: Seq<A>, f: spec_fn(A) -> B)
    requires
        forall|x: A| #[trigger] f(x).key_view() == x.key_view(),
    ensures
        stable_sort(s).map_values(f) == stable_sort(s.map_values(f)),
    decreases s.len(),
{
    if s.len() > 0 {
        let d = s.drop_last();
        lemma_stable_sort_map(d, f);
        let t = stable_sort(d);
        let x = s.last();
        lemma_insert_position_map(t, x.key_view(), f);
        lemma_insert_position(t, x.key_view());
        let p = insert_position(t, x.key_view());
        assert(s.map_values(f).drop_last() =~= d.map_values(f));
        assert(s.map_values(f).last() == f(x));
        assert(t.insert(p, x).map_values(f) =~= t.map_values(f).insert(p, f(x)));
    } else {
        assert(s.map_values(f) =~= Seq::<B>::empty());
    }
}

/// Where `k` goes in `t` (see `insert_position`).
fn position_for<T: Keyed>(t: &Vec<T>, k: &str) -> (p: usize)
    ensures
        p == insert_position(t@, k@),
{
    let mut j: usize = 0;
    assert(t@.skip(0) =~= t@);
    while j < t.len() && !str_less(k, t[j].key())
        invariant
            j <= t@.len(),
            insert_position(t@, k@) == j + insert_position(t@.skip(j as int), k@),
        decreases t@.len() - j,
    {
        assert(t@.skip(j as int)[0] == t@[j as int]);
        assert(t@.skip(j as int).drop_first() =~= t@.skip(j + 1));
        j = j + 1;
    }
    proof {
        if j < t@.len() {
            assert(t@.skip(j as int)[0] == t@[j as int]);
        }
    }
    j
}

/// Sorts `v` by key, keeping the order of elements with equal keys
/// (`sort_by` / `sort_by_key` on the key).
pub fn sort_by_key<T: Keyed>(v: Vec<T>) -> (r: Vec<T>)
    ensures
        r@ == stable_sort(v@),
{
    let ghost orig = v@;
    let n = v.len();
    let mut rest = v;
    let mut out: Vec<T> = Vec::new();
    let mut i: usize = 0;
    assert(orig.subrange(0, 0) =~= Seq::<T>::empty());
    assert(orig.subrange(0, n as int) =~= orig);
    while i < n
        invariant
            n == orig.len(),
            i <= n,
            out@ == stable_sort(orig.subrange(0, i as int)),
            rest@ == orig.subrange(i as int, n as int),
        decreases n - i,
    {
        let x = rest.remove(0);
        assert(x == orig[i as int]);
        assert(rest@ =~= orig.subrange(i + 1, n as int));
        let p = position_for(&out, x.key());
        proof {
            lemma_insert_position(out@, x.key_view());
        }
        out.insert(p, x);
        assert(orig.subrange(0, i + 1).drop_last() =~= orig.subrange(0, i as int));
        assert(orig.subrange(0, i + 1).last() == x);
        i = i + 1;
    }
    out
}

} // verus!
