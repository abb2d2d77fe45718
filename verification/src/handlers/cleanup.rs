//! `suiup cleanup`: which files of the release-archive cache go.

use vstd::prelude::*;

verus! {

/// A file of the release-archive cache: its name and when it was last
/// modified, in seconds since the Unix epoch.
#[derive(Debug)]
pub struct CachedArchive {
    pub name: String,
    pub modified_secs: u64,
}

/// The number of seconds in a day.
pub const SECONDS_PER_DAY: u64 = 86400;

/// A file goes: every file with `all`, else a file last modified more than
/// `days` days before `now_secs`.
pub open spec fn is_cleanup_target(modified_secs: u64, now_secs: u64, all: bool, days: u32) -> bool {
    all || modified_secs + days * 86400 < now_secs
}

/// The indices, in increasing order, of the files in `files` that pass
/// `is_cleanup_target`.
pub open spec fn cleanup_indices(files: Seq<CachedArchive>, now_secs: u64, all: bool, days: u32) -> Seq<usize>
    decreases files.len(),
{
    if files.len() == 0 {
        Seq::empty()
    } else {
        let rest = cleanup_indices(files.drop_last(), now_secs, all, days);
        if is_cleanup_target(files.last().modified_secs, now_secs, all, days) {
            rest.push((files.len() - 1) as usize)
        } else {
            rest
        }
    }
}

/// The files a cleanup removes, by index: none on a dry run, else each file
/// that `all` or its age selects, in order.
pub fn cleanup_targets(files: &[CachedArchive], now_secs: u64, all: bool, days: u32, dry_run: bool) -> (r: Vec<usize>)
    ensures
        dry_run ==> r@.len() == 0,
        !dry_run ==> r@ == cleanup_indices(files@, now_secs, all, days),
{
    let mut out: Vec<usize> = Vec::new();
    if dry_run {
        return out;
    }
    let keep_secs: u64 = days as u64 * SECONDS_PER_DAY;
    let n = files.len();
    let mut i: usize = 0;
    assert(files@.subrange(0, 0) =~= Seq::<CachedArchive>::empty());
    while i < n
        invariant
            n == files@.len(),
            i <= n,
            keep_secs == days * 86400,
            out@ == cleanup_indices(files@.subrange(0, i as int), now_secs, all, days),
        decreases n - i,
    {
        let ghost prefix = files@.subrange(0, i + 1);
        assert(prefix.drop_last() =~= files@.subrange(0, i as int));
        assert(prefix.last() == files@[i as int]);
        let m = files[i].modified_secs;
        let old_enough = now_secs > m && now_secs - m > keep_secs;
        if all || old_enough {
            out.push(i);
        }
        i = i + 1;
    }
    assert(files@.subrange(0, n as int) =~= files@);
    out
}

/// The files a cleanup removes are exactly the selected ones, each once and
/// in order.
pub proof fn lemma_cleanup_indices(files: Seq<CachedArchive>, now_secs: u64, all: bool, days: u32)
    requires
        files.len() <= usize::MAX,
    ensures
        forall|i: int|
            0 <= i < files.len() ==> (cleanup_indices(files, now_secs, all, days).contains(
                i as usize,
            ) <==> is_cleanup_target(#[trigger] files[i].modified_secs, now_secs, all, days)),
        forall|a: int, b: int|
            0 <= a < b < cleanup_indices(files, now_secs, all, days).len() ==> (#[trigger] cleanup_indices(
                files,
                now_secs,
                all,
                days,
            )[a]) < (#[trigger] cleanup_indices(files, now_secs, all, days)[b]),
        forall|a: int|
            0 <= a < cleanup_indices(files, now_secs, all, days).len() ==> (#[trigger] cleanup_indices(
                files,
                now_secs,
                all,
                days,
            )[a]) < files.len(),
    decreases files.len(),
{
    if files.len() > 0 {
        let d = files.drop_last();
        lemma_cleanup_indices(d, now_secs, all, days);
        let rd = cleanup_indices(d, now_secs, all, days);
        let r = cleanup_indices(files, now_secs, all, days);
        let last = (files.len() - 1) as usize;
        assert forall|i: int| 0 <= i < files.len() implies (r.contains(i as usize)
            <==> is_cleanup_target(#[trigger] files[i].modified_secs, now_secs, all, days)) by {
            if i < d.len() {
                assert(d[i] == files[i]);
                if r.contains(i as usize) {
                    let m = choose|m: int| 0 <= m < r.len() && r[m] == i as usize;
                    if m < rd.len() {
                        assert(rd[m] == i as usize);
                    }
                }
                if rd.contains(i as usize) {
                    let m = choose|m: int| 0 <= m < rd.len() && rd[m] == i as usize;
                    assert(r[m] == i as usize);
                }
            } else {
                if is_cleanup_target(files[i].modified_secs, now_secs, all, days) {
                    assert(r[r.len() - 1] == i as usize);
                } else if r.contains(i as usize) {
                    let m = choose|m: int| 0 <= m < r.len() && r[m] == i as usize;
                    assert(rd[m] == i as usize);
                }
            }
        }
    }
}

} // verus!
