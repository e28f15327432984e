//! The Trash keeps deleted aliases for 30 days, newest first.

use vstd::prelude::*;
use vstd::multiset::Multiset;
use crate::alias_entry::{AliasEntry, TRASH_RETENTION_SECONDS};

verus! {

/// A deleted alias and the Unix time it was deleted at.
#[derive(Clone, Debug)]
pub struct TrashEntry {
    pub alias: AliasEntry,
    pub deleted_at: u64,
}

/// Something in a Trash: it knows when it was deleted.
pub trait Deleted: Sized {
    /// The Unix time the item was deleted at.
    spec fn deleted_time(&self) -> u64;

    /// The Unix time the item was deleted at.
    fn deleted_at_secs(&self) -> (r: u64)
        ensures
            r == self.deleted_time(),
    ;
}

impl Deleted for TrashEntry {
    open spec fn deleted_time(&self) -> u64 {
        self.deleted_at
    }

    fn deleted_at_secs(&self) -> (r: u64) {
        self.deleted_at
    }
}

/// `now.saturating_sub(then)`.
pub open spec fn saturating_sub(now: u64, then: u64) -> int {
    if now >= then {
        now - then
    } else {
        0
    }
}

/// Whether an entry deleted at `deleted_at` is still recoverable at `now`.
pub open spec fn still_recoverable(deleted_at: u64, now: u64) -> bool {
    saturating_sub(now, deleted_at) < TRASH_RETENTION_SECONDS
}

/// The entries still recoverable at `now`, in their original order.
pub open spec fn keep_recoverable<T: Deleted>(s: Seq<T>, now: u64) -> Seq<T>
    decreases s.len(),
{
    if s.len() == 0 {
        Seq::empty()
    } else {
        let prev = keep_recoverable(s.drop_last(), now);
        if still_recoverable(s.last().deleted_time(), now) {
            prev.push(s.last())
        } else {
            prev
        }
    }
}

/// Inserts `x` into a newest-first list after every entry at least as new.
pub open spec fn insert_newest_first<T: Deleted>(sorted: Seq<T>, x: T) -> Seq<T>
    decreases sorted.len(),
{
    if sorted.len() == 0 {
        seq![x]
    } else if sorted.last().deleted_time() >= x.deleted_time() {
        sorted.push(x)
    } else {
        insert_newest_first(sorted.drop_last(), x).push(sorted.last())
    }
}

/// The entries ordered newest first; entries deleted at the same second keep
/// their relative order (a stable sort, as `sort_by` is).
pub open spec fn newest_first<T: Deleted>(s: Seq<T>) -> Seq<T>
    decreases s.len(),
{
    if s.len() == 0 {
        Seq::empty()
    } else {
        insert_newest_first(newest_first(s.drop_last()), s.last())
    }
}

/// Whether the entries are ordered newest first.
pub open spec fn is_newest_first<T: Deleted>(s: Seq<T>) -> bool {
    forall|i: int, j: int| 0 <= i < j < s.len() ==> s[i].deleted_time() >= s[j].deleted_time()
}

proof fn lemma_insert_at<T: Deleted>(sorted: Seq<T>, x: T, p: int)
    requires
        0 <= p <= sorted.len(),
        forall|j: int| p <= j < sorted.len() ==> sorted[j].deleted_time() < x.deleted_time(),
        p == 0 || sorted[p - 1].deleted_time() >= x.deleted_time(),
    ensures
        insert_newest_first(sorted, x) == sorted.take(p).push(x) + sorted.skip(p),
    decreases sorted.len() - p,
{
    if sorted.len() == 0 {
        assert(sorted.take(p).push(x) + sorted.skip(p) =~= seq![x]);
    } else if p == sorted.len() {
        assert(sorted.take(p).push(x) + sorted.skip(p) =~= sorted.push(x));
    } else {
        let d = sorted.drop_last();
        lemma_insert_at(d, x, p);
        assert(sorted.take(p).push(x) + sorted.skip(p) =~= (d.take(p).push(x) + d.skip(p)).push(
            sorted.last(),
        ));
    }
}

proof fn lemma_insert_sorted<T: Deleted>(sorted: Seq<T>, x: T)
    requires
        is_newest_first(sorted),
    ensures
        is_newest_first(insert_newest_first(sorted, x)),
        insert_newest_first(sorted, x).to_multiset() == sorted.to_multiset().insert(x),
    decreases sorted.len(),
{
    broadcast use vstd::seq_lib::group_to_multiset_ensures;

    if sorted.len() == 0 {
        assert(seq![x] =~= Seq::<T>::empty().push(x));
    } else if sorted.last().deleted_time() >= x.deleted_time() {
    } else {
        let d = sorted.drop_last();
        assert(is_newest_first(d));
        lemma_insert_sorted(d, x);
        let r = insert_newest_first(d, x);
        assert(sorted =~= d.push(sorted.last()));
        assert forall|k: int| 0 <= k < r.len() implies r[k].deleted_time() >= sorted.last().deleted_time() by {
            assert(r.to_multiset().count(r[k]) > 0);
            assert(r.to_multiset() == d.to_multiset().insert(x));
            if r[k] != x {
                assert(d.to_multiset().count(r[k]) > 0);
                let m = choose|m: int| 0 <= m < d.len() && d[m] == r[k];
                assert(sorted[m] == d[m]);
            }
        }
        assert(r.push(sorted.last()).to_multiset() =~= sorted.to_multiset().insert(x));
    }
}

/// The newest-first order is sorted and holds exactly the given entries.
pub proof fn lemma_newest_first<T: Deleted>(s: Seq<T>)
    ensures
        is_newest_first(newest_first(s)),
        newest_first(s).to_multiset() == s.to_multiset(),
    decreases s.len(),
{
    broadcast use vstd::seq_lib::group_to_multiset_ensures;

    if s.len() > 0 {
        lemma_newest_first(s.drop_last());
        lemma_insert_sorted(newest_first(s.drop_last()), s.last());
        assert(s =~= s.drop_last().push(s.last()));
    }
}

/// Whether every entry is still recoverable.
pub proof fn lemma_keep_recoverable<T: Deleted>(s: Seq<T>, now: u64)
    ensures
        forall|i: int|
            0 <= i < keep_recoverable(s, now).len() ==> still_recoverable(
                #[trigger] keep_recoverable(s, now)[i].deleted_time(),
                now,
            ),
        forall|i: int|
            0 <= i < s.len() && still_recoverable(s[i].deleted_time(), now) ==> keep_recoverable(
                s,
                now,
            ).contains(#[trigger] s[i]),
    decreases s.len(),
{
    if s.len() > 0 {
        lemma_keep_recoverable(s.drop_last(), now);
        let prev = keep_recoverable(s.drop_last(), now);
        assert forall|i: int|
            0 <= i < s.len() && still_recoverable(s[i].deleted_time(), now) implies keep_recoverable(
            s,
            now,
        ).contains(#[trigger] s[i]) by {
            if i < s.len() - 1 {
                assert(s.drop_last()[i] == s[i]);
                let k = choose|k: int| 0 <= k < prev.len() && prev[k] == s[i];
                assert(keep_recoverable(s, now)[k] == s[i]);
            } else {
                assert(keep_recoverable(s, now).last() == s[i]);
            }
        }
    }
}

/// Orders entries newest first, keeping the relative order of entries
/// deleted at the same second.
pub fn sort_newest_first<T: Deleted>(entries: &mut Vec<T>)
    ensures
        final(entries)@ == newest_first(old(entries)@),
{
    let ghost kv = entries@;
    let mut kept: Vec<T> = Vec::new();
    std::mem::swap(&mut kept, entries);
    let mut sorted: Vec<T> = Vec::new();
    let mut j: usize = 0;
    let m = kept.len();
    while kept.len() > 0
        invariant
            m == kv.len(),
            j + kept@.len() == m,
            kept@ == kv.skip(j as int),
            sorted@ == newest_first(kv.take(j as int)),
        decreases kept@.len(),
    {
        let ghost before = kept@;
        let x = kept.remove(0);
        assert(before[0] == kv[j as int]);
        assert(kept@ =~= kv.skip(j + 1));
        assert(kv.take(j + 1).drop_last() =~= kv.take(j as int));
        let stamp = x.deleted_at_secs();
        let mut p = sorted.len();
        while p > 0 && sorted[p - 1].deleted_at_secs() < stamp
            invariant
                p <= sorted.len(),
                stamp == x.deleted_time(),
                forall|k: int| p <= k < sorted@.len() ==> sorted@[k].deleted_time() < x.deleted_time(),
            decreases p,
        {
            p = p - 1;
        }
        proof {
            lemma_insert_at(sorted@, x, p as int);
        }
        sorted.insert(p, x);
        assert(sorted@ =~= newest_first(kv.take(j + 1)));
        j = j + 1;
    }
    assert(kv.take(m as int) =~= kv);
    *entries = sorted;
}

/// Enforces the 30-day retention: drops entries older than that and orders
/// the rest newest first. Tells whether any entry was dropped.
pub fn retain_current_trash_entries<T: Deleted>(entries: &mut Vec<T>, now: u64) -> (changed: bool)
    ensures
        final(entries)@ == newest_first(keep_recoverable(old(entries)@, now)),
        changed == (final(entries)@.len() != old(entries)@.len()),
        is_newest_first(final(entries)@),
        forall|i: int|
            0 <= i < final(entries)@.len() ==> still_recoverable(
                #[trigger] final(entries)@[i].deleted_time(),
                now,
            ),
{
    let ghost original = entries@;
    let original_len = entries.len();
    let mut pending: Vec<T> = Vec::new();
    std::mem::swap(&mut pending, entries);
    let mut kept: Vec<T> = Vec::new();
    let mut i: usize = 0;
    let n = pending.len();
    while pending.len() > 0
        invariant
            n == original.len(),
            i + pending@.len() == n,
            pending@ == original.skip(i as int),
            kept@ == keep_recoverable(original.take(i as int), now),
        decreases pending@.len(),
    {
        let ghost before = pending@;
        let x = pending.remove(0);
        assert(before[0] == original[i as int]);
        assert(pending@ =~= original.skip(i + 1));
        assert(original.take(i + 1).drop_last() =~= original.take(i as int));
        let stamp = x.deleted_at_secs();
        let recoverable = if now >= stamp {
            now - stamp < TRASH_RETENTION_SECONDS
        } else {
            true
        };
        if recoverable {
            kept.push(x);
        }
        i = i + 1;
    }
    assert(original.take(n as int) =~= original);
    let ghost kv = kept@;
    sort_newest_first(&mut kept);
    proof {
        broadcast use vstd::seq_lib::group_to_multiset_ensures;

        lemma_newest_first(kv);
        lemma_keep_recoverable(original, now);
        assert forall|k: int| 0 <= k < kept@.len() implies still_recoverable(
            #[trigger] kept@[k].deleted_time(),
            now,
        ) by {
            assert(kept@.to_multiset().count(kept@[k]) > 0);
            assert(kv.to_multiset().count(kept@[k]) > 0);
            let q = choose|q: int| 0 <= q < kv.len() && kv[q] == kept@[k];
        }
        assert(kept@.len() == kept@.to_multiset().len());
        assert(kv.len() == kv.to_multiset().len());
    }
    *entries = kept;
    entries.len() != original_len
}

} // verus!
