//! Store-level laws: how reads relate to the mutations that preceded them.
//!
//! Each law is stated over `StoreView`, the mathematical image that the
//! store operations' contracts speak of, so it applies to any sequence of
//! `increment`, `set`, `create_badge` and `delete_badge` calls.

use vstd::prelude::*;

use crate::store::StoreView;

verus! {

/// A name that was never touched reads as zero.
pub proof fn lemma_unseen_reads_zero(v: StoreView, name: Seq<char>)
    requires
        !v.counters.contains_key(name),
    ensures
        v.count_of(name) == 0,
{
}

/// The store after a run of increments of `name`, one per clock reading in
/// `nows`, oldest first.
pub open spec fn after_increments(v: StoreView, name: Seq<char>, nows: Seq<u64>) -> StoreView
    decreases nows.len(),
{
    if nows.len() == 0 {
        v
    } else {
        let prev = after_increments(v, name, nows.drop_last());
        prev.touched(name, (prev.count_of(name) + 1) as u64, nows.last())
    }
}

/// Incrementing a never-seen name `k` times in a row makes it read as `k`;
/// in particular every single increment raised the count by exactly one.
pub proof fn lemma_k_increments_count_k(v: StoreView, name: Seq<char>, nows: Seq<u64>)
    requires
        !v.counters.contains_key(name),
        nows.len() <= u64::MAX,
    ensures
        after_increments(v, name, nows).count_of(name) == nows.len(),
    decreases nows.len(),
{
    if nows.len() > 0 {
        lemma_k_increments_count_k(v, name, nows.drop_last());
    }
}

/// Setting a counter and then reading it yields exactly the value written,
/// also when the value is below the one it had.
pub proof fn lemma_set_then_get(v: StoreView, name: Seq<char>, value: u64, now: u64)
    ensures
        v.touched(name, value, now).count_of(name) == value,
{
}

/// After an increment or a set of `name` the badge mirrors the counter and
/// carries the access time; with a clock that did not go backwards the
/// recorded access time never decreases.
pub proof fn lemma_touched_badge_consistent(v: StoreView, name: Seq<char>, count: u64, now: u64)
    ensures
        v.touched(name, count, now).badges.contains_key(name),
        v.touched(name, count, now).badges[name].count == v.touched(name, count, now).count_of(
            name,
        ),
        v.touched(name, count, now).badges[name].last_accessed == now,
        v.badges.contains_key(name) && now >= v.badges[name].last_accessed ==> v.touched(
            name,
            count,
            now,
        ).badges[name].last_accessed >= v.badges[name].last_accessed,
{
}

/// A freshly created badge reads back with its initial count in both the
/// counter map and the badge map.
pub proof fn lemma_created_counts(v: StoreView, name: Seq<char>, count: u64, now: u64)
    ensures
        v.created(name, count, now).count_of(name) == count,
        v.created(name, count, now).badges.contains_key(name),
        v.created(name, count, now).badges[name].count == count,
{
}

/// Deleting a badge removes counter and badge together: the name reads as
/// zero and has no badge.
pub proof fn lemma_delete_removes_both(v: StoreView, name: Seq<char>)
    ensures
        v.removed(name).count_of(name) == 0,
        !v.removed(name).counters.contains_key(name),
        !v.removed(name).badges.contains_key(name),
{
}

} // verus!
