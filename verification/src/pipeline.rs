//! A whole run, from the staged snapshot on: the commit, then the prune
//! pass; and what holds of two runs in succession.

use crate::commit::{begun, committed, lemma_rerun_is_skipped, Phase};
use crate::retention::{lemma_prune_spares_pointer, removed, retention_order};
use crate::store::Store;
use vstd::prelude::*;

verus! {

/// The directory after a run in which every operation succeeds: `staged` is
/// committed at `seconds`, then a prune pass over the listing `entries`
/// removes what exceeds `limit`.
pub open spec fn after_run(
    store: Store,
    staged: Seq<u8>,
    prefix: Seq<char>,
    seconds: int,
    entries: Seq<Option<Seq<char>>>,
    limit: nat,
) -> Store {
    committed(store, staged, prefix, seconds).without(
        removed(retention_order(entries, prefix), limit),
    )
}

/// A run leaves the next one nothing to do. Where the prune pass of a run
/// spares the snapshot that the pointer refers to, a second run with the same
/// staged content, at whatever time, discards it: the directory is left as
/// the first run left it.
pub proof fn lemma_second_run_is_skipped(
    store: Store,
    staged: Seq<u8>,
    prefix: Seq<char>,
    first: int,
    second: int,
    entries: Seq<Option<Seq<char>>>,
    limit: nat,
)
    requires
        committed(store, staged, prefix, first).latest matches Some(target) ==> !removed(
            retention_order(entries, prefix),
            limit,
        ).contains(target),
    ensures
        ({
            let left = after_run(store, staged, prefix, first, entries, limit);
            &&& begun(left.resolved(), staged, prefix, second).phase == Phase::Discard
            &&& committed(left, staged, prefix, second) == left
        }),
{
    let once = committed(store, staged, prefix, first);
    lemma_rerun_is_skipped(store, staged, prefix, first, second);
    lemma_prune_spares_pointer(once, removed(retention_order(entries, prefix), limit));
}

} // verus!
