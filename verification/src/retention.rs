//! Retention: which of the files in the output directory a prune pass keeps,
//! and which it removes.
//!
//! The caller lists the directory and removes the files; this module decides
//! which.

use crate::naming::{
    decimal, latest_file_name, latest_name, lemma_same_width_order,
    lemma_snapshot_name_injective, lemma_snapshot_name_is_no_pointer, snapshot_name, texts,
};
use crate::order::{
    has_prefix, lemma_lex_le_total, lemma_lex_le_transitive, lemma_newest_first_is_total,
    name_comes_first, name_le, name_starts_with, newest_first,
};
use crate::store::Store;
use vstd::prelude::*;
use vstd::relations::*;
use vstd::seq_lib::*;
use vstd::string::*;
use vstd::utf8::encode_utf8;

verus! {

/// What a prune pass does with the snapshots of a directory: the names it
/// keeps and the names it removes, each from the greatest name down.
pub struct PrunePlan {
    pub keep: Vec<String>,
    pub remove: Vec<String>,
}

/// The file name of a directory entry as contracts see it; `None` stands
/// for a name that is not valid Unicode.
pub open spec fn entry_view(entry: Option<String>) -> Option<Seq<char>> {
    match entry {
        Some(name) => Some(name@),
        None => None,
    }
}

/// The file names of a directory listing.
pub open spec fn entry_views(entries: Seq<Option<String>>) -> Seq<Option<Seq<char>>> {
    entries.map_values(|entry: Option<String>| entry_view(entry))
}

/// Whether a directory entry counts as a snapshot: its name is valid
/// Unicode, starts with the prefix, and is not that of the pointer to the
/// latest snapshot.
pub open spec fn is_candidate(entry: Option<Seq<char>>, prefix: Seq<char>) -> bool {
    entry matches Some(name) && has_prefix(name, prefix) && name != latest_name(prefix)
}

/// The names of the entries that count as snapshots, in the order of the
/// listing.
pub open spec fn candidates(entries: Seq<Option<Seq<char>>>, prefix: Seq<char>) -> Seq<Seq<char>>
    decreases entries.len(),
{
    if entries.len() == 0 {
        Seq::empty()
    } else {
        let earlier = candidates(entries.drop_last(), prefix);
        if is_candidate(entries.last(), prefix) {
            earlier.push(entries.last()->0)
        } else {
            earlier
        }
    }
}

/// The snapshots of a listing from the greatest name down: the retention
/// set in its order.
pub open spec fn retention_order(entries: Seq<Option<Seq<char>>>, prefix: Seq<char>) -> Seq<
    Seq<char>,
> {
    candidates(entries, prefix).sort_by(newest_first())
}

/// The names that are kept of `ordered`: the first `limit`, or all where
/// there are no more.
pub open spec fn kept(ordered: Seq<Seq<char>>, limit: nat) -> Seq<Seq<char>> {
    if limit < ordered.len() {
        ordered.take(limit as int)
    } else {
        ordered
    }
}

/// The names that are removed of `ordered`: all beyond the first `limit`.
pub open spec fn removed(ordered: Seq<Seq<char>>, limit: nat) -> Seq<Seq<char>> {
    if limit < ordered.len() {
        ordered.skip(limit as int)
    } else {
        Seq::empty()
    }
}

/// Whether the entry `name` counts as a snapshot under `prefix`, whose
/// pointer is named `latest`.
fn counts_as_snapshot(name: &String, prefix: &str, latest: &String) -> (yes: bool)
    requires
        latest@ == latest_name(prefix@),
    ensures
        yes == is_candidate(Some(name@), prefix@),
{
    name_starts_with(name.as_str(), prefix) && !(*name == *latest)
}

/// Puts `name` into `sorted`, behind every name that comes no earlier.
fn insert_sorted(sorted: &mut Vec<String>, name: String)
    requires
        sorted_by(texts(old(sorted)@), newest_first()),
    ensures
        sorted_by(texts(final(sorted)@), newest_first()),
        texts(final(sorted)@).to_multiset() == texts(old(sorted)@).to_multiset().insert(name@),
{
    let ghost before = texts(sorted@);
    let mut at: usize = 0;
    while at < sorted.len() && name_comes_first(name.as_str(), sorted[at].as_str())
        invariant
            at <= sorted.len(),
            sorted@ == old(sorted)@,
            before == texts(sorted@),
            forall|k: int| 0 <= k < at ==> name_le(name@, #[trigger] before[k]),
        decreases sorted.len() - at,
    {
        assert(before[at as int] == sorted@[at as int]@);
        at += 1;
    }
    proof {
        if at < sorted.len() {
            assert(before[at as int] == sorted@[at as int]@);
            lemma_lex_le_total(encode_utf8(name@), encode_utf8(before[at as int]));
        }
    }
    sorted.insert(at, name);
    proof {
        let after = texts(sorted@);
        assert(after =~= before.insert(at as int, name@));
        to_multiset_insert(before, at as int, name@);
        assert forall|i: int, j: int| 0 <= i < j < after.len() implies #[trigger] newest_first()(
            after[i],
            after[j],
        ) by {
            if j < at {
                assert(newest_first()(before[i], before[j]));
            } else if j == at {
                assert(name_le(name@, before[i]));
            } else if i == at {
                let pivot = before[at as int];
                let other = before[j - 1];
                if j - 1 > at {
                    assert(newest_first()(pivot, other));
                    lemma_lex_le_transitive(
                        encode_utf8(other),
                        encode_utf8(pivot),
                        encode_utf8(name@),
                    );
                }
            } else if i < at {
                assert(newest_first()(before[i], before[j - 1]));
            } else {
                assert(newest_first()(before[i - 1], before[j - 1]));
            }
        }
    }
}

/// Plans a prune pass over the listing of the output directory.
///
/// The entries that count as snapshots are those whose name starts with the
/// prefix, but for the pointer to the latest snapshot; an entry of `None`, a
/// name that is not valid Unicode, never counts. They are sorted from the
/// greatest name down. The first `number_of_backups` are kept, all others
/// are to be removed, in that order.
pub fn prune_zonecfg_backups(
    entries: &Vec<Option<String>>,
    prefix: &str,
    number_of_backups: usize,
) -> (plan: PrunePlan)
    ensures
        texts(plan.keep@) == kept(
            retention_order(entry_views(entries@), prefix@),
            number_of_backups as nat,
        ),
        texts(plan.remove@) == removed(
            retention_order(entry_views(entries@), prefix@),
            number_of_backups as nat,
        ),
{
    let ghost views = entry_views(entries@);
    let latest = latest_file_name(prefix);
    let mut sorted: Vec<String> = Vec::new();
    let mut i: usize = 0;
    proof {
        assert(views.take(0) =~= Seq::empty());
        assert(texts(sorted@) =~= Seq::empty());
    }
    while i < entries.len()
        invariant
            i <= entries.len(),
            views == entry_views(entries@),
            latest@ == latest_name(prefix@),
            sorted_by(texts(sorted@), newest_first()),
            texts(sorted@).to_multiset() == candidates(views.take(i as int), prefix@).to_multiset(),
        decreases entries.len() - i,
    {
        proof {
            assert(views.take(i + 1).drop_last() =~= views.take(i as int));
            assert(views.take(i + 1).last() == entry_view(entries@[i as int]));
        }
        match &entries[i] {
            Some(name) => {
                if counts_as_snapshot(name, prefix, &latest) {
                    proof {
                        to_multiset_build(candidates(views.take(i as int), prefix@), name@);
                    }
                    insert_sorted(&mut sorted, name.clone());
                }
            },
            None => {},
        }
        i += 1;
    }
    proof {
        assert(views.take(i as int) =~= views);
        let found = candidates(views, prefix@);
        lemma_newest_first_is_total();
        found.lemma_sort_by_ensures(newest_first());
        lemma_sorted_unique(texts(sorted@), found.sort_by(newest_first()), newest_first());
    }
    let ghost ordered = texts(sorted@);
    if number_of_backups < sorted.len() {
        let remove = sorted.split_off(number_of_backups);
        proof {
            assert(texts(sorted@) =~= ordered.take(number_of_backups as int));
            assert(texts(remove@) =~= ordered.skip(number_of_backups as int));
        }
        PrunePlan { keep: sorted, remove }
    } else {
        let remove: Vec<String> = Vec::new();
        assert(texts(remove@) =~= Seq::empty());
        PrunePlan { keep: sorted, remove }
    }
}

/// A prune pass under way: the files to remove, how many of them are
/// removed, and whether a removal has failed.
pub struct PruneRun {
    remove: Vec<String>,
    done: usize,
    failed: bool,
}

/// A prune pass as contracts see it.
pub struct PruneRunView {
    /// The names to remove, in the order of their removal.
    pub remove: Seq<Seq<char>>,
    /// How many of them have been removed.
    pub done: nat,
    /// Whether the removal of `remove[done]` has failed.
    pub failed: bool,
}

impl PruneRunView {
    /// No more is removed than was planned, and a failure names a file.
    pub open spec fn well_formed(self) -> bool {
        &&& self.done <= self.remove.len()
        &&& self.failed ==> self.done < self.remove.len()
    }

    /// Whether the pass is over: nothing is left to remove, or a removal
    /// has failed.
    pub open spec fn over(self) -> bool {
        self.failed || self.done == self.remove.len()
    }

    /// The pass once the removal of the pending file has been tried. A
    /// failure ends the pass at once; a pass that is over stays as it is.
    pub open spec fn following(self, succeeded: bool) -> PruneRunView {
        if self.over() {
            self
        } else if succeeded {
            PruneRunView { done: self.done + 1, ..self }
        } else {
            PruneRunView { failed: true, ..self }
        }
    }

    /// The pass after a number of removals have been tried.
    pub open spec fn after(self, outcomes: Seq<bool>) -> PruneRunView
        decreases outcomes.len(),
    {
        if outcomes.len() == 0 {
            self
        } else {
            self.after(outcomes.drop_last()).following(outcomes.last())
        }
    }

    /// The names of the files that are removed so far.
    pub open spec fn removed_files(self) -> Seq<Seq<char>> {
        self.remove.take(self.done as int)
    }
}

impl View for PruneRun {
    type V = PruneRunView;

    closed spec fn view(&self) -> PruneRunView {
        PruneRunView { remove: texts(self.remove@), done: self.done as nat, failed: self.failed }
    }
}

impl PruneRun {
    #[verifier::type_invariant]
    spec fn sound(self) -> bool {
        &&& self.done <= self.remove@.len()
        &&& self.failed ==> self.done < self.remove@.len()
    }

    /// Begins the removals of a plan.
    pub fn begin(plan: PrunePlan) -> (run: PruneRun)
        ensures
            run@ == (PruneRunView { remove: texts(plan.remove@), done: 0, failed: false }),
    {
        PruneRun { remove: plan.remove, done: 0, failed: false }
    }

    /// The file to remove next; `None` once the pass is over.
    pub fn pending(&self) -> (name: Option<&str>)
        ensures
            self@.well_formed(),
            match name {
                Some(name) => !self@.over() && name@ == self@.remove[self@.done as int],
                None => self@.over(),
            },
    {
        proof {
            use_type_invariant(self);
        }
        if self.failed || self.done == self.remove.len() {
            None
        } else {
            Some(self.remove[self.done].as_str())
        }
    }

    /// The file whose removal failed, if one did.
    pub fn failed_on(&self) -> (name: Option<&str>)
        ensures
            self@.well_formed(),
            match name {
                Some(name) => self@.failed && name@ == self@.remove[self@.done as int],
                None => !self@.failed,
            },
    {
        proof {
            use_type_invariant(self);
        }
        if self.failed {
            Some(self.remove[self.done].as_str())
        } else {
            None
        }
    }

    /// How many files are removed so far.
    pub fn removed_count(&self) -> (count: usize)
        ensures
            self@.well_formed(),
            count == self@.done,
    {
        proof {
            use_type_invariant(self);
        }
        self.done
    }

    /// Takes note of whether the pending file was removed, and moves on.
    pub fn report(self, succeeded: bool) -> (next: PruneRun)
        ensures
            next@ == self@.following(succeeded),
    {
        proof {
            use_type_invariant(&self);
        }
        if self.failed || self.done == self.remove.len() {
            self
        } else if succeeded {
            PruneRun { remove: self.remove, done: self.done + 1, failed: false }
        } else {
            PruneRun { remove: self.remove, done: self.done, failed: true }
        }
    }
}

/// The names of the snapshots taken at `times` under a prefix.
pub open spec fn snapshot_names(prefix: Seq<char>, times: Seq<int>) -> Seq<Seq<char>> {
    times.map_values(|seconds: int| snapshot_name(prefix, seconds))
}

/// Times from the latest down, none negative, all written with equally many
/// digits.
pub open spec fn latest_first(times: Seq<int>) -> bool {
    forall|i: int, j: int|
        0 <= i < j < times.len() ==> 0 <= #[trigger] times[j] < #[trigger] times[i] && decimal(
            times[i],
        ).len() == decimal(times[j]).len()
}

/// A committed snapshot counts as one: the entry of a snapshot's name is a
/// candidate under its prefix, and the pointer's name never is.
pub proof fn lemma_snapshots_are_candidates(prefix: Seq<char>, seconds: int)
    ensures
        is_candidate(Some(snapshot_name(prefix, seconds)), prefix),
        !is_candidate(Some(latest_name(prefix)), prefix),
{
    lemma_snapshot_name_is_no_pointer(prefix, seconds);
}

/// The retention bound. A prune pass keeps at most `limit` snapshots, and
/// exactly `limit` where there are more. What it keeps and what it removes
/// are together the snapshots of the listing, each as often as it is listed;
/// the pointer to the latest snapshot is in neither. And no name that is
/// removed is greater than one that is kept.
pub proof fn lemma_retention_bound(entries: Seq<Option<Seq<char>>>, prefix: Seq<char>, limit: nat)
    ensures
        ({
            let found = candidates(entries, prefix);
            let ordered = retention_order(entries, prefix);
            let keep = kept(ordered, limit);
            let remove = removed(ordered, limit);
            &&& keep.len() <= limit
            &&& limit < found.len() ==> keep.len() == limit
            &&& limit >= found.len() ==> keep.len() == found.len() && remove.len() == 0
            &&& keep + remove == ordered
            &&& ordered.to_multiset() == found.to_multiset()
            &&& !ordered.contains(latest_name(prefix))
            &&& forall|i: int, j: int|
                0 <= i < keep.len() && 0 <= j < remove.len() ==> name_le(
                    #[trigger] remove[j],
                    #[trigger] keep[i],
                )
        }),
{
    let found = candidates(entries, prefix);
    let ordered = retention_order(entries, prefix);
    let keep = kept(ordered, limit);
    let remove = removed(ordered, limit);
    lemma_newest_first_is_total();
    found.lemma_sort_by_ensures(newest_first());
    found.to_multiset_ensures();
    ordered.to_multiset_ensures();
    assert(keep + remove =~= ordered);
    lemma_candidates_are_candidates(entries, prefix);
    if ordered.contains(latest_name(prefix)) {
        assert(found.contains(latest_name(prefix)));
        assert(is_candidate(Some(latest_name(prefix)), prefix));
    }
    assert forall|i: int, j: int|
        0 <= i < keep.len() && 0 <= j < remove.len() implies name_le(
        #[trigger] remove[j],
        #[trigger] keep[i],
    ) by {
        assert(keep[i] == ordered[i]);
        assert(remove[j] == ordered[limit + j]);
        assert(newest_first()(ordered[i], ordered[limit + j]));
    }
}

/// Every candidate of a listing is a candidate: it starts with the prefix
/// and is not the pointer's name.
pub proof fn lemma_candidates_are_candidates(entries: Seq<Option<Seq<char>>>, prefix: Seq<char>)
    ensures
        forall|name: Seq<char>|
            candidates(entries, prefix).contains(name) ==> #[trigger] is_candidate(
                Some(name),
                prefix,
            ),
    decreases entries.len(),
{
    if entries.len() > 0 {
        lemma_candidates_are_candidates(entries.drop_last(), prefix);
        let earlier = candidates(entries.drop_last(), prefix);
        assert forall|name: Seq<char>|
            candidates(entries, prefix).contains(name) implies #[trigger] is_candidate(
            Some(name),
            prefix,
        ) by {
            let at = choose|at: int|
                0 <= at < candidates(entries, prefix).len() && candidates(entries, prefix)[at]
                    == name;
            if at < earlier.len() {
                assert(earlier[at] == name);
                assert(earlier.contains(name));
            }
        }
    }
}

/// The most recent snapshots are kept. Where the snapshots of a listing are
/// those taken at `times`, given from the latest down, and all times are
/// written with equally many digits, a prune pass orders them as `times`
/// does. So it keeps the snapshots of the first `limit` times, the most
/// recent ones, and with a limit of one or more the latest snapshot, which
/// the pointer refers to, is among them.
pub proof fn lemma_newest_are_kept(
    entries: Seq<Option<Seq<char>>>,
    prefix: Seq<char>,
    times: Seq<int>,
    limit: nat,
)
    requires
        latest_first(times),
        candidates(entries, prefix).to_multiset() == snapshot_names(prefix, times).to_multiset(),
    ensures
        retention_order(entries, prefix) == snapshot_names(prefix, times),
        limit < times.len() ==> kept(retention_order(entries, prefix), limit) == snapshot_names(
            prefix,
            times.take(limit as int),
        ),
        limit < times.len() ==> removed(retention_order(entries, prefix), limit)
            == snapshot_names(prefix, times.skip(limit as int)),
        limit >= 1 && times.len() >= 1 ==> kept(retention_order(entries, prefix), limit)[0]
            == snapshot_name(prefix, times[0]),
        limit >= 1 && times.len() >= 1 ==> !removed(
            retention_order(entries, prefix),
            limit,
        ).contains(snapshot_name(prefix, times[0])),
{
    let found = candidates(entries, prefix);
    let names = snapshot_names(prefix, times);
    let ordered = retention_order(entries, prefix);
    assert(names.len() == times.len());
    assert forall|i: int, j: int| 0 <= i < j < names.len() implies #[trigger] newest_first()(
        names[i],
        names[j],
    ) by {
        let later = times[i];
        let sooner = times[j];
        assert(0 <= sooner < later && decimal(later).len() == decimal(sooner).len());
        assert(names[i] == snapshot_name(prefix, later));
        assert(names[j] == snapshot_name(prefix, sooner));
        lemma_same_width_order(prefix, sooner, later);
    }
    lemma_newest_first_is_total();
    found.lemma_sort_by_ensures(newest_first());
    lemma_sorted_unique(ordered, names, newest_first());
    if limit < times.len() {
        assert(names.take(limit as int) =~= snapshot_names(prefix, times.take(limit as int)));
        assert(names.skip(limit as int) =~= snapshot_names(prefix, times.skip(limit as int)));
    }
    if limit >= 1 && times.len() >= 1 {
        let gone = removed(ordered, limit);
        let latest = snapshot_name(prefix, times[0]);
        if gone.contains(latest) {
            let at = choose|at: int| 0 <= at < gone.len() && gone[at] == latest;
            let sooner = times[limit + at];
            let later = times[0];
            assert(0 <= sooner < later);
            assert(gone[at] == names[limit + at]);
            lemma_snapshot_name_injective(prefix, sooner, later);
        }
    }
}

/// A prune pass fails fast. Whatever the outcomes of the removals tried,
/// the files removed are the first of the plan, in its order, and none is
/// restored; after a failure nothing more is removed.
pub proof fn lemma_prune_fails_fast(run: PruneRunView, outcomes: Seq<bool>)
    requires
        run.well_formed(),
    ensures
        ({
            let now = run.after(outcomes);
            &&& now.well_formed()
            &&& now.remove == run.remove
            &&& run.done <= now.done <= run.done + outcomes.len()
            &&& run.removed_files().is_prefix_of(now.removed_files())
            &&& run.failed ==> now == run
            &&& now.failed ==> now.following(true) == now
            &&& !now.failed && (forall|i: int| 0 <= i < outcomes.len() ==> outcomes[i])
                ==> now.done == if run.done + outcomes.len() <= run.remove.len() {
                run.done + outcomes.len()
            } else {
                run.remove.len()
            }
        }),
    decreases outcomes.len(),
{
    if outcomes.len() > 0 {
        let earlier = outcomes.drop_last();
        lemma_prune_fails_fast(run, earlier);
        let before = run.after(earlier);
        let now = run.after(outcomes);
        assert(now == before.following(outcomes.last()));
        if !now.failed && (forall|i: int| 0 <= i < outcomes.len() ==> outcomes[i]) {
            assert forall|i: int| 0 <= i < earlier.len() implies earlier[i] by {
                assert(earlier[i] == outcomes[i]);
            }
        }
    }
}

/// A prune pass that spares the snapshot which the pointer refers to leaves
/// the pointer as good as it was: it resolves to the same content. The
/// snapshots that are removed are gone, all others are as they were.
pub proof fn lemma_prune_spares_pointer(store: Store, remove: Seq<Seq<char>>)
    requires
        store.latest matches Some(target) ==> !remove.contains(target),
    ensures
        store.without(remove).resolved() == store.resolved(),
        store.pointer_valid() ==> store.without(remove).pointer_valid(),
        store.without(remove).latest == store.latest,
        forall|name: Seq<char>|
            remove.contains(name) ==> !(#[trigger] store.without(remove).snapshots.dom().contains(
                name,
            )),
        forall|name: Seq<char>|
            store.snapshots.dom().contains(name) && !remove.contains(name) ==> (
            #[trigger] store.without(remove).snapshots.dom().contains(name)) && store.without(
                remove,
            ).snapshots[name] == store.snapshots[name],
{
}

} // verus!
