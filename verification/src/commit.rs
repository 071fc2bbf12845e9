//! Committing a staged snapshot: the decision whether it differs from the
//! latest one, and the order of the file operations that commit it.
//!
//! The caller performs each operation on the output directory and reports
//! whether it succeeded; this module decides what comes next.

use crate::fingerprint::same_fingerprint;
use crate::naming::{
    latest_file_name, latest_name, lemma_snapshot_name_injective, snapshot_file_name,
    snapshot_name,
};
use crate::store::Store;
use crate::trusted::clock::unix_seconds_now;
use crate::trusted::digest::sha256;
use vstd::prelude::*;

verus! {

/// Where a commit stands. The first four phases each name the one file
/// operation that the caller is to perform next; the last four are final.
#[derive(Clone, Copy, PartialEq, Eq, Structural, Debug)]
pub enum Phase {
    /// Delete the staged file: the latest snapshot has the same content.
    Discard,
    /// Move the staged file to the destination, by renaming it.
    Rename,
    /// Remove the pointer to the latest snapshot, if there is one.
    Unlink,
    /// Make the pointer a symbolic link to the destination.
    Link,
    /// Final: nothing was committed, for nothing had changed.
    Skipped,
    /// Final: the destination holds the snapshot and the pointer refers to it.
    Committed,
    /// Final: the staged file could not be moved, and is left where it was.
    RenameFailed,
    /// Final: the snapshot is committed, but the pointer could not be made.
    LinkFailed,
}

/// One commit of one staged snapshot.
pub struct CommitRun {
    phase: Phase,
    destination: String,
    latest_link: String,
}

/// A commit as contracts see it.
pub struct CommitRunView {
    pub phase: Phase,
    /// The file name under which the snapshot is committed.
    pub destination: Seq<char>,
    /// The file name of the pointer to the latest snapshot.
    pub latest_link: Seq<char>,
}

impl View for CommitRun {
    type V = CommitRunView;

    closed spec fn view(&self) -> CommitRunView {
        CommitRunView {
            phase: self.phase,
            destination: self.destination@,
            latest_link: self.latest_link@,
        }
    }
}

/// Whether a phase is final.
pub open spec fn is_final(phase: Phase) -> bool {
    phase is Skipped || phase is Committed || phase is RenameFailed || phase is LinkFailed
}

/// Whether the staged content is that of the latest snapshot, as far as
/// fingerprints tell. Without a latest snapshot there is nothing to equal.
pub open spec fn unchanged(latest: Option<Seq<u8>>, staged: Seq<u8>) -> bool {
    latest matches Some(content) && sha256(content) == sha256(staged)
}

/// The commit that starts at `seconds` for a staged snapshot, given what the
/// pointer to the latest snapshot resolves to.
pub open spec fn begun(
    latest: Option<Seq<u8>>,
    staged: Seq<u8>,
    prefix: Seq<char>,
    seconds: int,
) -> CommitRunView {
    CommitRunView {
        phase: if unchanged(latest, staged) {
            Phase::Discard
        } else {
            Phase::Rename
        },
        destination: snapshot_name(prefix, seconds),
        latest_link: latest_name(prefix),
    }
}

/// The phase that follows `phase` once its operation has been tried.
/// Discarding the staged file and removing the old pointer are best effort;
/// a failed rename or a failed link ends the commit.
pub open spec fn following(phase: Phase, succeeded: bool) -> Phase {
    match phase {
        Phase::Discard => Phase::Skipped,
        Phase::Rename => if succeeded {
            Phase::Unlink
        } else {
            Phase::RenameFailed
        },
        Phase::Unlink => Phase::Link,
        Phase::Link => if succeeded {
            Phase::Committed
        } else {
            Phase::LinkFailed
        },
        _ => phase,
    }
}

/// The content of the latest snapshot, as a contract reads it.
pub open spec fn content_view(latest: Option<&[u8]>) -> Option<Seq<u8>> {
    match latest {
        Some(content) => Some(content@),
        None => None,
    }
}

impl CommitRun {
    /// Starts the commit of `staged` at `seconds` after the Unix epoch.
    /// `latest` is the content of the snapshot that the pointer resolves to,
    /// or `None` where the pointer is absent or dangling.
    pub fn begin(latest: Option<&[u8]>, staged: &[u8], prefix: &str, seconds: i64) -> (run:
        CommitRun)
        ensures
            run@ == begun(content_view(latest), staged@, prefix@, seconds as int),
    {
        let same = match latest {
            Some(content) => same_fingerprint(content, staged),
            None => false,
        };
        CommitRun {
            phase: if same {
                Phase::Discard
            } else {
                Phase::Rename
            },
            destination: snapshot_file_name(prefix, seconds),
            latest_link: latest_file_name(prefix),
        }
    }

    /// Starts the commit of `staged` at the current time, which it returns
    /// beside the commit.
    pub fn begin_now(latest: Option<&[u8]>, staged: &[u8], prefix: &str) -> (started: (
        i64,
        CommitRun,
    ))
        ensures
            started.1@ == begun(content_view(latest), staged@, prefix@, started.0 as int),
    {
        let seconds: i64 = unix_seconds_now();
        (seconds, CommitRun::begin(latest, staged, prefix, seconds))
    }

    /// Where the commit stands.
    pub fn phase(&self) -> (phase: Phase)
        ensures
            phase == self@.phase,
    {
        self.phase
    }

    /// The file name under which the snapshot is committed.
    pub fn destination(&self) -> (name: &str)
        ensures
            name@ == self@.destination,
    {
        self.destination.as_str()
    }

    /// The file name of the pointer to the latest snapshot.
    pub fn latest_link(&self) -> (name: &str)
        ensures
            name@ == self@.latest_link,
    {
        self.latest_link.as_str()
    }

    /// Takes note of how the operation of the current phase went, and moves
    /// on. In a final phase nothing changes.
    pub fn report(self, succeeded: bool) -> (next: CommitRun)
        ensures
            next@ == (CommitRunView { phase: following(self@.phase, succeeded), ..self@ }),
    {
        let phase = match self.phase {
            Phase::Discard => Phase::Skipped,
            Phase::Rename => if succeeded {
                Phase::Unlink
            } else {
                Phase::RenameFailed
            },
            Phase::Unlink => Phase::Link,
            Phase::Link => if succeeded {
                Phase::Committed
            } else {
                Phase::LinkFailed
            },
            Phase::Skipped => Phase::Skipped,
            Phase::Committed => Phase::Committed,
            Phase::RenameFailed => Phase::RenameFailed,
            Phase::LinkFailed => Phase::LinkFailed,
        };
        CommitRun { phase, destination: self.destination, latest_link: self.latest_link }
    }
}

/// The directory after the operation of the commit's phase has succeeded.
/// A rename moves the staged file to the destination; final phases have no
/// operation.
pub open spec fn performed(store: Store, run: CommitRunView) -> Store {
    match run.phase {
        Phase::Discard => Store { staged: None, ..store },
        Phase::Rename => match store.staged {
            Some(content) => Store {
                snapshots: store.snapshots.insert(run.destination, content),
                staged: None,
                ..store
            },
            None => store,
        },
        Phase::Unlink => Store { latest: None, ..store },
        Phase::Link => Store { latest: Some(run.destination), ..store },
        _ => store,
    }
}

/// One step of a commit: the operation of the current phase is tried, and the
/// commit moves on. An operation that fails leaves the directory as it was.
pub open spec fn step(state: (CommitRunView, Store), succeeded: bool) -> (CommitRunView, Store) {
    let (run, store) = state;
    (
        CommitRunView { phase: following(run.phase, succeeded), ..run },
        if succeeded {
            performed(store, run)
        } else {
            store
        },
    )
}

/// A commit after a number of steps; `outcomes` says for each whether its
/// operation succeeded. A crash is a sequence that ends early.
pub open spec fn after_steps(run: CommitRunView, store: Store, outcomes: Seq<bool>) -> (
    CommitRunView,
    Store,
)
    decreases outcomes.len(),
{
    if outcomes.len() == 0 {
        (run, store)
    } else {
        step(after_steps(run, store, outcomes.drop_last()), outcomes.last())
    }
}

/// What may be found in the directory while a commit of `content` is in
/// `run.phase`, `before` being the directory when the commit began.
pub open spec fn consistent(
    before: Store,
    content: Seq<u8>,
    run: CommitRunView,
    store: Store,
) -> bool {
    let extended = before.snapshots.insert(run.destination, content);
    match run.phase {
        Phase::Discard | Phase::Rename | Phase::RenameFailed => store == before,
        Phase::Skipped => store == (Store { staged: store.staged, ..before }),
        Phase::Unlink => store == (Store {
            snapshots: extended,
            latest: before.latest,
            staged: None,
        }),
        Phase::Link | Phase::LinkFailed => {
            &&& store.snapshots == extended
            &&& store.staged is None
            &&& store.latest is None || store.latest == before.latest
        },
        Phase::Committed => store == (Store {
            snapshots: extended,
            latest: Some(run.destination),
            staged: None,
        }),
    }
}

/// The directory once a commit of `staged` at `seconds` has run to its end
/// with every operation succeeding.
pub open spec fn committed(
    store: Store,
    staged: Seq<u8>,
    prefix: Seq<char>,
    seconds: int,
) -> Store {
    let run = begun(store.resolved(), staged, prefix, seconds);
    step(step(step((run, store.with_staged(staged)), true), true), true).1
}

/// A commit is atomic. However many of its operations have been tried, and
/// whichever failed, the directory is in one of a few states. Up to the
/// rename, and after a rename that fails, it is as it was, staged file
/// included. After the rename it holds the new snapshot beside all earlier
/// ones, and the pointer is the old one, missing, or once the commit is
/// complete the new one. Where the destination is a new name, no earlier
/// snapshot is lost or altered; and a pointer that referred to a snapshot when
/// the commit began refers to one at every point.
pub proof fn lemma_commit_is_atomic(
    before: Store,
    latest: Option<Seq<u8>>,
    content: Seq<u8>,
    prefix: Seq<char>,
    seconds: int,
    outcomes: Seq<bool>,
)
    requires
        before.staged == Some(content),
    ensures
        ({
            let run = begun(latest, content, prefix, seconds);
            let (now, store) = after_steps(run, before, outcomes);
            &&& now.destination == run.destination
            &&& now.latest_link == run.latest_link
            &&& consistent(before, content, now, store)
            &&& !before.snapshots.dom().contains(run.destination) ==> store.preserves(before)
            &&& before.pointer_valid() ==> store.pointer_valid()
        }),
    decreases outcomes.len(),
{
    if outcomes.len() > 0 {
        lemma_commit_is_atomic(before, latest, content, prefix, seconds, outcomes.drop_last());
    }
}

/// A commit ends. From its beginning, three operations at most lead to a
/// final phase, and a final phase is never left.
pub proof fn lemma_commit_ends(
    store: Store,
    latest: Option<Seq<u8>>,
    content: Seq<u8>,
    prefix: Seq<char>,
    seconds: int,
    outcomes: Seq<bool>,
)
    requires
        outcomes.len() >= 3,
    ensures
        is_final(after_steps(begun(latest, content, prefix, seconds), store, outcomes).0.phase),
    decreases outcomes.len(),
{
    let run = begun(latest, content, prefix, seconds);
    if outcomes.len() == 3 {
        let two = outcomes.drop_last();
        let one = two.drop_last();
        let none = one.drop_last();
        assert(after_steps(run, store, none) == (run, store));
        assert(after_steps(run, store, one) == step((run, store), one.last()));
        assert(after_steps(run, store, two) == step(after_steps(run, store, one), two.last()));
    } else {
        lemma_commit_ends(store, latest, content, prefix, seconds, outcomes.drop_last());
    }
}

/// Deduplication is idempotent. After a commit of some content has run to
/// its end, a second commit of the same content, at whatever time, finds
/// nothing changed: it discards its staged file, and leaves the snapshots and
/// the pointer as the first commit left them. From an empty directory the
/// two together leave exactly one snapshot.
pub proof fn lemma_rerun_is_skipped(
    store: Store,
    staged: Seq<u8>,
    prefix: Seq<char>,
    first: int,
    second: int,
)
    ensures
        ({
            let once = committed(store, staged, prefix, first);
            &&& begun(once.resolved(), staged, prefix, second).phase == Phase::Discard
            &&& committed(once, staged, prefix, second) == once
            &&& store.snapshots == Map::<Seq<char>, Seq<u8>>::empty() ==> once.snapshots.dom()
                == set![snapshot_name(prefix, first)]
        }),
{
    let once = committed(store, staged, prefix, first);
    if store.snapshots == Map::<Seq<char>, Seq<u8>>::empty() {
        assert(once.snapshots.dom() =~= set![snapshot_name(prefix, first)]);
    }
}

/// A change is detected. Where the fingerprint of the staged content differs
/// from that of the latest snapshot, or the pointer resolves to nothing, a
/// commit that runs to its end adds the staged content under the name for its
/// time, leaves every other name as it was, and points the pointer at it.
pub proof fn lemma_change_is_committed(
    store: Store,
    staged: Seq<u8>,
    prefix: Seq<char>,
    seconds: int,
)
    requires
        !unchanged(store.resolved(), staged),
    ensures
        ({
            let name = snapshot_name(prefix, seconds);
            let after = committed(store, staged, prefix, seconds);
            &&& after.snapshots == store.snapshots.insert(name, staged)
            &&& after.latest == Some(name)
            &&& after.resolved() == Some(staged)
            &&& after.staged is None
        }),
{
}

/// A later change is a new snapshot. Of two commits of contents with
/// different fingerprints, the second at a later time than the first, the
/// second adds its content under a name of its own, which differs from the
/// name for the first time, and the pointer refers to it.
pub proof fn lemma_later_change_is_a_new_snapshot(
    store: Store,
    first_staged: Seq<u8>,
    second_staged: Seq<u8>,
    prefix: Seq<char>,
    first: int,
    second: int,
)
    requires
        first < second,
        sha256(first_staged) != sha256(second_staged),
    ensures
        ({
            let once = committed(store, first_staged, prefix, first);
            let twice = committed(once, second_staged, prefix, second);
            let name = snapshot_name(prefix, second);
            &&& name != snapshot_name(prefix, first)
            &&& twice.snapshots == once.snapshots.insert(name, second_staged)
            &&& twice.latest == Some(name)
        }),
{
    let once = committed(store, first_staged, prefix, first);
    lemma_snapshot_name_injective(prefix, first, second);
    assert(!unchanged(once.resolved(), second_staged));
    lemma_change_is_committed(once, second_staged, prefix, second);
}

} // verus!
