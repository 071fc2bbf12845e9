//! The output directory as the laws of this crate see it: the committed
//! snapshots, the pointer to the latest one, and the staged file.

use vstd::prelude::*;

verus! {

/// One state of the output directory.
pub struct Store {
    /// The committed snapshots: file name to content.
    pub snapshots: Map<Seq<char>, Seq<u8>>,
    /// The file name that the pointer to the latest snapshot refers to;
    /// `None` while there is no pointer.
    pub latest: Option<Seq<char>>,
    /// The content of the staged file, while there is one.
    pub staged: Option<Seq<u8>>,
}

impl Store {
    /// The content that the pointer resolves to: `None` where the pointer is
    /// absent, or refers to no snapshot.
    pub open spec fn resolved(self) -> Option<Seq<u8>> {
        match self.latest {
            Some(target) => if self.snapshots.dom().contains(target) {
                Some(self.snapshots[target])
            } else {
                None
            },
            None => None,
        }
    }

    /// The pointer, if there is one, refers to a committed snapshot.
    pub open spec fn pointer_valid(self) -> bool {
        self.latest matches Some(target) ==> self.snapshots.dom().contains(target)
    }

    /// Every snapshot of `earlier` is still there, with the content it had.
    pub open spec fn preserves(self, earlier: Store) -> bool {
        forall|name: Seq<char>| #[trigger]
            earlier.snapshots.dom().contains(name) ==> self.snapshots.dom().contains(name)
                && self.snapshots[name] == earlier.snapshots[name]
    }

    /// The same directory without the snapshots named in `names`.
    pub open spec fn without(self, names: Seq<Seq<char>>) -> Store {
        Store { snapshots: self.snapshots.remove_keys(names.to_set()), ..self }
    }

    /// The same directory with `content` staged in it.
    pub open spec fn with_staged(self, content: Seq<u8>) -> Store {
        Store { staged: Some(content), ..self }
    }
}

} // verus!
