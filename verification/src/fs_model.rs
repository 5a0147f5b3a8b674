//! The snapshot model of a directory tree.
//!
//! The walker works on plain values: a directory is its (possibly failed)
//! listing together with the text of its rule file, if one exists.  The caller
//! takes the snapshot from the real filesystem; every decision the cleaner
//! makes is a function of this data alone.

use vstd::prelude::*;

verus! {

/// The rule file of one directory, as found when the snapshot was taken.
pub enum RuleSource {
    /// The directory has no rule file.
    Absent,
    /// A rule file exists but its text could not be read.
    Unreadable,
    /// The rule file's text.
    Text(String),
}

/// A directory: its rule file and its immediate entries.
/// `listing` is `None` when the directory could not be listed.
pub struct DirTree {
    pub rules: RuleSource,
    pub listing: Option<Vec<FsEntry>>,
}

/// What kind of filesystem object an entry is.  Symlink classification takes
/// precedence: a link is never a `Dir` or `File` here, whatever it points to.
pub enum EntryKind {
    File { size: u64 },
    /// `to_dir` tells whether the link's target is a directory, which is what
    /// rule matching sees; `size` is the target's size.
    Symlink { to_dir: bool, size: u64 },
    Dir(DirTree),
}

/// One filesystem object visited during the walk.
pub struct FsEntry {
    /// The entry's name within its directory.
    pub name: String,
    /// The canonicalized (symlink-resolved) absolute path, or `None` when
    /// canonicalization failed.
    pub canon: Option<String>,
    pub kind: EntryKind,
}

impl EntryKind {
    /// Whether rule matching treats the entry as a directory.
    pub open spec fn matches_as_dir(self) -> bool {
        match self {
            EntryKind::File { .. } => false,
            EntryKind::Symlink { to_dir, .. } => to_dir,
            EntryKind::Dir(..) => true,
        }
    }
}

/// The measured size of an entry: a file's or link target's recorded length,
/// a directory's recursive byte sum (saturating at `u64::MAX`).  `None` when a
/// directory in the subtree could not be listed, so the sum is unknown.
pub open spec fn measure_kind(k: EntryKind) -> Option<nat>
    decreases k, 0int,
{
    match k {
        EntryKind::File { size } => Some(size as nat),
        EntryKind::Symlink { size, .. } => Some(size as nat),
        EntryKind::Dir(t) => measure_tree(t),
    }
}

pub open spec fn measure_tree(t: DirTree) -> Option<nat>
    decreases t, 0int,
{
    match t.listing {
        Option::None => None,
        Option::Some(v) => measure_entries(v@, 0, 0),
    }
}

pub open spec fn measure_entries(s: Seq<FsEntry>, i: int, acc: nat) -> Option<nat>
    decreases s, s.len() - i,
{
    if 0 <= i < s.len() {
        match measure_kind(s[i].kind) {
            Option::None => None,
            Option::Some(m) => measure_entries(s, i + 1, crate::plan::sat_add_n(acc, m)),
        }
    } else {
        Some(acc)
    }
}

/// A measured size always fits in a `u64`: file and link sizes are recorded
/// as `u64`, and directory sums saturate.
pub proof fn lemma_measure_kind_bounded(k: EntryKind)
    ensures
        measure_kind(k) matches Some(m) ==> m <= u64::MAX,
    decreases k, 0int,
{
    match k {
        EntryKind::Dir(t) => {
            match t.listing {
                Option::None => {},
                Option::Some(v) => {
                    lemma_measure_entries_bounded(v@, 0, 0);
                },
            }
        },
        _ => {},
    }
}

pub proof fn lemma_measure_entries_bounded(s: Seq<FsEntry>, i: int, acc: nat)
    requires
        acc <= u64::MAX,
    ensures
        measure_entries(s, i, acc) matches Some(m) ==> m <= u64::MAX,
    decreases s, s.len() - i,
{
    if 0 <= i < s.len() {
        match measure_kind(s[i].kind) {
            Option::None => {},
            Option::Some(m) => {
                lemma_measure_entries_bounded(s, i + 1, crate::plan::sat_add_n(acc, m));
            },
        }
    }
}

/// The `u64` view of an optional size.
pub open spec fn opt_nat(r: Option<u64>) -> Option<nat> {
    match r {
        Option::None => None,
        Option::Some(m) => Some(m as nat),
    }
}

/// Computes `measure_kind`.
pub fn measured_size(k: &EntryKind) -> (r: Option<u64>)
    ensures
        opt_nat(r) == measure_kind(*k),
    decreases *k, 0int,
{
    match k {
        EntryKind::File { size } => Some(*size),
        EntryKind::Symlink { size, .. } => Some(*size),
        EntryKind::Dir(t) => {
            match &t.listing {
                Option::None => None,
                Option::Some(v) => {
                    let mut acc: u64 = 0;
                    let mut i: usize = 0;
                    while i < v.len()
                        invariant
                            0 <= i <= v@.len(),
                            (*k) is Dir,
                            *t == (*k)->Dir_0,
                            t.listing == Option::Some(*v),
                            measure_entries(v@, i as int, acc as nat) == measure_entries(v@, 0, 0),
                        decreases v@.len() - i,
                    {
                        proof {
                            let gt: DirTree = (*k)->Dir_0;
                            let gv: Vec<FsEntry> = gt.listing->Some_0;
                            assert(gv == *v);
                            assert(decreases_to!(*k => (*k)->Dir_0));
                            assert(decreases_to!(gt => gt.listing));
                            assert(decreases_to!(gt.listing => gt.listing->Some_0));
                            assert(decreases_to!(gv => gv@));
                            assert(decreases_to!(gv@ => gv@[i as int]));
                            assert(decreases_to!(gv@[i as int] => gv@[i as int].kind));
                            assert(decreases_to!(*k => v@[i as int].kind));
                        }
                        match measured_size(&v[i].kind) {
                            Option::None => {
                                return None;
                            },
                            Option::Some(m) => {
                                acc = crate::plan::sat_add_u64(acc, m);
                            },
                        }
                        i = i + 1;
                    }
                    Some(acc)
                },
            }
        },
    }
}

} // verus!
