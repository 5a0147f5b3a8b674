//! What a run produces: planned deletions, report lines, error notes, and the
//! measured byte total, together with the walk's outcome.
//!
//! The cleaner only decides; it never touches the filesystem.  The caller
//! executes `deletes` (in order), prints `reports` and `notes`, and treats a
//! `Failed` or `Aborted` outcome as a fatal condition.

use vstd::prelude::*;

verus! {

/// One planned removal.  `is_dir` tells whether the entry matched as a
/// directory (a directory is removed recursively, a file individually).
/// A symbolic link never appears here.
pub struct DeleteCmd {
    pub path: String,
    pub is_dir: bool,
}

/// The mathematical value of a `DeleteCmd`.
#[verifier::ext_equal]
pub ghost struct DeleteV {
    pub path: Seq<char>,
    pub is_dir: bool,
}

impl View for DeleteCmd {
    type V = DeleteV;

    open spec fn view(&self) -> DeleteV {
        (DeleteV { path: self.path@, is_dir: self.is_dir })
    }
}

/// One per-entry report line: the entry's path, whether it is reported as a
/// directory, and the human-readable size suffix when measuring is on.
pub struct ReportLine {
    pub path: String,
    pub is_dir: bool,
    pub size_text: Option<String>,
}

/// The mathematical value of a `ReportLine`.
#[verifier::ext_equal]
pub ghost struct ReportV {
    pub path: Seq<char>,
    pub is_dir: bool,
    pub size_text: Option<Seq<char>>,
}

impl View for ReportLine {
    type V = ReportV;

    open spec fn view(&self) -> ReportV {
        (ReportV {
            path: self.path@,
            is_dir: self.is_dir,
            size_text: match self.size_text {
                Option::Some(ref s) => Option::Some(s@),
                Option::None => Option::None,
            },
        })
    }
}

/// What a tolerated, non-fatal error was about.
#[derive(Clone, Copy, PartialEq, Eq, Structural)]
pub enum NoteKind {
    /// A directory could not be listed (ignore-errors mode).
    ListingFailed,
    /// A directory's rule file could not be read or compiled; the directory
    /// is not descended into under a new scope.
    RuleFileBroken,
    /// A subtree walk failed and ignore-errors mode absorbed the failure.
    SubtreeFailed,
}

/// A reported, non-fatal error, with the directory it concerns.
pub struct Note {
    pub kind: NoteKind,
    pub dir: String,
}

/// The mathematical value of a `Note`.
#[verifier::ext_equal]
pub ghost struct NoteV {
    pub kind: NoteKind,
    pub dir: Seq<char>,
}

impl View for Note {
    type V = NoteV;

    open spec fn view(&self) -> NoteV {
        (NoteV { kind: self.kind, dir: self.dir@ })
    }
}

/// How a walk ended.
///
/// `Failed` carries the path whose processing failed; an enclosing directory
/// absorbs it in ignore-errors mode.  `Aborted` is fatal for the entire run
/// and is never absorbed.
pub enum Outcome {
    Done,
    Failed(String),
    Aborted(String),
}

/// The mathematical value of an `Outcome`.
#[verifier::ext_equal]
pub ghost enum OutcomeV {
    Done,
    Failed(Seq<char>),
    Aborted(Seq<char>),
}

impl View for Outcome {
    type V = OutcomeV;

    open spec fn view(&self) -> OutcomeV {
        match self {
            Outcome::Done => OutcomeV::Done,
            Outcome::Failed(p) => OutcomeV::Failed(p@),
            Outcome::Aborted(p) => OutcomeV::Aborted(p@),
        }
    }
}

/// Everything a walk accumulates.
pub struct Plan {
    pub deletes: Vec<DeleteCmd>,
    pub reports: Vec<ReportLine>,
    pub notes: Vec<Note>,
    pub total_bytes: u64,
}

/// The mathematical value of a `Plan`.
#[verifier::ext_equal]
pub ghost struct PlanV {
    pub deletes: Seq<DeleteV>,
    pub reports: Seq<ReportV>,
    pub notes: Seq<NoteV>,
    pub bytes: nat,
}

impl View for Plan {
    type V = PlanV;

    open spec fn view(&self) -> PlanV {
        (PlanV {
            deletes: self.deletes@.map_values(|d: DeleteCmd| d@),
            reports: self.reports@.map_values(|r: ReportLine| r@),
            notes: self.notes@.map_values(|n: Note| n@),
            bytes: self.total_bytes as nat,
        })
    }
}

/// Addition capped at `u64::MAX`: the running byte total saturates instead of
/// wrapping.
pub open spec fn sat_add_n(a: nat, b: nat) -> nat {
    if a + b > u64::MAX {
        u64::MAX as nat
    } else {
        (a + b) as nat
    }
}

/// Executable saturating addition, matching `sat_add_n`.
pub fn sat_add_u64(a: u64, b: u64) -> (r: u64)
    ensures
        r as nat == sat_add_n(a as nat, b as nat),
{
    if a <= u64::MAX - b {
        a + b
    } else {
        u64::MAX
    }
}

/// What one stretch of the walk contributed, together with its outcome.
#[verifier::ext_equal]
pub ghost struct WalkV {
    pub deletes: Seq<DeleteV>,
    pub reports: Seq<ReportV>,
    pub notes: Seq<NoteV>,
    pub bytes: nat,
    pub outcome: OutcomeV,
}

/// A stretch that did nothing and ended well.
pub open spec fn walk_empty() -> WalkV {
    (WalkV {
        deletes: Seq::empty(),
        reports: Seq::empty(),
        notes: Seq::empty(),
        bytes: 0,
        outcome: OutcomeV::Done,
    })
}

/// Sequential composition of two stretches: the second happens only when the
/// first ended well; a failure truncates the walk but keeps what was already
/// produced.
pub open spec fn walk_seq(a: WalkV, b: WalkV) -> WalkV {
    if a.outcome is Done {
        (WalkV {
            deletes: a.deletes + b.deletes,
            reports: a.reports + b.reports,
            notes: a.notes + b.notes,
            bytes: sat_add_n(a.bytes, b.bytes),
            outcome: b.outcome,
        })
    } else {
        a
    }
}

pub proof fn lemma_walk_seq_assoc(a: WalkV, b: WalkV, c: WalkV)
    ensures
        walk_seq(walk_seq(a, b), c) == walk_seq(a, walk_seq(b, c)),
{
    if a.outcome is Done {
        if b.outcome is Done {
            assert(walk_seq(walk_seq(a, b), c) =~= walk_seq(a, walk_seq(b, c)));
        } else {
            assert(walk_seq(walk_seq(a, b), c) =~= walk_seq(a, walk_seq(b, c)));
        }
    }
}

pub proof fn lemma_walk_seq_empty_l(a: WalkV)
    requires
        a.bytes <= u64::MAX,
    ensures
        walk_seq(walk_empty(), a) == a,
{
    assert(walk_seq(walk_empty(), a) =~= a);
}

pub proof fn lemma_walk_seq_empty_r(a: WalkV)
    requires
        a.bytes <= u64::MAX,
    ensures
        walk_seq(a, walk_empty()) == a,
{
    if a.outcome is Done {
        assert(walk_seq(a, walk_empty()) =~= a);
    }
}

/// The plan value after a stretch `w` has been appended to `p`.
pub open spec fn plan_after(p: PlanV, w: WalkV) -> PlanV {
    (PlanV {
        deletes: p.deletes + w.deletes,
        reports: p.reports + w.reports,
        notes: p.notes + w.notes,
        bytes: sat_add_n(p.bytes, w.bytes),
    })
}

pub proof fn lemma_plan_after_seq(p: PlanV, a: WalkV, b: WalkV)
    requires
        a.outcome is Done,
    ensures
        plan_after(plan_after(p, a), b) == plan_after(p, walk_seq(a, b)),
{
    assert(plan_after(plan_after(p, a), b) =~= plan_after(p, walk_seq(a, b)));
}

pub proof fn lemma_plan_after_empty(p: PlanV)
    requires
        p.bytes <= u64::MAX,
    ensures
        plan_after(p, walk_empty()) == p,
{
    assert(plan_after(p, walk_empty()) =~= p);
}

} // verus!
