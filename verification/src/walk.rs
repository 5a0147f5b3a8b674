//! The traversal-and-matching engine.
//!
//! `walk_dir_v` is the mathematical walk: for a directory's snapshot, an
//! inherited scope and the configuration, it says exactly which entries are
//! planned for deletion, what is reported, which errors are noted, how many
//! bytes the removals measure, and how the walk ends.  `run_dir` computes it.

use vstd::prelude::*;
use vstd::string::*;

use crate::filter::any_pattern_matches;
use crate::filter::skipped_v;
use crate::fs_model::measure_kind;
use crate::fs_model::measured_size;
use crate::fs_model::DirTree;
use crate::fs_model::EntryKind;
use crate::fs_model::FsEntry;
use crate::fs_model::RuleSource;
use crate::human::human_of;
use crate::human::human_size;
use crate::plan::plan_after;
use crate::plan::sat_add_u64;
use crate::plan::walk_empty;
use crate::plan::walk_seq;
use crate::plan::DeleteCmd;
use crate::plan::DeleteV;
use crate::plan::Note;
use crate::plan::NoteKind;
use crate::plan::NoteV;
use crate::plan::Outcome;
use crate::plan::OutcomeV;
use crate::plan::Plan;
use crate::plan::ReportLine;
use crate::plan::ReportV;
use crate::plan::WalkV;
use crate::rules::compile_rules;
use crate::rules::matcher_root;
use crate::rules::matcher_rules;
use crate::rules::rules_matched;
use crate::rules::rules_ok;
use crate::rules::rules_verdict;

verus! {

/// The configuration the walk reads.  Whether deletion is enabled is absent
/// on purpose: the plan is the same for a dry run and a deleting run.
#[verifier::ext_equal]
pub ghost struct CfgV {
    pub quiet: bool,
    pub ignore_errors: bool,
    pub skip_nested: bool,
    pub patterns: Seq<Seq<char>>,
    pub calculate_size: bool,
}

/// The scope governing ignore decisions: where its rule file sat, and the
/// rule text it was compiled from.
#[verifier::ext_equal]
pub ghost struct ScopeV {
    pub root: Seq<char>,
    pub rules: Seq<char>,
}

/// A child's path: the directory's path, a separator, the child's name.
pub open spec fn join_v(dir: Seq<char>, name: Seq<char>) -> Seq<char> {
    dir + "/"@ + name
}

/// One walk of a directory's contents under a resolved scope.
pub open spec fn walk_dir_v(cfg: CfgV, dir_path: Seq<char>, t: DirTree, scope: Option<ScopeV>) -> WalkV
    decreases t, 0int, 0int,
{
    match t.listing {
        Option::None => {
            if cfg.ignore_errors {
                (WalkV {
                    deletes: Seq::empty(),
                    reports: Seq::empty(),
                    notes: seq![NoteV { kind: NoteKind::ListingFailed, dir: dir_path }],
                    bytes: 0,
                    outcome: OutcomeV::Done,
                })
            } else {
                (WalkV {
                    deletes: Seq::empty(),
                    reports: Seq::empty(),
                    notes: Seq::empty(),
                    bytes: 0,
                    outcome: OutcomeV::Aborted(dir_path),
                })
            }
        },
        Option::Some(v) => walk_entries_v(cfg, dir_path, v@, 0, scope),
    }
}

/// The entries of one directory from index `i` on, in listing order.  A step
/// that does not end well truncates the walk.
pub open spec fn walk_entries_v(
    cfg: CfgV,
    dir_path: Seq<char>,
    s: Seq<FsEntry>,
    i: int,
    scope: Option<ScopeV>,
) -> WalkV
    decreases s, s.len() - i, 0int,
{
    if 0 <= i < s.len() {
        walk_seq(
            walk_entry_v(cfg, dir_path, s[i], scope),
            walk_entries_v(cfg, dir_path, s, i + 1, scope),
        )
    } else {
        walk_empty()
    }
}

/// One entry.  Under an active scope the entry's canonical path is required;
/// a skip-pattern match excludes the entry from the ignore decision but not
/// from traversal; an ignored entry is acted on and never descended into.
pub open spec fn walk_entry_v(
    cfg: CfgV,
    dir_path: Seq<char>,
    e: FsEntry,
    scope: Option<ScopeV>,
) -> WalkV
    decreases e, 0int, 1int,
{
    let path = join_v(dir_path, e.name@);
    match scope {
        Option::Some(sc) => {
            match e.canon {
                Option::None => (WalkV {
                    deletes: Seq::empty(),
                    reports: Seq::empty(),
                    notes: Seq::empty(),
                    bytes: 0,
                    outcome: OutcomeV::Failed(path),
                }),
                Option::Some(c) => {
                    if skipped_v(cfg.patterns, c@) {
                        walk_descend_v(cfg, dir_path, e, scope)
                    } else if rules_verdict(sc.root, sc.rules, path, e.kind.matches_as_dir()) {
                        walk_ignored_v(cfg, path, e)
                    } else {
                        walk_descend_v(cfg, dir_path, e, scope)
                    }
                },
            }
        },
        Option::None => walk_descend_v(cfg, dir_path, e, scope),
    }
}

/// An entry the scope ignores: it is reported unless quiet, measured
/// when size measurement is on, and planned for deletion unless it is a
/// symbolic link.  It is treated as a leaf: never descended into.
pub open spec fn walk_ignored_v(cfg: CfgV, path: Seq<char>, e: FsEntry) -> WalkV {
    let is_dir = e.kind.matches_as_dir();
    let m = if cfg.calculate_size {
        measure_kind(e.kind)
    } else {
        Option::Some(0 as nat)
    };
    match m {
        Option::None => (WalkV {
            deletes: Seq::empty(),
            reports: Seq::empty(),
            notes: Seq::empty(),
            bytes: 0,
            outcome: OutcomeV::Failed(path),
        }),
        Option::Some(b) => (WalkV {
            deletes: if e.kind matches EntryKind::Symlink { .. } {
                Seq::empty()
            } else {
                seq![DeleteV { path: path, is_dir: is_dir }]
            },
            reports: if cfg.quiet {
                Seq::empty()
            } else {
                seq![
                    ReportV {
                        path: path,
                        is_dir: is_dir,
                        size_text: if cfg.calculate_size {
                            Option::Some(human_of(b as u64))
                        } else {
                            Option::None
                        },
                    },
                ]
            },
            notes: Seq::empty(),
            bytes: b,
            outcome: OutcomeV::Done,
        }),
    }
}

/// Scope resolution and descent for a kept (or filter-excluded) entry.  Only
/// a real directory is descended into; a directory's own valid rule file
/// replaces the inherited scope; skip-nested mode halts at any directory
/// with its own rule file.  A directory whose rule file cannot be read or
/// compiled is noted, and its own entries are still visited under the
/// inherited scope, one level only: nothing below the bad file is explored
/// further.  A failure below is absorbed into a note in ignore-errors mode
/// and is fatal otherwise.
pub open spec fn walk_descend_v(
    cfg: CfgV,
    dir_path: Seq<char>,
    e: FsEntry,
    scope: Option<ScopeV>,
) -> WalkV
    decreases e, 0int, 0int,
{
    let path = join_v(dir_path, e.name@);
    match e.kind {
        EntryKind::Dir(sub) => {
            match sub.rules {
                RuleSource::Absent => wrap_sub_v(cfg, path, walk_dir_v(cfg, path, sub, scope)),
                RuleSource::Unreadable => walk_broken_v(cfg, path, sub, scope),
                RuleSource::Text(txt) => {
                    if !rules_ok(txt@) {
                        walk_broken_v(cfg, path, sub, scope)
                    } else if cfg.skip_nested {
                        walk_empty()
                    } else {
                        wrap_sub_v(
                            cfg,
                            path,
                            walk_dir_v(
                                cfg,
                                path,
                                sub,
                                Option::Some(ScopeV { root: path, rules: txt@ }),
                            ),
                        )
                    }
                },
            }
        },
        _ => walk_empty(),
    }
}

/// A note that a directory's rule file cannot be used.
pub open spec fn broken_rules_v(path: Seq<char>) -> WalkV {
    (WalkV {
        deletes: Seq::empty(),
        reports: Seq::empty(),
        notes: seq![NoteV { kind: NoteKind::RuleFileBroken, dir: path }],
        bytes: 0,
        outcome: OutcomeV::Done,
    })
}

/// A directory whose own rule file is unusable: the failure is noted, no new
/// scope is entered, and the directory's own entries are still visited under
/// the inherited scope — one level, with nothing below explored.  In
/// skip-nested mode even that level is skipped: the directory carries its
/// own rule layer.
pub open spec fn walk_broken_v(
    cfg: CfgV,
    path: Seq<char>,
    sub: DirTree,
    scope: Option<ScopeV>,
) -> WalkV {
    walk_seq(
        broken_rules_v(path),
        if cfg.skip_nested {
            walk_empty()
        } else {
            wrap_sub_v(cfg, path, walk_shallow_v(cfg, path, sub, scope))
        },
    )
}

/// One directory visited one level deep: its entries are judged under the
/// given scope and acted on when ignored, but nothing is descended into and
/// no nested rule file is consulted.
pub open spec fn walk_shallow_v(
    cfg: CfgV,
    dir_path: Seq<char>,
    t: DirTree,
    scope: Option<ScopeV>,
) -> WalkV
    decreases t, 0int,
{
    match t.listing {
        Option::None => {
            if cfg.ignore_errors {
                (WalkV {
                    deletes: Seq::empty(),
                    reports: Seq::empty(),
                    notes: seq![NoteV { kind: NoteKind::ListingFailed, dir: dir_path }],
                    bytes: 0,
                    outcome: OutcomeV::Done,
                })
            } else {
                (WalkV {
                    deletes: Seq::empty(),
                    reports: Seq::empty(),
                    notes: Seq::empty(),
                    bytes: 0,
                    outcome: OutcomeV::Aborted(dir_path),
                })
            }
        },
        Option::Some(v) => walk_shallow_entries_v(cfg, dir_path, v@, 0, scope),
    }
}

pub open spec fn walk_shallow_entries_v(
    cfg: CfgV,
    dir_path: Seq<char>,
    s: Seq<FsEntry>,
    i: int,
    scope: Option<ScopeV>,
) -> WalkV
    decreases s, s.len() - i,
{
    if 0 <= i < s.len() {
        walk_seq(
            walk_shallow_entry_v(cfg, dir_path, s[i], scope),
            walk_shallow_entries_v(cfg, dir_path, s, i + 1, scope),
        )
    } else {
        walk_empty()
    }
}

/// One entry of a shallowly visited directory: the filter and the verdict
/// apply as usual, an ignored entry is acted on, and a kept one is left
/// alone — never descended into.
pub open spec fn walk_shallow_entry_v(
    cfg: CfgV,
    dir_path: Seq<char>,
    e: FsEntry,
    scope: Option<ScopeV>,
) -> WalkV {
    let path = join_v(dir_path, e.name@);
    match scope {
        Option::Some(sc) => {
            match e.canon {
                Option::None => (WalkV {
                    deletes: Seq::empty(),
                    reports: Seq::empty(),
                    notes: Seq::empty(),
                    bytes: 0,
                    outcome: OutcomeV::Failed(path),
                }),
                Option::Some(c) => {
                    if skipped_v(cfg.patterns, c@) {
                        walk_empty()
                    } else if rules_verdict(sc.root, sc.rules, path, e.kind.matches_as_dir()) {
                        walk_ignored_v(cfg, path, e)
                    } else {
                        walk_empty()
                    }
                },
            }
        },
        Option::None => walk_empty(),
    }
}

/// Every walk's byte total stays within `u64`: leaf measurements are bounded
/// and composition saturates.
pub proof fn lemma_walk_dir_bounded(cfg: CfgV, dir_path: Seq<char>, t: DirTree, scope: Option<ScopeV>)
    ensures
        walk_dir_v(cfg, dir_path, t, scope).bytes <= u64::MAX,
    decreases t, 0int, 0int,
{
    match t.listing {
        Option::None => {},
        Option::Some(v) => {
            lemma_walk_entries_bounded(cfg, dir_path, v@, 0, scope);
        },
    }
}

pub proof fn lemma_walk_entries_bounded(
    cfg: CfgV,
    dir_path: Seq<char>,
    s: Seq<FsEntry>,
    i: int,
    scope: Option<ScopeV>,
)
    ensures
        walk_entries_v(cfg, dir_path, s, i, scope).bytes <= u64::MAX,
    decreases s, s.len() - i, 0int,
{
    if 0 <= i < s.len() {
        lemma_walk_entry_bounded(cfg, dir_path, s[i], scope);
        lemma_walk_entries_bounded(cfg, dir_path, s, i + 1, scope);
    }
}

pub proof fn lemma_walk_entry_bounded(
    cfg: CfgV,
    dir_path: Seq<char>,
    e: FsEntry,
    scope: Option<ScopeV>,
)
    ensures
        walk_entry_v(cfg, dir_path, e, scope).bytes <= u64::MAX,
    decreases e, 0int, 1int,
{
    crate::fs_model::lemma_measure_kind_bounded(e.kind);
    lemma_walk_descend_bounded(cfg, dir_path, e, scope);
}

pub proof fn lemma_walk_descend_bounded(
    cfg: CfgV,
    dir_path: Seq<char>,
    e: FsEntry,
    scope: Option<ScopeV>,
)
    ensures
        walk_descend_v(cfg, dir_path, e, scope).bytes <= u64::MAX,
    decreases e, 0int, 0int,
{
    let path = join_v(dir_path, e.name@);
    match e.kind {
        EntryKind::Dir(sub) => {
            lemma_walk_dir_bounded(cfg, path, sub, scope);
            match sub.rules {
                RuleSource::Text(txt) => {
                    lemma_walk_dir_bounded(
                        cfg,
                        path,
                        sub,
                        Option::Some(ScopeV { root: path, rules: txt@ }),
                    );
                },
                _ => {},
            }
        },
        _ => {},
    }
}

pub proof fn lemma_walk_shallow_entries_bounded(
    cfg: CfgV,
    dir_path: Seq<char>,
    s: Seq<FsEntry>,
    i: int,
    scope: Option<ScopeV>,
)
    ensures
        walk_shallow_entries_v(cfg, dir_path, s, i, scope).bytes <= u64::MAX,
    decreases s, s.len() - i,
{
    if 0 <= i < s.len() {
        crate::fs_model::lemma_measure_kind_bounded(s[i].kind);
        lemma_walk_shallow_entries_bounded(cfg, dir_path, s, i + 1, scope);
    }
}

/// How a parent treats a finished subtree walk: a `Failed` child is noted and
/// absorbed in ignore-errors mode and escalated to `Aborted` otherwise; an
/// `Aborted` child always propagates.
pub open spec fn wrap_sub_v(cfg: CfgV, path: Seq<char>, w: WalkV) -> WalkV {
    match w.outcome {
        OutcomeV::Done => w,
        OutcomeV::Aborted(p) => w,
        OutcomeV::Failed(p) => {
            if cfg.ignore_errors {
                (WalkV {
                    deletes: w.deletes,
                    reports: w.reports,
                    notes: w.notes + seq![NoteV { kind: NoteKind::SubtreeFailed, dir: path }],
                    bytes: w.bytes,
                    outcome: OutcomeV::Done,
                })
            } else {
                (WalkV {
                    deletes: w.deletes,
                    reports: w.reports,
                    notes: w.notes,
                    bytes: w.bytes,
                    outcome: OutcomeV::Aborted(p),
                })
            }
        },
    }
}

/// The scope an inherited matcher stands for.
pub open spec fn scope_view(scope: Option<&ignore::gitignore::Gitignore>) -> Option<ScopeV> {
    match scope {
        Option::None => Option::None,
        Option::Some(g) => Option::Some(
            ScopeV { root: matcher_root(*g), rules: matcher_rules(*g) },
        ),
    }
}

/// Builds a child's path from its directory's path and its name.
fn join_path(dir: &str, name: &str) -> (r: String)
    ensures
        r@ == join_v(dir@, name@),
{
    let mut s = String::from_str(dir);
    s.append("/");
    s.append(name);
    s
}

/// The directory flag handed to rule matching.
fn kind_matches_as_dir(k: &EntryKind) -> (r: bool)
    ensures
        r == k.matches_as_dir(),
{
    match k {
        EntryKind::File { .. } => false,
        EntryKind::Symlink { to_dir, .. } => *to_dir,
        EntryKind::Dir(..) => true,
    }
}

/// Acts on an entry the scope ignores: report, measure, plan deletion.
fn run_ignored(c: &crate::clean::Cleaner, path: String, e: &FsEntry, plan: &mut Plan) -> (r:
    Outcome)
    ensures
        final(plan)@ == plan_after(old(plan)@, walk_ignored_v(c@.cfg(), path@, *e)),
        r@ == walk_ignored_v(c@.cfg(), path@, *e).outcome,
{
    let ghost w = walk_ignored_v(c@.cfg(), path@, *e);
    let is_dir = kind_matches_as_dir(&e.kind);
    let mut b: u64 = 0;
    if c.calculate_size {
        match measured_size(&e.kind) {
            Option::None => {
                proof {
                    assert(plan@ =~= plan_after(old(plan)@, w));
                }
                return Outcome::Failed(path);
            },
            Option::Some(m) => {
                b = m;
            },
        }
    }
    if !c.quiet {
        let size_text = if c.calculate_size {
            Option::Some(human_size(b))
        } else {
            Option::None
        };
        plan.reports.push(ReportLine { path: path.clone(), is_dir, size_text });
    }
    plan.total_bytes = sat_add_u64(plan.total_bytes, b);
    let is_link = matches!(&e.kind, EntryKind::Symlink { .. });
    if !is_link {
        plan.deletes.push(DeleteCmd { path, is_dir });
    }
    proof {
        assert(plan@ =~= plan_after(old(plan)@, w));
    }
    Outcome::Done
}

/// Resolves the scope for a kept or filter-excluded entry and descends.
fn run_descend(
    c: &crate::clean::Cleaner,
    dir_path: &String,
    e: &FsEntry,
    scope: Option<&ignore::gitignore::Gitignore>,
    plan: &mut Plan,
) -> (r: Outcome)
    ensures
        final(plan)@ == plan_after(
            old(plan)@,
            walk_descend_v(c@.cfg(), dir_path@, *e, scope_view(scope)),
        ),
        r@ == walk_descend_v(c@.cfg(), dir_path@, *e, scope_view(scope)).outcome,
    decreases *e, 0int, 0int,
{
    let ghost w = walk_descend_v(c@.cfg(), dir_path@, *e, scope_view(scope));
    match &e.kind {
        EntryKind::Dir(sub) => {
            let path = join_path(dir_path.as_str(), e.name.as_str());
            proof {
                let ge: FsEntry = *e;
                let gt: DirTree = ge.kind->Dir_0;
                assert(gt == *sub);
                assert(decreases_to!(ge => ge.kind));
                assert(decreases_to!(ge.kind => ge.kind->Dir_0));
                assert(decreases_to!(*e => *sub));
            }
            match &sub.rules {
                RuleSource::Absent => {
                    let ghost sub_w = walk_dir_v(c@.cfg(), path@, *sub, scope_view(scope));
                    let sub_r = run_dir(c, &path, sub, scope, plan);
                    absorb_failure(c, path, sub_r, plan, Ghost(old(plan)@), Ghost(sub_w))
                },
                RuleSource::Unreadable => run_broken(c, path, sub, scope, plan),
                RuleSource::Text(txt) => {
                    match compile_rules(path.as_str(), txt.as_str()) {
                        Option::None => run_broken(c, path, sub, scope, plan),
                        Option::Some(matcher) => {
                            if c.skip_nested {
                                proof {
                                    assert(plan@ =~= plan_after(old(plan)@, w));
                                }
                                Outcome::Done
                            } else {
                                let ghost sub_w = walk_dir_v(
                                    c@.cfg(),
                                    path@,
                                    *sub,
                                    scope_view(Option::Some(&matcher)),
                                );
                                let sub_r = run_dir(c, &path, sub, Option::Some(&matcher), plan);
                                absorb_failure(c, path, sub_r, plan, Ghost(old(plan)@), Ghost(sub_w))
                            }
                        },
                    }
                },
            }
        },
        _ => {
            proof {
                assert(plan@ =~= plan_after(old(plan)@, w));
            }
            Outcome::Done
        },
    }
}

/// A directory whose own rule file is unusable: notes the failure and, unless
/// skip-nested mode is on, visits the directory's own entries under the
/// inherited scope, one level deep.
fn run_broken(
    c: &crate::clean::Cleaner,
    path: String,
    sub: &DirTree,
    scope: Option<&ignore::gitignore::Gitignore>,
    plan: &mut Plan,
) -> (r: Outcome)
    ensures
        final(plan)@ == plan_after(
            old(plan)@,
            walk_broken_v(c@.cfg(), path@, *sub, scope_view(scope)),
        ),
        r@ == walk_broken_v(c@.cfg(), path@, *sub, scope_view(scope)).outcome,
{
    let ghost gpath: Seq<char> = path@;
    let ghost w = walk_broken_v(c@.cfg(), gpath, *sub, scope_view(scope));
    plan.notes.push(Note { kind: NoteKind::RuleFileBroken, dir: path.clone() });
    let ghost p1 = plan@;
    proof {
        assert(p1 =~= plan_after(old(plan)@, broken_rules_v(gpath)));
    }
    if c.skip_nested {
        proof {
            crate::plan::lemma_walk_seq_empty_r(broken_rules_v(gpath));
        }
        Outcome::Done
    } else {
        let ghost sub_w = walk_shallow_v(c@.cfg(), gpath, *sub, scope_view(scope));
        let sub_r = run_shallow(c, &path, sub, scope, plan);
        let out = absorb_failure(c, path, sub_r, plan, Ghost(p1), Ghost(sub_w));
        proof {
            crate::plan::lemma_plan_after_seq(
                old(plan)@,
                broken_rules_v(gpath),
                wrap_sub_v(c@.cfg(), gpath, sub_w),
            );
        }
        out
    }
}

/// Walks one directory one level deep under the given scope: entries are
/// judged and acted on, nothing is descended into.
fn run_shallow(
    c: &crate::clean::Cleaner,
    dir_path: &String,
    t: &DirTree,
    scope: Option<&ignore::gitignore::Gitignore>,
    plan: &mut Plan,
) -> (r: Outcome)
    ensures
        final(plan)@ == plan_after(
            old(plan)@,
            walk_shallow_v(c@.cfg(), dir_path@, *t, scope_view(scope)),
        ),
        r@ == walk_shallow_v(c@.cfg(), dir_path@, *t, scope_view(scope)).outcome,
{
    let ghost w = walk_shallow_v(c@.cfg(), dir_path@, *t, scope_view(scope));
    match &t.listing {
        Option::None => {
            if c.ignore_errors {
                plan.notes.push(Note { kind: NoteKind::ListingFailed, dir: dir_path.clone() });
                proof {
                    assert(plan@ =~= plan_after(old(plan)@, w));
                }
                Outcome::Done
            } else {
                proof {
                    assert(plan@ =~= plan_after(old(plan)@, w));
                }
                Outcome::Aborted(dir_path.clone())
            }
        },
        Option::Some(v) => {
            let ghost cfg = c@.cfg();
            let ghost sc = scope_view(scope);
            let ghost p0 = plan@;
            let ghost total = walk_shallow_entries_v(cfg, dir_path@, v@, 0, sc);
            let ghost mut wpre: WalkV = walk_empty();
            proof {
                lemma_walk_shallow_entries_bounded(cfg, dir_path@, v@, 0, sc);
                crate::plan::lemma_walk_seq_empty_l(total);
                crate::plan::lemma_plan_after_empty(p0);
            }
            let mut i: usize = 0;
            while i < v.len()
                invariant
                    0 <= i <= v@.len(),
                    (*t).listing == Option::Some(*v),
                    cfg == c@.cfg(),
                    sc == scope_view(scope),
                    p0 == old(plan)@,
                    total == walk_shallow_entries_v(cfg, dir_path@, v@, 0, sc),
                    w == total,
                    wpre.outcome is Done,
                    walk_seq(wpre, walk_shallow_entries_v(cfg, dir_path@, v@, i as int, sc))
                        == total,
                    plan@ == plan_after(p0, wpre),
                    wpre.bytes <= u64::MAX,
                decreases v@.len() - i,
            {
                let ghost step = walk_shallow_entry_v(cfg, dir_path@, v@[i as int], sc);
                let ghost rest = walk_shallow_entries_v(cfg, dir_path@, v@, i as int + 1, sc);
                let step_r = run_shallow_entry(c, dir_path, &v[i], scope, plan);
                proof {
                    crate::plan::lemma_plan_after_seq(p0, wpre, step);
                    crate::plan::lemma_walk_seq_assoc(wpre, step, rest);
                }
                match step_r {
                    Outcome::Done => {
                        proof {
                            assert(step.outcome == OutcomeV::Done);
                            wpre = walk_seq(wpre, step);
                        }
                    },
                    _ => {
                        proof {
                            assert(walk_seq(step, rest) == step);
                            assert(total == walk_seq(wpre, step));
                            assert(w == total);
                        }
                        return step_r;
                    },
                }
                i = i + 1;
            }
            proof {
                assert(walk_shallow_entries_v(cfg, dir_path@, v@, i as int, sc) == walk_empty());
                crate::plan::lemma_walk_seq_empty_r(wpre);
                assert(total == wpre);
            }
            Outcome::Done
        },
    }
}

/// One entry of a shallow visit: the filter, the verdict, the action; never
/// any descent.
fn run_shallow_entry(
    c: &crate::clean::Cleaner,
    dir_path: &String,
    e: &FsEntry,
    scope: Option<&ignore::gitignore::Gitignore>,
    plan: &mut Plan,
) -> (r: Outcome)
    ensures
        final(plan)@ == plan_after(
            old(plan)@,
            walk_shallow_entry_v(c@.cfg(), dir_path@, *e, scope_view(scope)),
        ),
        r@ == walk_shallow_entry_v(c@.cfg(), dir_path@, *e, scope_view(scope)).outcome,
{
    let ghost w = walk_shallow_entry_v(c@.cfg(), dir_path@, *e, scope_view(scope));
    match scope {
        Option::Some(g) => {
            match &e.canon {
                Option::None => {
                    let path = join_path(dir_path.as_str(), e.name.as_str());
                    proof {
                        assert(plan@ =~= plan_after(old(plan)@, w));
                    }
                    Outcome::Failed(path)
                },
                Option::Some(canon) => {
                    if any_pattern_matches(&c.skip_patterns, canon.as_str()) {
                        proof {
                            assert(plan@ =~= plan_after(old(plan)@, w));
                        }
                        Outcome::Done
                    } else {
                        let path = join_path(dir_path.as_str(), e.name.as_str());
                        let is_dir = kind_matches_as_dir(&e.kind);
                        if rules_matched(g, path.as_str(), is_dir) {
                            run_ignored(c, path, e, plan)
                        } else {
                            proof {
                                assert(plan@ =~= plan_after(old(plan)@, w));
                            }
                            Outcome::Done
                        }
                    }
                },
            }
        },
        Option::None => {
            proof {
                assert(plan@ =~= plan_after(old(plan)@, w));
            }
            Outcome::Done
        },
    }
}

/// Applies the ignore-errors policy to a finished subtree walk, mirroring
/// `wrap_sub_v` relative to the plan state `p0` from before the subtree ran.
fn absorb_failure(
    c: &crate::clean::Cleaner,
    path: String,
    sub_r: Outcome,
    plan: &mut Plan,
    Ghost(p0): Ghost<crate::plan::PlanV>,
    Ghost(w): Ghost<WalkV>,
) -> (r: Outcome)
    requires
        old(plan)@ == plan_after(p0, w),
        sub_r@ == w.outcome,
    ensures
        final(plan)@ == plan_after(p0, wrap_sub_v(c@.cfg(), path@, w)),
        r@ == wrap_sub_v(c@.cfg(), path@, w).outcome,
{
    match sub_r {
        Outcome::Done => Outcome::Done,
        Outcome::Aborted(p) => Outcome::Aborted(p),
        Outcome::Failed(p) => {
            if c.ignore_errors {
                plan.notes.push(Note { kind: NoteKind::SubtreeFailed, dir: path });
                proof {
                    let wr = wrap_sub_v(c@.cfg(), path@, w);
                    let lhs = plan@.notes;
                    let rhs = plan_after(p0, wr).notes;
                    assert(plan.notes@ == old(plan).notes@.push(
                        plan.notes@[plan.notes@.len() - 1],
                    ));
                    assert(lhs.len() == plan.notes@.len());
                    assert(plan.notes@.len() == old(plan).notes@.len() + 1);
                    assert(old(plan)@.notes == p0.notes + w.notes);
                    assert(old(plan)@.notes.len() == old(plan).notes@.len());
                    assert(wr.notes == w.notes + seq![
                        NoteV { kind: NoteKind::SubtreeFailed, dir: path@ },
                    ]);
                    assert(lhs.len() == rhs.len());
                    assert forall|k: int| 0 <= k < lhs.len() implies lhs[k] == rhs[k] by {
                        if k < old(plan)@.notes.len() {
                            assert(lhs[k] == old(plan)@.notes[k]);
                            assert(old(plan)@.notes[k] == (p0.notes + w.notes)[k]);
                        } else {
                            assert(lhs[k] == NoteV { kind: NoteKind::SubtreeFailed, dir: path@ });
                        }
                    }
                    assert(lhs =~= rhs);
                    assert(plan@ =~= plan_after(p0, wr));
                }
                Outcome::Done
            } else {
                Outcome::Aborted(p)
            }
        },
    }
}

/// Walks one entry: the filter, the verdict, the action, the descent.
fn run_entry(
    c: &crate::clean::Cleaner,
    dir_path: &String,
    e: &FsEntry,
    scope: Option<&ignore::gitignore::Gitignore>,
    plan: &mut Plan,
) -> (r: Outcome)
    ensures
        final(plan)@ == plan_after(
            old(plan)@,
            walk_entry_v(c@.cfg(), dir_path@, *e, scope_view(scope)),
        ),
        r@ == walk_entry_v(c@.cfg(), dir_path@, *e, scope_view(scope)).outcome,
    decreases *e, 0int, 1int,
{
    let ghost w = walk_entry_v(c@.cfg(), dir_path@, *e, scope_view(scope));
    match scope {
        Option::Some(g) => {
            match &e.canon {
                Option::None => {
                    let path = join_path(dir_path.as_str(), e.name.as_str());
                    proof {
                        assert(plan@ =~= plan_after(old(plan)@, w));
                    }
                    Outcome::Failed(path)
                },
                Option::Some(canon) => {
                    if any_pattern_matches(&c.skip_patterns, canon.as_str()) {
                        run_descend(c, dir_path, e, scope, plan)
                    } else {
                        let path = join_path(dir_path.as_str(), e.name.as_str());
                        let is_dir = kind_matches_as_dir(&e.kind);
                        if rules_matched(g, path.as_str(), is_dir) {
                            run_ignored(c, path, e, plan)
                        } else {
                            run_descend(c, dir_path, e, scope, plan)
                        }
                    }
                },
            }
        },
        Option::None => run_descend(c, dir_path, e, scope, plan),
    }
}

/// Walks one directory's listing under a resolved scope.
pub(crate) fn run_dir(
    c: &crate::clean::Cleaner,
    dir_path: &String,
    t: &DirTree,
    scope: Option<&ignore::gitignore::Gitignore>,
    plan: &mut Plan,
) -> (r: Outcome)
    ensures
        final(plan)@ == plan_after(
            old(plan)@,
            walk_dir_v(c@.cfg(), dir_path@, *t, scope_view(scope)),
        ),
        r@ == walk_dir_v(c@.cfg(), dir_path@, *t, scope_view(scope)).outcome,
    decreases *t, 0int, 2int,
{
    let ghost w = walk_dir_v(c@.cfg(), dir_path@, *t, scope_view(scope));
    match &t.listing {
        Option::None => {
            if c.ignore_errors {
                plan.notes.push(Note { kind: NoteKind::ListingFailed, dir: dir_path.clone() });
                proof {
                    assert(plan@ =~= plan_after(old(plan)@, w));
                }
                Outcome::Done
            } else {
                proof {
                    assert(plan@ =~= plan_after(old(plan)@, w));
                }
                Outcome::Aborted(dir_path.clone())
            }
        },
        Option::Some(v) => {
            let ghost cfg = c@.cfg();
            let ghost sc = scope_view(scope);
            let ghost p0 = plan@;
            let ghost total = walk_entries_v(cfg, dir_path@, v@, 0, sc);
            let ghost mut wpre: WalkV = walk_empty();
            proof {
                lemma_walk_entries_bounded(cfg, dir_path@, v@, 0, sc);
                crate::plan::lemma_walk_seq_empty_l(total);
                crate::plan::lemma_plan_after_empty(p0);
            }
            let mut i: usize = 0;
            while i < v.len()
                invariant
                    0 <= i <= v@.len(),
                    (*t).listing == Option::Some(*v),
                    cfg == c@.cfg(),
                    sc == scope_view(scope),
                    p0 == old(plan)@,
                    total == walk_entries_v(cfg, dir_path@, v@, 0, sc),
                    w == total,
                    wpre.outcome is Done,
                    walk_seq(wpre, walk_entries_v(cfg, dir_path@, v@, i as int, sc)) == total,
                    plan@ == plan_after(p0, wpre),
                    wpre.bytes <= u64::MAX,
                decreases v@.len() - i,
            {
                proof {
                    let gt: DirTree = *t;
                    let gv: Vec<FsEntry> = gt.listing->Some_0;
                    assert(gv == *v);
                    assert(decreases_to!(gt => gt.listing));
                    assert(decreases_to!(gt.listing => gt.listing->Some_0));
                    assert(decreases_to!(gv => gv@));
                    assert(decreases_to!(gv@ => gv@[i as int]));
                    assert(decreases_to!(*t => v@[i as int]));
                }
                let ghost step = walk_entry_v(cfg, dir_path@, v@[i as int], sc);
                let ghost rest = walk_entries_v(cfg, dir_path@, v@, i as int + 1, sc);
                let step_r = run_entry(c, dir_path, &v[i], scope, plan);
                proof {
                    crate::plan::lemma_plan_after_seq(p0, wpre, step);
                    crate::plan::lemma_walk_seq_assoc(wpre, step, rest);
                }
                match step_r {
                    Outcome::Done => {
                        proof {
                            assert(step.outcome == OutcomeV::Done);
                            wpre = walk_seq(wpre, step);
                        }
                    },
                    _ => {
                        proof {
                            assert(walk_seq(step, rest) == step);
                            assert(total == walk_seq(wpre, step));
                            assert(w == total);
                        }
                        return step_r;
                    },
                }
                i = i + 1;
            }
            proof {
                assert(walk_entries_v(cfg, dir_path@, v@, i as int, sc) == walk_empty());
                crate::plan::lemma_walk_seq_empty_r(wpre);
                assert(total == wpre);
            }
            Outcome::Done
        },
    }
}

} // verus!
