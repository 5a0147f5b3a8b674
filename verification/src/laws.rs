//! The library's stated laws, proved of the mathematical walk.

use vstd::prelude::*;

use crate::clean::clean_v;
use crate::clean::CleanerV;
use crate::filter::skipped_v;
use crate::fs_model::measure_entries;
use crate::fs_model::measure_kind;
use crate::fs_model::DirTree;
use crate::fs_model::EntryKind;
use crate::fs_model::FsEntry;
use crate::fs_model::RuleSource;
use crate::fs_model_props::entry_calm;
use crate::fs_model_props::entry_no_rule_files;
use crate::fs_model_props::entry_reaches;
use crate::fs_model_props::entry_within;
use crate::fs_model_props::no_rule_files;
use crate::fs_model_props::tree_calm;
use crate::plan::walk_seq;
use crate::plan::DeleteV;
use crate::rules::rules_ok;
use crate::rules::rules_verdict;
use crate::walk::join_v;
use crate::walk::walk_broken_v;
use crate::walk::walk_descend_v;
use crate::walk::walk_dir_v;
use crate::walk::walk_entries_v;
use crate::walk::walk_entry_v;
use crate::walk::walk_ignored_v;
use crate::walk::walk_shallow_entries_v;
use crate::walk::walk_shallow_entry_v;
use crate::walk::walk_shallow_v;
use crate::walk::wrap_sub_v;
use crate::walk::CfgV;
use crate::walk::ScopeV;

verus! {

/// The planned deletion of an entry.
pub open spec fn delete_of(dir_path: Seq<char>, e: FsEntry) -> DeleteV {
    (DeleteV { path: join_v(dir_path, e.name@), is_dir: e.kind.matches_as_dir() })
}

/// Whether deletion is enabled never changes what a run plans: a dry run and
/// a deleting run over the same snapshot decide the same deletions, reports,
/// notes, byte total and outcome.
pub proof fn lemma_delete_flag_never_changes_the_plan(a: CleanerV, b: CleanerV, root: DirTree)
    requires
        a.path == b.path,
        a.quiet == b.quiet,
        a.ignore_errors == b.ignore_errors,
        a.skip_nested == b.skip_nested,
        a.patterns == b.patterns,
        a.calculate_size == b.calculate_size,
    ensures
        clean_v(a, root) == clean_v(b, root),
{
    assert(a.cfg() =~= b.cfg());
}

/// A directory's own valid rule file fully shadows the inherited scope: as
/// long as the directory itself is kept, which inherited scope it was kept
/// under makes no difference to anything decided inside it.
pub proof fn lemma_own_rules_shadow_inherited(
    cfg: CfgV,
    dir_path: Seq<char>,
    e: FsEntry,
    sc1: ScopeV,
    sc2: ScopeV,
)
    requires
        e.kind matches EntryKind::Dir(sub) && sub.rules matches RuleSource::Text(txt)
            && rules_ok(txt@),
        !rules_verdict(sc1.root, sc1.rules, join_v(dir_path, e.name@), e.kind.matches_as_dir()),
        !rules_verdict(sc2.root, sc2.rules, join_v(dir_path, e.name@), e.kind.matches_as_dir()),
    ensures
        walk_entry_v(cfg, dir_path, e, Option::Some(sc1)) == walk_entry_v(
            cfg,
            dir_path,
            e,
            Option::Some(sc2),
        ),
{
    assert(walk_descend_v(cfg, dir_path, e, Option::Some(sc1)) == walk_descend_v(
        cfg,
        dir_path,
        e,
        Option::Some(sc2),
    ));
}

/// With no rule file anywhere in the tree, a walk without an inherited scope
/// removes, reports and measures nothing, whatever the configuration — and it
/// never ends in the failure outcome, since no scope ever asks for a
/// canonical path.
pub proof fn lemma_no_rules_nothing_removed(cfg: CfgV, dir_path: Seq<char>, t: DirTree)
    requires
        no_rule_files(t),
    ensures
        walk_dir_v(cfg, dir_path, t, Option::None).deletes == Seq::<DeleteV>::empty(),
        walk_dir_v(cfg, dir_path, t, Option::None).reports.len() == 0,
        walk_dir_v(cfg, dir_path, t, Option::None).bytes == 0,
        !(walk_dir_v(cfg, dir_path, t, Option::None).outcome is Failed),
    decreases t, 0int, 0int,
{
    match t.listing {
        Option::None => {},
        Option::Some(v) => {
            lemma_no_rules_entries(cfg, dir_path, v@, 0);
        },
    }
}

proof fn lemma_no_rules_entries(cfg: CfgV, dir_path: Seq<char>, s: Seq<FsEntry>, i: int)
    requires
        forall|k: int| 0 <= k < s.len() ==> entry_no_rule_files(#[trigger] s[k]),
    ensures
        walk_entries_v(cfg, dir_path, s, i, Option::None).deletes == Seq::<DeleteV>::empty(),
        walk_entries_v(cfg, dir_path, s, i, Option::None).reports.len() == 0,
        walk_entries_v(cfg, dir_path, s, i, Option::None).bytes == 0,
        !(walk_entries_v(cfg, dir_path, s, i, Option::None).outcome is Failed),
    decreases s, s.len() - i, 0int,
{
    if 0 <= i < s.len() {
        lemma_no_rules_entry(cfg, dir_path, s[i]);
        lemma_no_rules_entries(cfg, dir_path, s, i + 1);
        let a = walk_entry_v(cfg, dir_path, s[i], Option::None);
        let b = walk_entries_v(cfg, dir_path, s, i + 1, Option::None);
        if a.outcome is Done {
            assert(walk_seq(a, b).deletes =~= Seq::<DeleteV>::empty());
        }
    }
}

proof fn lemma_no_rules_entry(cfg: CfgV, dir_path: Seq<char>, e: FsEntry)
    requires
        entry_no_rule_files(e),
    ensures
        walk_entry_v(cfg, dir_path, e, Option::None).deletes == Seq::<DeleteV>::empty(),
        walk_entry_v(cfg, dir_path, e, Option::None).reports.len() == 0,
        walk_entry_v(cfg, dir_path, e, Option::None).bytes == 0,
        !(walk_entry_v(cfg, dir_path, e, Option::None).outcome is Failed),
    decreases e, 0int, 1int,
{
    match e.kind {
        EntryKind::Dir(sub) => {
            lemma_no_rules_nothing_removed(cfg, join_v(dir_path, e.name@), sub);
        },
        _ => {},
    }
}

/// On a complete snapshot every entry can be measured.
proof fn lemma_calm_measure_kind(e: FsEntry)
    requires
        entry_calm(e),
    ensures
        measure_kind(e.kind) is Some,
    decreases e, 0int, 1int,
{
    match e.kind {
        EntryKind::Dir(sub) => {
            match sub.listing {
                Option::None => {},
                Option::Some(v) => {
                    lemma_calm_measure_entries(v@, 0, 0);
                },
            }
        },
        _ => {},
    }
}

proof fn lemma_calm_measure_entries(s: Seq<FsEntry>, i: int, acc: nat)
    requires
        forall|k: int| 0 <= k < s.len() ==> entry_calm(#[trigger] s[k]),
    ensures
        measure_entries(s, i, acc) is Some,
    decreases s, s.len() - i, 0int,
{
    if 0 <= i < s.len() {
        lemma_calm_measure_kind(s[i]);
        match measure_kind(s[i].kind) {
            Option::None => {},
            Option::Some(m) => {
                lemma_calm_measure_entries(s, i + 1, crate::plan::sat_add_n(acc, m));
            },
        }
    }
}

/// On a complete snapshot the walk always ends well: nothing fails and
/// nothing aborts.
pub proof fn lemma_calm_walk_done(
    cfg: CfgV,
    dir_path: Seq<char>,
    t: DirTree,
    scope: Option<ScopeV>,
)
    requires
        tree_calm(t),
    ensures
        walk_dir_v(cfg, dir_path, t, scope).outcome is Done,
    decreases t, 0int, 0int,
{
    match t.listing {
        Option::None => {},
        Option::Some(v) => {
            lemma_calm_entries_done(cfg, dir_path, v@, 0, scope);
        },
    }
}

proof fn lemma_calm_entries_done(
    cfg: CfgV,
    dir_path: Seq<char>,
    s: Seq<FsEntry>,
    i: int,
    scope: Option<ScopeV>,
)
    requires
        forall|k: int| 0 <= k < s.len() ==> entry_calm(#[trigger] s[k]),
    ensures
        walk_entries_v(cfg, dir_path, s, i, scope).outcome is Done,
    decreases s, s.len() - i, 0int,
{
    if 0 <= i < s.len() {
        lemma_calm_entry_done(cfg, dir_path, s[i], scope);
        lemma_calm_entries_done(cfg, dir_path, s, i + 1, scope);
    }
}

proof fn lemma_calm_entry_done(cfg: CfgV, dir_path: Seq<char>, e: FsEntry, scope: Option<ScopeV>)
    requires
        entry_calm(e),
    ensures
        walk_entry_v(cfg, dir_path, e, scope).outcome is Done,
    decreases e, 0int, 1int,
{
    lemma_calm_measure_kind(e);
    lemma_calm_descend_done(cfg, dir_path, e, scope);
}

proof fn lemma_calm_descend_done(
    cfg: CfgV,
    dir_path: Seq<char>,
    e: FsEntry,
    scope: Option<ScopeV>,
)
    requires
        entry_calm(e),
    ensures
        walk_descend_v(cfg, dir_path, e, scope).outcome is Done,
    decreases e, 0int, 0int,
{
    let path = join_v(dir_path, e.name@);
    match e.kind {
        EntryKind::Dir(sub) => {
            lemma_calm_walk_done(cfg, path, sub, scope);
            lemma_calm_shallow_done(cfg, path, sub, scope);
            match sub.rules {
                RuleSource::Text(txt) => {
                    lemma_calm_walk_done(
                        cfg,
                        path,
                        sub,
                        Option::Some(ScopeV { root: path, rules: txt@ }),
                    );
                },
                _ => {},
            }
        },
        _ => {},
    }
}

proof fn lemma_calm_shallow_done(
    cfg: CfgV,
    dir_path: Seq<char>,
    t: DirTree,
    scope: Option<ScopeV>,
)
    requires
        tree_calm(t),
    ensures
        walk_shallow_v(cfg, dir_path, t, scope).outcome is Done,
{
    match t.listing {
        Option::None => {},
        Option::Some(v) => {
            lemma_calm_shallow_entries_done(cfg, dir_path, v@, 0, scope);
        },
    }
}

proof fn lemma_calm_shallow_entries_done(
    cfg: CfgV,
    dir_path: Seq<char>,
    s: Seq<FsEntry>,
    i: int,
    scope: Option<ScopeV>,
)
    requires
        forall|k: int| 0 <= k < s.len() ==> entry_calm(#[trigger] s[k]),
    ensures
        walk_shallow_entries_v(cfg, dir_path, s, i, scope).outcome is Done,
    decreases s, s.len() - i,
{
    if 0 <= i < s.len() {
        lemma_calm_measure_kind(s[i]);
        lemma_calm_shallow_entries_done(cfg, dir_path, s, i + 1, scope);
    }
}

/// An ignored entry's planned deletion survives into its directory's walk:
/// on a complete snapshot, every step before it ends well, so nothing
/// truncates the listing's walk.
proof fn lemma_entries_carry_delete(
    cfg: CfgV,
    dir_path: Seq<char>,
    s: Seq<FsEntry>,
    j: int,
    i: int,
    scope: Option<ScopeV>,
    x: DeleteV,
)
    requires
        0 <= j <= i < s.len(),
        forall|k: int| 0 <= k < s.len() ==> entry_calm(#[trigger] s[k]),
        walk_entry_v(cfg, dir_path, s[i], scope).deletes.contains(x),
    ensures
        walk_entries_v(cfg, dir_path, s, j, scope).deletes.contains(x),
    decreases i - j,
{
    let a = walk_entry_v(cfg, dir_path, s[j], scope);
    let b = walk_entries_v(cfg, dir_path, s, j + 1, scope);
    lemma_calm_entry_done(cfg, dir_path, s[j], scope);
    if j == i {
        let idx = choose|idx: int| 0 <= idx < a.deletes.len() && a.deletes[idx] == x;
        assert(walk_seq(a, b).deletes[idx] == x);
        assert(walk_seq(a, b).deletes.contains(x));
    } else {
        lemma_entries_carry_delete(cfg, dir_path, s, j + 1, i, scope, x);
        let idx = choose|idx: int| 0 <= idx < b.deletes.len() && b.deletes[idx] == x;
        assert(walk_seq(a, b).deletes[a.deletes.len() + idx] == x);
        assert(walk_seq(a, b).deletes.contains(x));
    }
}

/// Under an active scope, an entry that the scope ignores — and that no skip
/// pattern excludes — has its deletion planned, unless it is a symbolic
/// link.  The completeness hypothesis is what the statement needs: on an
/// incomplete snapshot a listing or canonicalization failure can end the
/// walk before this entry is reached, just as the run itself would stop.
pub proof fn lemma_ignored_entry_planned(
    cfg: CfgV,
    dir_path: Seq<char>,
    t: DirTree,
    sc: ScopeV,
    i: int,
)
    requires
        tree_calm(t),
        t.listing matches Some(v) && 0 <= i < v@.len(),
        ({
            let e = t.listing->Some_0@[i];
            &&& e.canon matches Some(c) && !skipped_v(cfg.patterns, c@)
            &&& rules_verdict(
                sc.root,
                sc.rules,
                join_v(dir_path, e.name@),
                e.kind.matches_as_dir(),
            )
            &&& !(e.kind matches EntryKind::Symlink { .. })
        }),
    ensures
        walk_dir_v(cfg, dir_path, t, Option::Some(sc)).deletes.contains(
            delete_of(dir_path, t.listing->Some_0@[i]),
        ),
{
    let s = t.listing->Some_0@;
    let e = s[i];
    let path = join_v(dir_path, e.name@);
    lemma_calm_measure_kind(e);
    assert(walk_entry_v(cfg, dir_path, e, Option::Some(sc)) == walk_ignored_v(cfg, path, e));
    assert(walk_ignored_v(cfg, path, e).deletes[0] == delete_of(dir_path, e));
    assert(walk_entry_v(cfg, dir_path, e, Option::Some(sc)).deletes.contains(
        delete_of(dir_path, e),
    ));
    lemma_entries_carry_delete(cfg, dir_path, s, 0, i, Option::Some(sc), delete_of(dir_path, e));
}

/// A nested rule file governs its own directory alone, and does govern it:
/// when a kept subdirectory carries its own valid rule file, an entry inside
/// it that the nested scope ignores is planned for deletion — whatever the
/// inherited scope says about that entry, and without any rule file at the
/// root at all.
pub proof fn lemma_nested_scope_governs(
    cfg: CfgV,
    dir_path: Seq<char>,
    t: DirTree,
    scope: Option<ScopeV>,
    i: int,
    j: int,
)
    requires
        tree_calm(t),
        !cfg.skip_nested,
        t.listing matches Some(v) && 0 <= i < v@.len(),
        t.listing->Some_0@[i].kind matches EntryKind::Dir(sub) && sub.rules matches
            RuleSource::Text(txt) && rules_ok(txt@),
        // the subdirectory itself is kept under the inherited scope
        ({
            let e = t.listing->Some_0@[i];
            match scope {
                Option::None => true,
                Option::Some(sc) => !rules_verdict(
                    sc.root,
                    sc.rules,
                    join_v(dir_path, e.name@),
                    e.kind.matches_as_dir(),
                ) && !skipped_v(cfg.patterns, e.canon->Some_0@),
            }
        }),
        // inside it, entry `j` is ignored by the nested scope alone
        ({
            let e = t.listing->Some_0@[i];
            let sub = e.kind->Dir_0;
            let nested = join_v(dir_path, e.name@);
            &&& sub.listing matches Some(w) && 0 <= j < w@.len()
            &&& ({
                let f = sub.listing->Some_0@[j];
                &&& f.canon matches Some(c) && !skipped_v(cfg.patterns, c@)
                &&& rules_verdict(
                    nested,
                    e.kind->Dir_0.rules->Text_0@,
                    join_v(nested, f.name@),
                    f.kind.matches_as_dir(),
                )
                &&& !(f.kind matches EntryKind::Symlink { .. })
            })
        }),
    ensures
        walk_dir_v(cfg, dir_path, t, scope).deletes.contains(
            delete_of(
                join_v(dir_path, t.listing->Some_0@[i].name@),
                t.listing->Some_0@[i].kind->Dir_0.listing->Some_0@[j],
            ),
        ),
{
    let s = t.listing->Some_0@;
    let e = s[i];
    let sub = e.kind->Dir_0;
    let txt = sub.rules->Text_0;
    let nested = join_v(dir_path, e.name@);
    let nested_scope = ScopeV { root: nested, rules: txt@ };
    let f = sub.listing->Some_0@[j];
    let x = delete_of(nested, f);
    assert(entry_calm(e));
    assert(tree_calm(sub));
    lemma_ignored_entry_planned(cfg, nested, sub, nested_scope, j);
    // the subdirectory's walk stands inside the entry's own step
    let sub_walk = walk_dir_v(cfg, nested, sub, Option::Some(nested_scope));
    assert(walk_descend_v(cfg, dir_path, e, scope) == wrap_sub_v(cfg, nested, sub_walk));
    assert(wrap_sub_v(cfg, nested, sub_walk).deletes == sub_walk.deletes);
    assert(walk_entry_v(cfg, dir_path, e, scope).deletes.contains(x));
    lemma_entries_carry_delete(cfg, dir_path, s, 0, i, scope, x);
}

/// A planned deletion's witness: a real entry of the tree stands at the
/// deleted path, it is not a symbolic link, and its canonical path is known
/// and matched by no skip pattern.
pub open spec fn delete_witnessed(cfg: CfgV, dir_path: Seq<char>, t: DirTree, x: DeleteV) -> bool {
    exists|d: Seq<char>, e: FsEntry|
        {
            &&& #[trigger] entry_within(dir_path, t, d, e)
            &&& x.path == join_v(d, e.name@)
            &&& x.is_dir == e.kind.matches_as_dir()
            &&& !(e.kind matches EntryKind::Symlink { .. })
            &&& e.canon matches Some(c) && !skipped_v(cfg.patterns, c@)
        }
}

/// A deletion traced to one entry: either the entry itself, or something
/// inside it when it is a directory.
pub open spec fn delete_from_entry(cfg: CfgV, dir_path: Seq<char>, e: FsEntry, x: DeleteV) -> bool {
    ||| {
        &&& x == delete_of(dir_path, e)
        &&& !(e.kind matches EntryKind::Symlink { .. })
        &&& e.canon matches Some(c) && !skipped_v(cfg.patterns, c@)
    }
    ||| (e.kind matches EntryKind::Dir(sub) && delete_witnessed(
        cfg,
        join_v(dir_path, e.name@),
        sub,
        x,
    ))
}

/// Everything a walk plans to delete is witnessed: in particular, no symbolic
/// link of the tree supplies a planned deletion, and no entry whose canonical
/// path a skip pattern matches does — under any scope and any configuration.
pub proof fn lemma_deletes_are_witnessed(
    cfg: CfgV,
    dir_path: Seq<char>,
    t: DirTree,
    scope: Option<ScopeV>,
)
    ensures
        forall|k: int|
            0 <= k < walk_dir_v(cfg, dir_path, t, scope).deletes.len() ==> delete_witnessed(
                cfg,
                dir_path,
                t,
                #[trigger] walk_dir_v(cfg, dir_path, t, scope).deletes[k],
            ),
    decreases t, 0int, 2int,
{
    match t.listing {
        Option::None => {},
        Option::Some(v) => {
            lemma_entries_deletes_traced(cfg, dir_path, v@, 0, scope);
            assert forall|k: int|
                0 <= k < walk_dir_v(cfg, dir_path, t, scope).deletes.len() implies delete_witnessed(
                cfg,
                dir_path,
                t,
                #[trigger] walk_dir_v(cfg, dir_path, t, scope).deletes[k],
            ) by {
                let x = walk_dir_v(cfg, dir_path, t, scope).deletes[k];
                let j = choose|j: int|
                    0 <= j < v@.len() && delete_from_entry(cfg, dir_path, #[trigger] v@[j], x);
                if x == delete_of(dir_path, v@[j]) && !(v@[j].kind matches EntryKind::Symlink {
                    ..
                }) && (v@[j].canon matches Some(c) && !skipped_v(cfg.patterns, c@)) {
                    assert(entry_reaches(dir_path, v@[j], dir_path, v@[j]));
                    assert(entry_within(dir_path, t, dir_path, v@[j]));
                } else {
                    let sub = v@[j].kind->Dir_0;
                    let nested = join_v(dir_path, v@[j].name@);
                    let (d, e): (Seq<char>, FsEntry) = choose|d: Seq<char>, e: FsEntry|
                        {
                            &&& #[trigger] entry_within(nested, sub, d, e)
                            &&& x.path == join_v(d, e.name@)
                            &&& x.is_dir == e.kind.matches_as_dir()
                            &&& !(e.kind matches EntryKind::Symlink { .. })
                            &&& e.canon matches Some(c) && !skipped_v(cfg.patterns, c@)
                        };
                    assert(entry_reaches(dir_path, v@[j], d, e));
                    assert(entry_within(dir_path, t, d, e));
                }
            }
        },
    }
}

proof fn lemma_entries_deletes_traced(
    cfg: CfgV,
    dir_path: Seq<char>,
    s: Seq<FsEntry>,
    i: int,
    scope: Option<ScopeV>,
)
    ensures
        forall|k: int|
            0 <= k < walk_entries_v(cfg, dir_path, s, i, scope).deletes.len() ==> exists|j: int|
                {
                    &&& 0 <= j < s.len()
                    &&& delete_from_entry(
                        cfg,
                        dir_path,
                        #[trigger] s[j],
                        #[trigger] walk_entries_v(cfg, dir_path, s, i, scope).deletes[k],
                    )
                    &&& walk_entry_v(cfg, dir_path, s[j], scope).deletes.contains(
                        walk_entries_v(cfg, dir_path, s, i, scope).deletes[k],
                    )
                },
    decreases s, s.len() - i, 2int,
{
    if 0 <= i < s.len() {
        let a = walk_entry_v(cfg, dir_path, s[i], scope);
        let b = walk_entries_v(cfg, dir_path, s, i + 1, scope);
        lemma_entry_deletes_traced(cfg, dir_path, s[i], scope);
        lemma_entries_deletes_traced(cfg, dir_path, s, i + 1, scope);
        assert forall|k: int|
            0 <= k < walk_entries_v(cfg, dir_path, s, i, scope).deletes.len() implies exists|j: int|
            {
                &&& 0 <= j < s.len()
                &&& delete_from_entry(
                    cfg,
                    dir_path,
                    #[trigger] s[j],
                    #[trigger] walk_entries_v(cfg, dir_path, s, i, scope).deletes[k],
                )
                &&& walk_entry_v(cfg, dir_path, s[j], scope).deletes.contains(
                    walk_entries_v(cfg, dir_path, s, i, scope).deletes[k],
                )
            } by {
            let x = walk_entries_v(cfg, dir_path, s, i, scope).deletes[k];
            if a.outcome is Done {
                if k < a.deletes.len() {
                    assert(a.deletes[k] == x);
                    assert(a.deletes.contains(x));
                    assert(delete_from_entry(cfg, dir_path, s[i], x));
                } else {
                    assert(b.deletes[k - a.deletes.len()] == x);
                }
            } else {
                assert(a.deletes[k] == x);
                assert(a.deletes.contains(x));
                assert(delete_from_entry(cfg, dir_path, s[i], x));
            }
        }
    }
}

proof fn lemma_entry_deletes_traced(
    cfg: CfgV,
    dir_path: Seq<char>,
    e: FsEntry,
    scope: Option<ScopeV>,
)
    ensures
        forall|k: int|
            0 <= k < walk_entry_v(cfg, dir_path, e, scope).deletes.len() ==> delete_from_entry(
                cfg,
                dir_path,
                e,
                #[trigger] walk_entry_v(cfg, dir_path, e, scope).deletes[k],
            ),
    decreases e, 0int, 1int,
{
    lemma_descend_deletes_traced(cfg, dir_path, e, scope);
}

proof fn lemma_descend_deletes_traced(
    cfg: CfgV,
    dir_path: Seq<char>,
    e: FsEntry,
    scope: Option<ScopeV>,
)
    ensures
        forall|k: int|
            0 <= k < walk_descend_v(cfg, dir_path, e, scope).deletes.len() ==> (e.kind matches
                EntryKind::Dir(sub) && delete_witnessed(
                cfg,
                join_v(dir_path, e.name@),
                sub,
                #[trigger] walk_descend_v(cfg, dir_path, e, scope).deletes[k],
            )),
    decreases e, 0int, 0int,
{
    let path = join_v(dir_path, e.name@);
    match e.kind {
        EntryKind::Dir(sub) => {
            lemma_deletes_are_witnessed(cfg, path, sub, scope);
            lemma_shallow_deletes_witnessed(cfg, path, sub, scope);
            match sub.rules {
                RuleSource::Text(txt) => {
                    lemma_deletes_are_witnessed(
                        cfg,
                        path,
                        sub,
                        Option::Some(ScopeV { root: path, rules: txt@ }),
                    );
                },
                _ => {},
            }
            let broken = walk_broken_v(cfg, path, sub, scope);
            let shallow = wrap_sub_v(cfg, path, walk_shallow_v(cfg, path, sub, scope));
            assert forall|k: int| 0 <= k < broken.deletes.len() implies delete_witnessed(
                cfg,
                path,
                sub,
                #[trigger] broken.deletes[k],
            ) by {
                if !cfg.skip_nested {
                    assert(broken.deletes[k] == shallow.deletes[k]);
                }
            }
        },
        _ => {},
    }
}

/// Everything a shallow visit plans to delete is a direct entry of the
/// visited directory, not a symbolic link, with a known canonical path no
/// skip pattern matches.
proof fn lemma_shallow_deletes_witnessed(
    cfg: CfgV,
    dir_path: Seq<char>,
    t: DirTree,
    scope: Option<ScopeV>,
)
    ensures
        forall|k: int|
            0 <= k < walk_shallow_v(cfg, dir_path, t, scope).deletes.len() ==> delete_witnessed(
                cfg,
                dir_path,
                t,
                #[trigger] walk_shallow_v(cfg, dir_path, t, scope).deletes[k],
            ),
{
    match t.listing {
        Option::None => {},
        Option::Some(v) => {
            lemma_shallow_entries_deletes_traced(cfg, dir_path, v@, 0, scope);
            assert forall|k: int|
                0 <= k < walk_shallow_v(cfg, dir_path, t, scope).deletes.len() implies delete_witnessed(
                cfg,
                dir_path,
                t,
                #[trigger] walk_shallow_v(cfg, dir_path, t, scope).deletes[k],
            ) by {
                let x = walk_shallow_v(cfg, dir_path, t, scope).deletes[k];
                let j = choose|j: int|
                    {
                        &&& 0 <= j < v@.len()
                        &&& x == delete_of(dir_path, #[trigger] v@[j])
                        &&& !(v@[j].kind matches EntryKind::Symlink { .. })
                        &&& v@[j].canon matches Some(c) && !skipped_v(cfg.patterns, c@)
                    };
                assert(entry_reaches(dir_path, v@[j], dir_path, v@[j]));
                assert(entry_within(dir_path, t, dir_path, v@[j]));
            }
        },
    }
}

proof fn lemma_shallow_entries_deletes_traced(
    cfg: CfgV,
    dir_path: Seq<char>,
    s: Seq<FsEntry>,
    i: int,
    scope: Option<ScopeV>,
)
    ensures
        forall|k: int|
            0 <= k < walk_shallow_entries_v(cfg, dir_path, s, i, scope).deletes.len()
                ==> exists|j: int|
                {
                    &&& 0 <= j < s.len()
                    &&& #[trigger] walk_shallow_entries_v(cfg, dir_path, s, i, scope).deletes[k]
                        == delete_of(dir_path, #[trigger] s[j])
                    &&& !(s[j].kind matches EntryKind::Symlink { .. })
                    &&& s[j].canon matches Some(c) && !skipped_v(cfg.patterns, c@)
                },
    decreases s, s.len() - i,
{
    if 0 <= i < s.len() {
        let a = walk_shallow_entry_v(cfg, dir_path, s[i], scope);
        let b = walk_shallow_entries_v(cfg, dir_path, s, i + 1, scope);
        lemma_shallow_entries_deletes_traced(cfg, dir_path, s, i + 1, scope);
        assert forall|k: int|
            0 <= k < walk_shallow_entries_v(cfg, dir_path, s, i, scope).deletes.len()
                implies exists|j: int|
            {
                &&& 0 <= j < s.len()
                &&& #[trigger] walk_shallow_entries_v(cfg, dir_path, s, i, scope).deletes[k]
                    == delete_of(dir_path, #[trigger] s[j])
                &&& !(s[j].kind matches EntryKind::Symlink { .. })
                &&& s[j].canon matches Some(c) && !skipped_v(cfg.patterns, c@)
            } by {
            let x = walk_shallow_entries_v(cfg, dir_path, s, i, scope).deletes[k];
            if a.outcome is Done {
                if k < a.deletes.len() {
                    assert(a.deletes[k] == x);
                    assert(x == delete_of(dir_path, s[i]));
                } else {
                    assert(b.deletes[k - a.deletes.len()] == x);
                }
            } else {
                assert(a.deletes[k] == x);
            }
        }
    }
}

/// With no rule file anywhere, a whole run removes, reports and measures
/// nothing, whatever the configuration and the delete flag — and never ends
/// in the failure outcome.
pub proof fn lemma_no_rules_run_is_empty(c: CleanerV, root: DirTree)
    requires
        no_rule_files(root),
    ensures
        clean_v(c, root).deletes == Seq::<DeleteV>::empty(),
        clean_v(c, root).reports.len() == 0,
        clean_v(c, root).bytes == 0,
        !(clean_v(c, root).outcome is Failed),
{
    lemma_no_rules_nothing_removed(c.cfg(), c.path, root);
}

/// The root rule file governs the top level: a top-level entry it ignores —
/// no symlink, no skip-pattern match — has its deletion planned by the run.
/// Completeness of the snapshot is assumed for the same reason as above: an
/// earlier failure legitimately ends the run first.
pub proof fn lemma_root_ignored_entry_planned(c: CleanerV, root: DirTree, i: int)
    requires
        tree_calm(root),
        root.rules matches RuleSource::Text(txt) && rules_ok(txt@),
        root.listing matches Some(v) && 0 <= i < v@.len(),
        ({
            let e = root.listing->Some_0@[i];
            &&& e.canon matches Some(cn) && !skipped_v(c.cfg().patterns, cn@)
            &&& rules_verdict(
                c.path,
                root.rules->Text_0@,
                join_v(c.path, e.name@),
                e.kind.matches_as_dir(),
            )
            &&& !(e.kind matches EntryKind::Symlink { .. })
        }),
    ensures
        clean_v(c, root).deletes.contains(delete_of(c.path, root.listing->Some_0@[i])),
{
    let txt = root.rules->Text_0;
    lemma_ignored_entry_planned(
        c.cfg(),
        c.path,
        root,
        ScopeV { root: c.path, rules: txt@ },
        i,
    );
}

/// The root rule file governs the top level the other way too: a top-level
/// entry it keeps (or that a skip pattern excludes) is never planned for
/// deletion by the run.
pub proof fn lemma_root_kept_entry_survives(c: CleanerV, root: DirTree, i: int)
    requires
        crate::fs_model_props::wf_tree(root),
        root.rules matches RuleSource::Text(txt) && rules_ok(txt@),
        root.listing matches Some(v) && 0 <= i < v@.len(),
        ({
            let e = root.listing->Some_0@[i];
            e.canon matches Some(cn) ==> (skipped_v(c.cfg().patterns, cn@) || !rules_verdict(
                c.path,
                root.rules->Text_0@,
                join_v(c.path, e.name@),
                e.kind.matches_as_dir(),
            ))
        }),
    ensures
        forall|k: int|
            0 <= k < clean_v(c, root).deletes.len() ==> (#[trigger] clean_v(
                c,
                root,
            ).deletes[k]).path != join_v(c.path, root.listing->Some_0@[i].name@),
{
    let txt = root.rules->Text_0;
    lemma_kept_entry_never_deleted(
        c.cfg(),
        c.path,
        root,
        Option::Some(ScopeV { root: c.path, rules: txt@ }),
        i,
    );
}

/// A symbolic link is never planned for deletion: in a well-formed tree, no
/// planned deletion's path is the path of a symlink entry — under any scope,
/// any configuration, and in dry-run and delete mode alike.  Well-formedness
/// asks only what every real directory listing grants: nonempty,
/// separator-free names, unique within their directory; without it two
/// entries could share one path.
pub proof fn lemma_symlinks_never_deleted(
    cfg: CfgV,
    dir_path: Seq<char>,
    t: DirTree,
    scope: Option<ScopeV>,
    d: Seq<char>,
    e: FsEntry,
)
    requires
        crate::fs_model_props::wf_tree(t),
        entry_within(dir_path, t, d, e),
        e.kind matches EntryKind::Symlink { .. },
    ensures
        forall|k: int|
            0 <= k < walk_dir_v(cfg, dir_path, t, scope).deletes.len() ==> (
            #[trigger] walk_dir_v(cfg, dir_path, t, scope).deletes[k]).path != join_v(d, e.name@),
{
    lemma_deletes_are_witnessed(cfg, dir_path, t, scope);
    assert forall|k: int|
        0 <= k < walk_dir_v(cfg, dir_path, t, scope).deletes.len() implies (
    #[trigger] walk_dir_v(cfg, dir_path, t, scope).deletes[k]).path != join_v(d, e.name@) by {
        let x = walk_dir_v(cfg, dir_path, t, scope).deletes[k];
        if x.path == join_v(d, e.name@) {
            let (dw, ew): (Seq<char>, FsEntry) = choose|dw: Seq<char>, ew: FsEntry|
                {
                    &&& #[trigger] entry_within(dir_path, t, dw, ew)
                    &&& x.path == join_v(dw, ew.name@)
                    &&& x.is_dir == ew.kind.matches_as_dir()
                    &&& !(ew.kind matches EntryKind::Symlink { .. })
                    &&& ew.canon matches Some(c) && !skipped_v(cfg.patterns, c@)
                };
            crate::fs_model_props::lemma_unique_at_path(dir_path, t, dw, ew, d, e);
        }
    }
}

/// A skip pattern protects an entry absolutely: in a well-formed tree, an
/// entry whose canonical path some pattern matches never has its path planned
/// for deletion, even when the active scope ignores it.
pub proof fn lemma_skip_pattern_protects(
    cfg: CfgV,
    dir_path: Seq<char>,
    t: DirTree,
    scope: Option<ScopeV>,
    d: Seq<char>,
    e: FsEntry,
)
    requires
        crate::fs_model_props::wf_tree(t),
        entry_within(dir_path, t, d, e),
        e.canon matches Some(c) && skipped_v(cfg.patterns, c@),
    ensures
        forall|k: int|
            0 <= k < walk_dir_v(cfg, dir_path, t, scope).deletes.len() ==> (
            #[trigger] walk_dir_v(cfg, dir_path, t, scope).deletes[k]).path != join_v(d, e.name@),
{
    lemma_deletes_are_witnessed(cfg, dir_path, t, scope);
    assert forall|k: int|
        0 <= k < walk_dir_v(cfg, dir_path, t, scope).deletes.len() implies (
    #[trigger] walk_dir_v(cfg, dir_path, t, scope).deletes[k]).path != join_v(d, e.name@) by {
        let x = walk_dir_v(cfg, dir_path, t, scope).deletes[k];
        if x.path == join_v(d, e.name@) {
            let (dw, ew): (Seq<char>, FsEntry) = choose|dw: Seq<char>, ew: FsEntry|
                {
                    &&& #[trigger] entry_within(dir_path, t, dw, ew)
                    &&& x.path == join_v(dw, ew.name@)
                    &&& x.is_dir == ew.kind.matches_as_dir()
                    &&& !(ew.kind matches EntryKind::Symlink { .. })
                    &&& ew.canon matches Some(c) && !skipped_v(cfg.patterns, c@)
                };
            crate::fs_model_props::lemma_unique_at_path(dir_path, t, dw, ew, d, e);
        }
    }
}

/// An entry of the walked directory that its scope does not ignore — or that
/// a skip pattern excludes, or whose canonical path is unknown — is never
/// planned for deletion: deeper deletions carry strictly longer paths, and in
/// a well-formed tree no other entry shares its path.
/// A nested rule file shadows every ancestor absolutely, the negative way
/// round: in a well-formed tree, an entry inside a subdirectory that carries
/// its own valid rule file is never planned for deletion as long as the
/// *nested* scope keeps it (or a skip pattern excludes it, or its canonical
/// path is unknown) — whatever the inherited scope or any root rule file
/// says about that entry, and in every mode.
pub proof fn lemma_nested_kept_entry_survives(
    cfg: CfgV,
    dir_path: Seq<char>,
    t: DirTree,
    scope: Option<ScopeV>,
    i: int,
    j: int,
)
    requires
        crate::fs_model_props::wf_tree(t),
        t.listing matches Some(v) && 0 <= i < v@.len(),
        t.listing->Some_0@[i].kind matches EntryKind::Dir(sub) && sub.rules matches
            RuleSource::Text(txt) && rules_ok(txt@),
        t.listing->Some_0@[i].kind->Dir_0.listing matches Some(w) && 0 <= j < w@.len(),
        ({
            let e = t.listing->Some_0@[i];
            let nested = join_v(dir_path, e.name@);
            let f = e.kind->Dir_0.listing->Some_0@[j];
            f.canon matches Some(c) ==> (skipped_v(cfg.patterns, c@) || !rules_verdict(
                nested,
                e.kind->Dir_0.rules->Text_0@,
                join_v(nested, f.name@),
                f.kind.matches_as_dir(),
            ))
        }),
    ensures
        forall|k: int|
            0 <= k < walk_dir_v(cfg, dir_path, t, scope).deletes.len() ==> (
            #[trigger] walk_dir_v(cfg, dir_path, t, scope).deletes[k]).path != join_v(
                join_v(dir_path, t.listing->Some_0@[i].name@),
                t.listing->Some_0@[i].kind->Dir_0.listing->Some_0@[j].name@,
            ),
{
    reveal_strlit("/");
    let s = t.listing->Some_0@;
    let e = s[i];
    let sub = e.kind->Dir_0;
    let txt = sub.rules->Text_0;
    let nested = join_v(dir_path, e.name@);
    let nested_scope = ScopeV { root: nested, rules: txt@ };
    let f = sub.listing->Some_0@[j];
    let p = join_v(nested, f.name@);
    assert(crate::fs_model_props::wf_entry(e));
    assert(crate::fs_model_props::wf_tree(sub));
    assert(crate::fs_model_props::wf_entry(f));
    lemma_entries_deletes_traced(cfg, dir_path, s, 0, scope);
    lemma_kept_entry_never_deleted(cfg, nested, sub, Option::Some(nested_scope), j);
    assert forall|k: int|
        0 <= k < walk_dir_v(cfg, dir_path, t, scope).deletes.len() implies (
    #[trigger] walk_dir_v(cfg, dir_path, t, scope).deletes[k]).path != p by {
        let x = walk_dir_v(cfg, dir_path, t, scope).deletes[k];
        if x.path == p {
            let kj = choose|kj: int|
                {
                    &&& 0 <= kj < s.len()
                    &&& delete_from_entry(cfg, dir_path, #[trigger] s[kj], x)
                    &&& walk_entry_v(cfg, dir_path, s[kj], scope).deletes.contains(x)
                };
            assert(crate::fs_model_props::wf_entry(s[kj]));
            if x == delete_of(dir_path, s[kj]) && !(s[kj].kind matches EntryKind::Symlink { .. })
                && (s[kj].canon matches Some(c) && !skipped_v(cfg.patterns, c@)) {
                // a top-level entry's own path is one level too short
                crate::fs_model_props::lemma_join_injective(dir_path, s[kj].name@, nested, f.name@);
                assert(false);
            } else {
                // the deletion lies inside some top-level subdirectory; paths
                // force it to be entry `i`'s
                let sub_kj = s[kj].kind->Dir_0;
                let p_kj = join_v(dir_path, s[kj].name@);
                let (dw, ew): (Seq<char>, FsEntry) = choose|dw: Seq<char>, ew: FsEntry|
                    {
                        &&& #[trigger] entry_within(p_kj, sub_kj, dw, ew)
                        &&& x.path == join_v(dw, ew.name@)
                        &&& x.is_dir == ew.kind.matches_as_dir()
                        &&& !(ew.kind matches EntryKind::Symlink { .. })
                        &&& ew.canon matches Some(c) && !skipped_v(cfg.patterns, c@)
                    };
                crate::fs_model_props::lemma_within_wf(p_kj, sub_kj, dw, ew);
                crate::fs_model_props::lemma_join_injective(dw, ew.name@, nested, f.name@);
                crate::fs_model_props::lemma_within_path_extends(p_kj, sub_kj, dw, ew);
                crate::fs_model_props::lemma_nested_prefixes_agree(
                    dir_path,
                    s[kj].name@,
                    e.name@,
                    nested,
                );
                assert(s[kj].name@ == e.name@);
                assert(kj == i);
                // entry `i`'s own step: an ignored leaf's path is too short,
                // and its descent walks the subdirectory under the nested
                // scope, which keeps `f`
                let step = walk_entry_v(cfg, dir_path, e, scope);
                let desc = walk_descend_v(cfg, dir_path, e, scope);
                assert(step == walk_ignored_v(cfg, nested, e) || step == desc
                    || step.deletes.len() == 0);
                if step == walk_ignored_v(cfg, nested, e) && step.deletes.len() > 0 {
                    assert(step.deletes[0].path == nested);
                    assert(nested.len() < p.len());
                    assert(false);
                } else {
                    let sub_walk = walk_dir_v(
                        cfg,
                        nested,
                        sub,
                        Option::Some(nested_scope),
                    );
                    assert(cfg.skip_nested || desc == wrap_sub_v(cfg, nested, sub_walk));
                    if cfg.skip_nested {
                        assert(desc.deletes.len() == 0);
                    } else {
                        assert(desc.deletes == sub_walk.deletes);
                    }
                    assert(false);
                }
            }
        }
    }
}

pub proof fn lemma_kept_entry_never_deleted(
    cfg: CfgV,
    dir_path: Seq<char>,
    t: DirTree,
    scope: Option<ScopeV>,
    i: int,
)
    requires
        crate::fs_model_props::wf_tree(t),
        t.listing matches Some(v) && 0 <= i < v@.len(),
        ({
            let e = t.listing->Some_0@[i];
            match scope {
                Option::None => true,
                Option::Some(sc) => (e.canon matches Some(c) ==> (skipped_v(cfg.patterns, c@)
                    || !rules_verdict(
                    sc.root,
                    sc.rules,
                    join_v(dir_path, e.name@),
                    e.kind.matches_as_dir(),
                ))),
            }
        }),
    ensures
        forall|k: int|
            0 <= k < walk_dir_v(cfg, dir_path, t, scope).deletes.len() ==> (
            #[trigger] walk_dir_v(cfg, dir_path, t, scope).deletes[k]).path != join_v(
                dir_path,
                t.listing->Some_0@[i].name@,
            ),
{
    reveal_strlit("/");
    let s = t.listing->Some_0@;
    let e = s[i];
    let p = join_v(dir_path, e.name@);
    lemma_entries_deletes_traced(cfg, dir_path, s, 0, scope);
    assert forall|k: int|
        0 <= k < walk_dir_v(cfg, dir_path, t, scope).deletes.len() implies (
    #[trigger] walk_dir_v(cfg, dir_path, t, scope).deletes[k]).path != p by {
        let x = walk_dir_v(cfg, dir_path, t, scope).deletes[k];
        if x.path == p {
            let j = choose|j: int|
                {
                    &&& 0 <= j < s.len()
                    &&& delete_from_entry(cfg, dir_path, #[trigger] s[j], x)
                    &&& walk_entry_v(cfg, dir_path, s[j], scope).deletes.contains(x)
                };
            assert(crate::fs_model_props::wf_entry(s[j]));
            assert(crate::fs_model_props::wf_entry(e));
            if x == delete_of(dir_path, s[j]) && !(s[j].kind matches EntryKind::Symlink { .. })
                && (s[j].canon matches Some(c) && !skipped_v(cfg.patterns, c@)) {
                crate::fs_model_props::lemma_join_injective(
                    dir_path,
                    s[j].name@,
                    dir_path,
                    e.name@,
                );
                assert(j == i);
                // the entry's own step only descends, so its deletions lie deeper
                assert(walk_entry_v(cfg, dir_path, e, scope) == walk_descend_v(
                    cfg,
                    dir_path,
                    e,
                    scope,
                ));
                lemma_no_delete_at_own_path(cfg, dir_path, e, scope, x);
            } else {
                lemma_deeper_delete_differs(cfg, dir_path, s[j], x, p, e);
            }
        }
    }
}

/// A descent below an entry never plans a deletion at a path as short as the
/// walked directory's children's paths.
proof fn lemma_no_delete_at_own_path(
    cfg: CfgV,
    dir_path: Seq<char>,
    e: FsEntry,
    scope: Option<ScopeV>,
    x: DeleteV,
)
    requires
        crate::fs_model_props::wf_entry(e),
        walk_descend_v(cfg, dir_path, e, scope).deletes.contains(x),
    ensures
        x.path != join_v(dir_path, e.name@),
{
    reveal_strlit("/");
    lemma_descend_deletes_traced(cfg, dir_path, e, scope);
    let p = join_v(dir_path, e.name@);
    let k = choose|k: int|
        0 <= k < walk_descend_v(cfg, dir_path, e, scope).deletes.len() && walk_descend_v(
            cfg,
            dir_path,
            e,
            scope,
        ).deletes[k] == x;
    let sub = e.kind->Dir_0;
    let (dw, ew): (Seq<char>, FsEntry) = choose|dw: Seq<char>, ew: FsEntry|
        {
            &&& #[trigger] entry_within(p, sub, dw, ew)
            &&& x.path == join_v(dw, ew.name@)
            &&& x.is_dir == ew.kind.matches_as_dir()
            &&& !(ew.kind matches EntryKind::Symlink { .. })
            &&& ew.canon matches Some(c) && !skipped_v(cfg.patterns, c@)
        };
    crate::fs_model_props::lemma_within_path_extends(p, sub, dw, ew);
    assert(x.path.len() >= dw.len() + 1);
    assert(dw.len() >= p.len());
}

/// A deletion traced below some other entry of the directory has a path that
/// differs from every direct child's path.
proof fn lemma_deeper_delete_differs(
    cfg: CfgV,
    dir_path: Seq<char>,
    xj: FsEntry,
    x: DeleteV,
    p: Seq<char>,
    e: FsEntry,
)
    requires
        crate::fs_model_props::wf_entry(xj),
        crate::fs_model_props::wf_entry(e),
        p == join_v(dir_path, e.name@),
        delete_from_entry(cfg, dir_path, xj, x),
        !(x == delete_of(dir_path, xj) && !(xj.kind matches EntryKind::Symlink { .. }) && (
        xj.canon matches Some(c) && !skipped_v(cfg.patterns, c@))),
    ensures
        x.path != p,
{
    reveal_strlit("/");
    let pj = join_v(dir_path, xj.name@);
    let sub = xj.kind->Dir_0;
    if x.path == p {
        let (dw, ew): (Seq<char>, FsEntry) = choose|dw: Seq<char>, ew: FsEntry|
            {
                &&& #[trigger] entry_within(pj, sub, dw, ew)
                &&& x.path == join_v(dw, ew.name@)
                &&& x.is_dir == ew.kind.matches_as_dir()
                &&& !(ew.kind matches EntryKind::Symlink { .. })
                &&& ew.canon matches Some(c) && !skipped_v(cfg.patterns, c@)
            };
        crate::fs_model_props::lemma_within_wf(pj, sub, dw, ew);
        crate::fs_model_props::lemma_join_injective(dw, ew.name@, dir_path, e.name@);
        crate::fs_model_props::lemma_within_path_extends(pj, sub, dw, ew);
        assert(dw.len() >= pj.len());
        assert(pj.len() > dir_path.len());
    }
}

} // verus!
