//! Tree-wide predicates the laws speak of: trees without rule files, and
//! trees whose snapshot is complete (every directory listed, every entry
//! canonicalized).

use vstd::prelude::*;

use crate::fs_model::DirTree;
use crate::fs_model::EntryKind;
use crate::fs_model::FsEntry;

verus! {

/// No directory in the tree, the root included, has a rule file.
pub open spec fn no_rule_files(t: DirTree) -> bool
    decreases t, 0int,
{
    &&& t.rules is Absent
    &&& match t.listing {
        Option::None => true,
        Option::Some(v) => forall|i: int|
            0 <= i < v@.len() ==> entry_no_rule_files(#[trigger] v@[i]),
    }
}

pub open spec fn entry_no_rule_files(e: FsEntry) -> bool
    decreases e, 0int,
{
    match e.kind {
        EntryKind::Dir(sub) => no_rule_files(sub),
        _ => true,
    }
}

/// The snapshot is complete: every directory could be listed and every
/// entry's canonical path is known.  On such a tree the walk never fails.
pub open spec fn tree_calm(t: DirTree) -> bool
    decreases t, 0int,
{
    match t.listing {
        Option::None => false,
        Option::Some(v) => forall|i: int| 0 <= i < v@.len() ==> entry_calm(#[trigger] v@[i]),
    }
}

pub open spec fn entry_calm(e: FsEntry) -> bool
    decreases e, 0int,
{
    &&& e.canon is Some
    &&& match e.kind {
        EntryKind::Dir(sub) => tree_calm(sub),
        _ => true,
    }
}

/// An entry of the tree: `e` stands in the directory whose path is `d`,
/// where paths grow from `dir_path` by joining names.
pub open spec fn entry_within(dir_path: Seq<char>, t: DirTree, d: Seq<char>, e: FsEntry) -> bool
    decreases t, 0int,
{
    match t.listing {
        Option::None => false,
        Option::Some(v) => exists|i: int|
            0 <= i < v@.len() && entry_reaches(dir_path, #[trigger] v@[i], d, e),
    }
}

pub open spec fn entry_reaches(dir_path: Seq<char>, x: FsEntry, d: Seq<char>, e: FsEntry) -> bool
    decreases x, 0int,
{
    ||| (d == dir_path && x == e)
    ||| (match x.kind {
        EntryKind::Dir(sub) => entry_within(
            crate::walk::join_v(dir_path, x.name@),
            sub,
            d,
            e,
        ),
        _ => false,
    })
}

/// A name contains no path separator.
pub open spec fn no_slash(n: Seq<char>) -> bool {
    forall|i: int| 0 <= i < n.len() ==> n[i] != '/'
}

/// A snapshot as a real filesystem hands it out: every name is nonempty and
/// separator-free, and names are unique within each directory.
pub open spec fn wf_tree(t: DirTree) -> bool
    decreases t, 0int,
{
    match t.listing {
        Option::None => true,
        Option::Some(v) => {
            &&& forall|i: int| 0 <= i < v@.len() ==> wf_entry(#[trigger] v@[i])
            &&& forall|i: int, j: int|
                0 <= i < v@.len() && 0 <= j < v@.len() && i != j ==> (#[trigger] v@[i].name)@ != (
                #[trigger] v@[j].name)@
        },
    }
}

pub open spec fn wf_entry(e: FsEntry) -> bool
    decreases e, 0int,
{
    &&& e.name@.len() > 0
    &&& no_slash(e.name@)
    &&& match e.kind {
        EntryKind::Dir(sub) => wf_tree(sub),
        _ => true,
    }
}

/// `d` lies strictly below `p`: it begins with `p` followed by a separator.
pub open spec fn strict_ext(p: Seq<char>, d: Seq<char>) -> bool {
    &&& d.len() > p.len()
    &&& d.subrange(0, p.len() as int) == p
    &&& d[p.len() as int] == '/'
}

/// Joining is injective when names are separator-free: the separator before
/// the name is the last one in the joined path.
pub proof fn lemma_join_injective(d1: Seq<char>, n1: Seq<char>, d2: Seq<char>, n2: Seq<char>)
    requires
        no_slash(n1),
        no_slash(n2),
        crate::walk::join_v(d1, n1) == crate::walk::join_v(d2, n2),
    ensures
        d1 == d2,
        n1 == n2,
{
    reveal_strlit("/");
    let l = crate::walk::join_v(d1, n1);
    assert(l.len() == d1.len() + 1 + n1.len());
    assert(l.len() == d2.len() + 1 + n2.len());
    assert(l[d1.len() as int] == '/');
    assert(l[d2.len() as int] == '/');
    if d1.len() < d2.len() {
        assert(l[d2.len() as int] == n1[d2.len() - d1.len() - 1]);
        assert(false);
    }
    if d2.len() < d1.len() {
        assert(l[d1.len() as int] == n2[d1.len() - d2.len() - 1]);
        assert(false);
    }
    assert(d1 =~= d2) by {
        assert forall|i: int| 0 <= i < d1.len() implies d1[i] == d2[i] by {
            assert(l[i] == d1[i]);
            assert(l[i] == d2[i]);
        }
    }
    assert(n1 =~= n2) by {
        assert forall|i: int| 0 <= i < n1.len() implies n1[i] == n2[i] by {
            assert(l[d1.len() + 1 + i] == n1[i]);
            assert(l[d2.len() + 1 + i] == n2[i]);
        }
    }
}

/// Every directory path realized inside a tree either is the tree's own path
/// or lies strictly below it.
pub proof fn lemma_within_path_extends(dir_path: Seq<char>, t: DirTree, d: Seq<char>, e: FsEntry)
    requires
        entry_within(dir_path, t, d, e),
    ensures
        d == dir_path || strict_ext(dir_path, d),
    decreases t, 0int,
{
    reveal_strlit("/");
    let v = t.listing->Some_0;
    let i = choose|i: int| 0 <= i < v@.len() && entry_reaches(dir_path, #[trigger] v@[i], d, e);
    let x = v@[i];
    if d == dir_path && x == e {
    } else {
        let sub = x.kind->Dir_0;
        let p1 = crate::walk::join_v(dir_path, x.name@);
        lemma_within_path_extends(p1, sub, d, e);
        assert(p1[dir_path.len() as int] == '/');
        assert(p1.subrange(0, dir_path.len() as int) =~= dir_path);
        if d == p1 {
            assert(strict_ext(dir_path, d));
        } else {
            assert(d.subrange(0, p1.len() as int) == p1);
            assert(d.subrange(0, dir_path.len() as int) =~= dir_path) by {
                assert forall|k: int| 0 <= k < dir_path.len() implies d[k] == dir_path[k] by {
                    assert(d.subrange(0, p1.len() as int)[k] == d[k]);
                    assert(p1[k] == dir_path[k]);
                }
            }
            assert(d[dir_path.len() as int] == p1[dir_path.len() as int]) by {
                assert(d.subrange(0, p1.len() as int)[dir_path.len() as int] == d[dir_path.len() as int]);
            }
            assert(strict_ext(dir_path, d));
        }
    }
}

/// Every entry of a well-formed tree is itself well formed.
pub proof fn lemma_within_wf(dir_path: Seq<char>, t: DirTree, d: Seq<char>, e: FsEntry)
    requires
        wf_tree(t),
        entry_within(dir_path, t, d, e),
    ensures
        wf_entry(e),
    decreases t, 0int,
{
    let v = t.listing->Some_0;
    let i = choose|i: int| 0 <= i < v@.len() && entry_reaches(dir_path, #[trigger] v@[i], d, e);
    let x = v@[i];
    assert(wf_entry(x));
    if d == dir_path && x == e {
    } else {
        lemma_within_wf(crate::walk::join_v(dir_path, x.name@), x.kind->Dir_0, d, e);
    }
}

/// In a well-formed tree, the joined path of an entry determines the entry:
/// two entries whose directory paths and names join to the same path are one.
pub proof fn lemma_unique_at_path(
    dir_path: Seq<char>,
    t: DirTree,
    d1: Seq<char>,
    e1: FsEntry,
    d2: Seq<char>,
    e2: FsEntry,
)
    requires
        wf_tree(t),
        entry_within(dir_path, t, d1, e1),
        entry_within(dir_path, t, d2, e2),
        crate::walk::join_v(d1, e1.name@) == crate::walk::join_v(d2, e2.name@),
    ensures
        d1 == d2,
        e1 == e2,
    decreases t, 0int,
{
    reveal_strlit("/");
    let v = t.listing->Some_0;
    let i1 = choose|i: int| 0 <= i < v@.len() && entry_reaches(dir_path, #[trigger] v@[i], d1, e1);
    let i2 = choose|i: int| 0 <= i < v@.len() && entry_reaches(dir_path, #[trigger] v@[i], d2, e2);
    let x1 = v@[i1];
    let x2 = v@[i2];
    assert(wf_entry(x1));
    assert(wf_entry(x2));
    lemma_within_wf(dir_path, t, d1, e1);
    lemma_within_wf(dir_path, t, d2, e2);
    lemma_join_injective(d1, e1.name@, d2, e2.name@);
    let d = d1;
    let direct1 = d1 == dir_path && x1 == e1;
    let direct2 = d2 == dir_path && x2 == e2;
    if direct1 && direct2 {
        assert(x1.name@ == x2.name@);
        if i1 != i2 {
            assert(false);
        }
    } else if direct1 && !direct2 {
        let p2 = crate::walk::join_v(dir_path, x2.name@);
        lemma_within_path_extends(p2, x2.kind->Dir_0, d2, e2);
        assert(d2.len() >= p2.len());
        assert(false);
    } else if !direct1 && direct2 {
        let p1 = crate::walk::join_v(dir_path, x1.name@);
        lemma_within_path_extends(p1, x1.kind->Dir_0, d1, e1);
        assert(d1.len() >= p1.len());
        assert(false);
    } else {
        let p1 = crate::walk::join_v(dir_path, x1.name@);
        let p2 = crate::walk::join_v(dir_path, x2.name@);
        lemma_within_path_extends(p1, x1.kind->Dir_0, d1, e1);
        lemma_within_path_extends(p2, x2.kind->Dir_0, d2, e2);
        lemma_nested_prefixes_agree(dir_path, x1.name@, x2.name@, d);
        assert(x1.name@ == x2.name@);
        if i1 != i2 {
            assert(false);
        }
        assert(x1 == x2);
        lemma_unique_at_path(p1, x1.kind->Dir_0, d1, e1, d2, e2);
    }
}

/// Two separator-free names whose joined directory paths both lie on the way
/// to one path `d` are the same name.
pub proof fn lemma_nested_prefixes_agree(dir_path: Seq<char>, n1: Seq<char>, n2: Seq<char>, d: Seq<char>)
    requires
        no_slash(n1),
        no_slash(n2),
        n1.len() > 0,
        n2.len() > 0,
        ({
            let p1 = crate::walk::join_v(dir_path, n1);
            d == p1 || strict_ext(p1, d)
        }),
        ({
            let p2 = crate::walk::join_v(dir_path, n2);
            d == p2 || strict_ext(p2, d)
        }),
    ensures
        n1 == n2,
{
    reveal_strlit("/");
    let p1 = crate::walk::join_v(dir_path, n1);
    let p2 = crate::walk::join_v(dir_path, n2);
    // both p1 and p2 are prefixes of d
    assert forall|k: int| 0 <= k < p1.len() implies d[k] == p1[k] by {
        if d != p1 {
            assert(d.subrange(0, p1.len() as int)[k] == d[k]);
        }
    }
    assert forall|k: int| 0 <= k < p2.len() implies d[k] == p2[k] by {
        if d != p2 {
            assert(d.subrange(0, p2.len() as int)[k] == d[k]);
        }
    }
    if p1.len() < p2.len() {
        // the separator or end at p1's length falls inside `n2`
        assert(p2[p1.len() as int] == n2[p1.len() - dir_path.len() - 1]);
        if d == p1 {
            assert(d.len() >= p2.len());
            assert(false);
        } else {
            assert(d[p1.len() as int] == '/');
            assert(false);
        }
    }
    if p2.len() < p1.len() {
        assert(p1[p2.len() as int] == n1[p2.len() - dir_path.len() - 1]);
        if d == p2 {
            assert(d.len() >= p1.len());
            assert(false);
        } else {
            assert(d[p2.len() as int] == '/');
            assert(false);
        }
    }
    assert(n1 =~= n2) by {
        assert forall|i: int| 0 <= i < n1.len() implies n1[i] == n2[i] by {
            assert(p1[dir_path.len() + 1 + i] == n1[i]);
            assert(p2[dir_path.len() + 1 + i] == n2[i]);
            assert(d[dir_path.len() + 1 + i] == p1[dir_path.len() + 1 + i]);
            assert(d[dir_path.len() + 1 + i] == p2[dir_path.len() + 1 + i]);
        }
    }
}

} // verus!
