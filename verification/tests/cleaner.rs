//! The cleaner exercised over in-memory snapshots, with the real rule and
//! pattern engines linked in.

use rsc::CleanError;
use rsc::Cleaner;
use rsc::DirTree;
use rsc::EntryKind;
use rsc::FsEntry;
use rsc::NoteKind;
use rsc::Outcome;
use rsc::RuleSource;

fn file(dir: &str, name: &str, size: u64) -> FsEntry {
    FsEntry {
        name: name.to_string(),
        canon: Some(format!("{}/{}", dir, name)),
        kind: EntryKind::File { size },
    }
}

fn symlink(name: &str, canon_target: &str, to_dir: bool) -> FsEntry {
    FsEntry {
        name: name.to_string(),
        canon: Some(canon_target.to_string()),
        kind: EntryKind::Symlink { to_dir, size: 0 },
    }
}

fn dir(parent: &str, name: &str, rules: RuleSource, entries: Vec<FsEntry>) -> FsEntry {
    FsEntry {
        name: name.to_string(),
        canon: Some(format!("{}/{}", parent, name)),
        kind: EntryKind::Dir(DirTree { rules, listing: Some(entries) }),
    }
}

fn cleaner(path: &str, delete: bool) -> Cleaner {
    match Cleaner::try_create(path.to_string(), delete, true, false, false, None, false) {
        Ok(c) => c,
        Err(_) => panic!("patterns compile"),
    }
}

fn delete_paths(plan: &rsc::Plan) -> Vec<String> {
    let mut out = Vec::new();
    for d in plan.deletes.iter() {
        out.push(d.path.clone());
    }
    out
}

#[test]
fn delete_ignored_files() {
    let root = DirTree {
        rules: RuleSource::Text("ignored.txt\n".to_string()),
        listing: Some(vec![
            file("base", ".gitignore", 12),
            file("base", "ignored.txt", 0),
            file("base", "not_ignored.txt", 0),
        ]),
    };
    let mut c = cleaner("base", true);
    let r = c.clean(&root);
    assert!(matches!(r.outcome, Outcome::Done));
    let paths = delete_paths(&r.plan);
    assert!(paths.contains(&"base/ignored.txt".to_string()));
    assert!(!paths.contains(&"base/not_ignored.txt".to_string()));
    assert_eq!(paths.len(), 1);
}

#[test]
fn delete_inner_ignored_file() {
    let folder = dir(
        "base/some/sub",
        "folder",
        RuleSource::Text("inner_ignored.txt\n".to_string()),
        vec![
            file("base/some/sub/folder", ".gitignore", 18),
            file("base/some/sub/folder", "inner_ignored.txt", 0),
            file("base/some/sub/folder", "not_inner_ignored.txt", 0),
        ],
    );
    let sub = dir("base/some", "sub", RuleSource::Absent, vec![folder]);
    let some = dir("base", "some", RuleSource::Absent, vec![sub]);
    let root = DirTree { rules: RuleSource::Absent, listing: Some(vec![some]) };
    let mut c = cleaner("base", true);
    let r = c.clean(&root);
    assert!(matches!(r.outcome, Outcome::Done));
    let paths = delete_paths(&r.plan);
    assert!(paths.contains(&"base/some/sub/folder/inner_ignored.txt".to_string()));
    assert!(!paths.contains(&"base/some/sub/folder/not_inner_ignored.txt".to_string()));
    assert_eq!(paths.len(), 1);
}

#[test]
fn delete_ignored_files_and_folder() {
    let root = DirTree {
        rules: RuleSource::Text("ignored.txt\nfolder\n".to_string()),
        listing: Some(vec![
            file("base", ".gitignore", 19),
            file("base", "ignored.txt", 0),
            file("base", "not_ignored.txt", 0),
            dir("base", "folder", RuleSource::Absent, vec![]),
        ]),
    };
    let mut c = cleaner("base", true);
    let r = c.clean(&root);
    let paths = delete_paths(&r.plan);
    assert!(!paths.contains(&"base/not_ignored.txt".to_string()));
    assert!(paths.contains(&"base/ignored.txt".to_string()));
    assert!(paths.contains(&"base/folder".to_string()));
    for d in r.plan.deletes.iter() {
        if d.path == "base/folder" {
            assert!(d.is_dir);
        }
        if d.path == "base/ignored.txt" {
            assert!(!d.is_dir);
        }
    }
}

#[test]
fn parent_gitignore_not_touching_sub_gitignore() {
    let inner = dir(
        "base",
        "inner",
        RuleSource::Text("nothing\n".to_string()),
        vec![file("base/inner", ".gitignore", 8), file("base/inner", "inner.txt", 0)],
    );
    let root = DirTree {
        rules: RuleSource::Text("inner.txt\n".to_string()),
        listing: Some(vec![file("base", ".gitignore", 10), inner]),
    };
    let mut c = cleaner("base", true);
    let r = c.clean(&root);
    let paths = delete_paths(&r.plan);
    assert!(!paths.contains(&"base/inner/inner.txt".to_string()));
}

#[test]
fn no_files_deleted_when_no_gitignore() {
    let root = DirTree {
        rules: RuleSource::Absent,
        listing: Some(vec![
            file("base", "file1.txt", 0),
            file("base", "file2.txt", 0),
            file("base", "file3.txt", 0),
        ]),
    };
    let mut c = match Cleaner::try_create(
        "base".to_string(),
        false,
        false,
        false,
        false,
        None,
        false,
    ) {
        Ok(c) => c,
        Err(_) => panic!("patterns compile"),
    };
    let r = c.clean(&root);
    assert!(matches!(r.outcome, Outcome::Done));
    assert!(r.plan.deletes.is_empty());
}

#[test]
fn ensure_symlink_files_never_deleted() {
    let root = DirTree {
        rules: RuleSource::Text("symlink.txt\n".to_string()),
        listing: Some(vec![
            file("base", "target_file.txt", 0),
            file("base", ".gitignore", 12),
            symlink("symlink.txt", "base/target_file.txt", false),
        ]),
    };
    let mut c = cleaner("base", true);
    let r = c.clean(&root);
    assert!(r.plan.deletes.is_empty());
}

#[test]
fn ensure_symlink_folders_never_deleted() {
    let root = DirTree {
        rules: RuleSource::Text("symlinked_folder/\n".to_string()),
        listing: Some(vec![
            file("base", ".gitignore", 18),
            symlink("symlinked_folder", "elsewhere", true),
        ]),
    };
    let mut c = cleaner("base", true);
    let r = c.clean(&root);
    assert!(r.plan.deletes.is_empty());
}

#[test]
fn dry_run_plans_the_same_deletions() {
    let root = DirTree {
        rules: RuleSource::Text("ignored.txt\n".to_string()),
        listing: Some(vec![
            file("base", "ignored.txt", 7),
            file("base", "not_ignored.txt", 3),
        ]),
    };
    let mut dry = cleaner("base", false);
    let mut wet = cleaner("base", true);
    let a = dry.clean(&root);
    let b = wet.clean(&root);
    assert_eq!(delete_paths(&a.plan), delete_paths(&b.plan));
    assert_eq!(a.plan.reports.len(), b.plan.reports.len());
    assert_eq!(a.plan.total_bytes, b.plan.total_bytes);
}

#[test]
fn skip_pattern_protects_matching_entry() {
    let root = DirTree {
        rules: RuleSource::Text("*.txt\n".to_string()),
        listing: Some(vec![
            file("base", "ignored.txt", 0),
            file("base", "other_ignored.txt", 0),
        ]),
    };
    // the pattern matches the canonical path of `ignored.txt` alone
    let mut c = match Cleaner::try_create(
        "base".to_string(),
        true,
        true,
        false,
        false,
        Some(vec!["^base/ignored".to_string()]),
        false,
    ) {
        Ok(c) => c,
        Err(_) => panic!("patterns compile"),
    };
    let r = c.clean(&root);
    let paths = delete_paths(&r.plan);
    assert!(!paths.contains(&"base/ignored.txt".to_string()));
    assert!(paths.contains(&"base/other_ignored.txt".to_string()));
}

#[test]
fn bad_skip_pattern_is_a_configuration_error() {
    let r = Cleaner::try_create(
        "base".to_string(),
        false,
        false,
        false,
        false,
        Some(vec!["ok".to_string(), "(".to_string()]),
        false,
    );
    match r {
        Ok(_) => panic!("the malformed pattern must be refused"),
        Err(CleanError::BadPattern { pattern }) => assert_eq!(pattern, "("),
    }
}

#[test]
fn sizes_are_measured_and_totalled() {
    let folder = dir(
        "base",
        "folder",
        RuleSource::Absent,
        vec![file("base/folder", "a.bin", 100), file("base/folder", "b.bin", 200)],
    );
    let root = DirTree {
        rules: RuleSource::Text("folder\nbig.bin\n".to_string()),
        listing: Some(vec![file("base", "big.bin", 215), folder]),
    };
    let mut c = match Cleaner::try_create(
        "base".to_string(),
        false,
        false,
        false,
        false,
        None,
        true,
    ) {
        Ok(c) => c,
        Err(_) => panic!("patterns compile"),
    };
    let r = c.clean(&root);
    assert_eq!(r.plan.total_bytes, 515);
    let mut seen_file = false;
    let mut seen_dir = false;
    for rep in r.plan.reports.iter() {
        if rep.path == "base/big.bin" {
            assert_eq!(rep.size_text.as_ref().map(|s| s.as_str()), Some("215 B"));
            seen_file = true;
        }
        if rep.path == "base/folder" {
            assert_eq!(rep.size_text.as_ref().map(|s| s.as_str()), Some("300 B"));
            seen_dir = true;
        }
    }
    assert!(seen_file && seen_dir);
    assert_eq!(r.total_text.as_ref().map(|s| s.as_str()), Some("515 B"));
}

#[test]
fn quiet_mode_suppresses_reports_not_decisions() {
    let root = DirTree {
        rules: RuleSource::Text("ignored.txt\n".to_string()),
        listing: Some(vec![file("base", "ignored.txt", 9)]),
    };
    let mut c = match Cleaner::try_create(
        "base".to_string(),
        false,
        true,
        false,
        false,
        None,
        true,
    ) {
        Ok(c) => c,
        Err(_) => panic!("patterns compile"),
    };
    let r = c.clean(&root);
    assert!(r.plan.reports.is_empty());
    assert_eq!(delete_paths(&r.plan), vec!["base/ignored.txt".to_string()]);
    assert_eq!(r.plan.total_bytes, 9);
}

#[test]
fn broken_root_rule_file_stops_everything() {
    let root = DirTree {
        rules: RuleSource::Unreadable,
        listing: Some(vec![file("base", "ignored.txt", 0)]),
    };
    let mut c = match Cleaner::try_create(
        "base".to_string(),
        true,
        false,
        false,
        false,
        None,
        true,
    ) {
        Ok(c) => c,
        Err(_) => panic!("patterns compile"),
    };
    let r = c.clean(&root);
    assert!(matches!(r.outcome, Outcome::Done));
    assert!(r.plan.deletes.is_empty());
    assert!(r.plan.reports.is_empty());
    assert_eq!(r.plan.notes.len(), 1);
    assert!(matches!(r.plan.notes[0].kind, NoteKind::RuleFileBroken));
    assert_eq!(r.plan.notes[0].dir, "base");
    assert!(r.total_text.is_none());
}

#[test]
fn nested_broken_rule_file_is_localized() {
    // the unreadable rule file is reported; the directory's own entries are
    // still judged under the inherited scope; nothing deeper is explored
    let deep = dir(
        "base/bad",
        "deep",
        RuleSource::Absent,
        vec![file("base/bad/deep", "ignored.txt", 0)],
    );
    let bad = dir(
        "base",
        "bad",
        RuleSource::Unreadable,
        vec![
            file("base/bad", "victim.txt", 0),
            file("base/bad", "ignored.txt", 0),
            deep,
        ],
    );
    let root = DirTree {
        rules: RuleSource::Text("ignored.txt\n".to_string()),
        listing: Some(vec![file("base", "ignored.txt", 0), bad]),
    };
    let mut c = cleaner("base", true);
    let r = c.clean(&root);
    assert!(matches!(r.outcome, Outcome::Done));
    let paths = delete_paths(&r.plan);
    assert!(paths.contains(&"base/ignored.txt".to_string()));
    assert!(paths.contains(&"base/bad/ignored.txt".to_string()));
    assert!(!paths.contains(&"base/bad/victim.txt".to_string()));
    assert!(!paths.contains(&"base/bad/deep/ignored.txt".to_string()));
    assert_eq!(paths.len(), 2);
    assert_eq!(r.plan.notes.len(), 1);
    assert!(matches!(r.plan.notes[0].kind, NoteKind::RuleFileBroken));
    assert_eq!(r.plan.notes[0].dir, "base/bad");
}

#[test]
fn non_compiling_rule_file_is_localized_too() {
    // `[z-a]` is an invalid character range, so the nested rule text does
    // not compile; the inherited scope still governs the directory's own
    // entries, and the would-be nested rule is never in force
    let bad = dir(
        "base",
        "bad",
        RuleSource::Text("[z-a]\nvictim.txt\n".to_string()),
        vec![
            file("base/bad", "victim.txt", 0),
            file("base/bad", "ignored.txt", 0),
        ],
    );
    let root = DirTree {
        rules: RuleSource::Text("ignored.txt\n".to_string()),
        listing: Some(vec![bad]),
    };
    let mut c = cleaner("base", true);
    let r = c.clean(&root);
    assert!(matches!(r.outcome, Outcome::Done));
    let paths = delete_paths(&r.plan);
    assert_eq!(paths, vec!["base/bad/ignored.txt".to_string()]);
    assert_eq!(r.plan.notes.len(), 1);
    assert!(matches!(r.plan.notes[0].kind, NoteKind::RuleFileBroken));
    assert_eq!(r.plan.notes[0].dir, "base/bad");
}

#[test]
fn broken_rule_file_under_skip_nested_is_noted_only() {
    // skip-nested halts at any directory with its own rule layer, a broken
    // one included: the note stands, but not even one level is visited
    let bad = dir(
        "base",
        "bad",
        RuleSource::Unreadable,
        vec![file("base/bad", "ignored.txt", 0)],
    );
    let root = DirTree {
        rules: RuleSource::Text("ignored.txt\n".to_string()),
        listing: Some(vec![bad]),
    };
    let mut c = match Cleaner::try_create(
        "base".to_string(),
        true,
        true,
        false,
        true,
        None,
        false,
    ) {
        Ok(c) => c,
        Err(_) => panic!("patterns compile"),
    };
    let r = c.clean(&root);
    assert!(r.plan.deletes.is_empty());
    assert_eq!(r.plan.notes.len(), 1);
    assert!(matches!(r.plan.notes[0].kind, NoteKind::RuleFileBroken));
    assert_eq!(r.plan.notes[0].dir, "base/bad");
}

#[test]
fn listing_failure_is_fatal_by_default() {
    let unlistable = FsEntry {
        name: "locked".to_string(),
        canon: Some("base/locked".to_string()),
        kind: EntryKind::Dir(DirTree { rules: RuleSource::Absent, listing: None }),
    };
    let root = DirTree { rules: RuleSource::Absent, listing: Some(vec![unlistable]) };
    let mut c = cleaner("base", false);
    let r = c.clean(&root);
    match r.outcome {
        Outcome::Aborted(p) => assert_eq!(p, "base/locked"),
        _ => panic!("a listing failure without ignore-errors must abort"),
    }
}

#[test]
fn listing_failure_is_noted_in_ignore_errors_mode() {
    let unlistable = FsEntry {
        name: "locked".to_string(),
        canon: Some("base/locked".to_string()),
        kind: EntryKind::Dir(DirTree { rules: RuleSource::Absent, listing: None }),
    };
    let root = DirTree { rules: RuleSource::Absent, listing: Some(vec![unlistable]) };
    let mut c = match Cleaner::try_create(
        "base".to_string(),
        false,
        false,
        true,
        false,
        None,
        false,
    ) {
        Ok(c) => c,
        Err(_) => panic!("patterns compile"),
    };
    let r = c.clean(&root);
    assert!(matches!(r.outcome, Outcome::Done));
    assert_eq!(r.plan.notes.len(), 1);
    assert!(matches!(r.plan.notes[0].kind, NoteKind::ListingFailed));
    assert_eq!(r.plan.notes[0].dir, "base/locked");
}

#[test]
fn missing_canonical_path_fails_under_a_scope() {
    let broken = FsEntry {
        name: "dangling".to_string(),
        canon: None,
        kind: EntryKind::Symlink { to_dir: false, size: 0 },
    };
    let root = DirTree {
        rules: RuleSource::Text("x\n".to_string()),
        listing: Some(vec![broken]),
    };
    let mut c = cleaner("base", false);
    let r = c.clean(&root);
    match r.outcome {
        Outcome::Failed(p) => assert_eq!(p, "base/dangling"),
        _ => panic!("a missing canonical path under a scope must fail"),
    }
}

#[test]
fn skip_nested_halts_at_a_nested_rule_file() {
    let inner = dir(
        "base",
        "inner",
        RuleSource::Text("junk.txt\n".to_string()),
        vec![file("base/inner", "junk.txt", 0)],
    );
    let root = DirTree { rules: RuleSource::Absent, listing: Some(vec![inner]) };
    let mut c = match Cleaner::try_create(
        "base".to_string(),
        true,
        true,
        false,
        true,
        None,
        false,
    ) {
        Ok(c) => c,
        Err(_) => panic!("patterns compile"),
    };
    let r = c.clean(&root);
    assert!(r.plan.deletes.is_empty());
    let mut c2 = cleaner("base", true);
    let r2 = c2.clean(&root);
    assert_eq!(delete_paths(&r2.plan), vec!["base/inner/junk.txt".to_string()]);
}

#[test]
fn ignored_directories_are_treated_as_leaves() {
    // the nested rule file inside an ignored directory is never consulted
    let inner = dir(
        "base",
        "build",
        RuleSource::Text("keep.txt\n".to_string()),
        vec![file("base/build", "keep.txt", 0)],
    );
    let root = DirTree {
        rules: RuleSource::Text("build\n".to_string()),
        listing: Some(vec![inner]),
    };
    let mut c = cleaner("base", true);
    let r = c.clean(&root);
    assert_eq!(delete_paths(&r.plan), vec!["base/build".to_string()]);
}
