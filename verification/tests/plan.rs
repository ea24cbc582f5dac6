use std::cmp::Ordering;
use std::path::Path;

use ripsync::error::Error;
use ripsync::meta::Mtime;
use ripsync::pathset::match_paths;
use ripsync::plan::{
    check_source, classify_existing, compare_paths, destination_ids, enforce_hardlink_actions,
    files_differ, in_index_dir, key_of, plan_actions, plan_deletions, plans_from_index,
    without_index_dir, Action, PlanOptions, PlannedAction, SyncPlan,
};
use ripsync::walk::{rels_of, Entry, EntryKind};

fn entry(rel: &str, kind: EntryKind, len: u64, secs: i64) -> Entry {
    Entry {
        rel: rel.to_string(),
        kind,
        len,
        mtime: Mtime { seconds: secs, nanos: 0 },
        mode: 0o100644,
        ino: 1,
        dev: 1,
        uid: 0,
        gid: 0,
    }
}

fn file(rel: &str, len: u64, secs: i64) -> Entry {
    entry(rel, EntryKind::File, len, secs)
}

fn linked(rel: &str, ino: u64) -> Entry {
    let mut e = file(rel, 3, 10);
    e.ino = ino;
    e
}

#[test]
fn unchanged_file_is_skipped_and_changed_file_updated() {
    let a = file("a", 5, 100);
    assert_eq!(classify_existing(&a, &file("a", 5, 100), false, None, None), Action::Skip);
    assert_eq!(classify_existing(&a, &file("a", 6, 100), false, None, None), Action::Update);
    assert_eq!(classify_existing(&a, &file("a", 5, 101), false, None, None), Action::Update);
    let mut chmod = file("a", 5, 100);
    chmod.mode = 0o100600;
    assert_eq!(classify_existing(&a, &chmod, false, None, None), Action::Update);
}

#[test]
fn kind_change_is_an_update() {
    let d = entry("a", EntryKind::Dir, 0, 100);
    let f = file("a", 0, 100);
    assert_eq!(classify_existing(&d, &f, false, None, None), Action::Update);
    assert_eq!(classify_existing(&f, &d, false, None, None), Action::Update);
    let l1 = entry("l", EntryKind::Symlink("t".to_string()), 0, 5);
    let l2 = entry("l", EntryKind::Symlink("t/".to_string()), 0, 5);
    let l3 = entry("l", EntryKind::Symlink("u".to_string()), 0, 5);
    assert_eq!(classify_existing(&l1, &l2, false, None, None), Action::Skip);
    assert_eq!(classify_existing(&l1, &l3, false, None, None), Action::Update);
    // "./t" keeps its leading "." component, so it is another target.
    let l4 = entry("l", EntryKind::Symlink("./t".to_string()), 0, 5);
    assert_eq!(classify_existing(&l1, &l4, false, None, None), Action::Update);
}

#[test]
fn checksum_mode_compares_digests() {
    let a = file("a", 5, 100);
    let b = file("a", 5, 100);
    assert!(!files_differ(&a, &b, true, Some([1; 32]), Some([1; 32])));
    assert!(files_differ(&a, &b, true, Some([1; 32]), Some([2; 32])));
    assert!(files_differ(&a, &b, true, None, Some([1; 32])));
    assert!(files_differ(&a, &b, true, Some([1; 32]), None));
}

#[test]
fn actions_follow_the_destination_walk() {
    let src = vec![file("a", 1, 1), file("b", 2, 2), file("c", 3, 3)];
    let dst = vec![file("b", 2, 2), file("c", 9, 3)];
    let matches = match_paths(&rels_of(&dst), &rels_of(&src));
    assert_eq!(matches, vec![None, Some(0), Some(1)]);
    let hashes = vec![(None, None); 3];
    let acts = plan_actions(&src, &dst, &matches, &hashes, false);
    let got: Vec<Action> = acts.iter().map(|p| p.action).collect();
    assert_eq!(got, vec![Action::Copy, Action::Skip, Action::Update]);
    let plan = SyncPlan { actions: acts, deletions: Vec::new() };
    assert_eq!(plan.count(Action::Copy), 1);
    assert_eq!(plan.count(Action::Skip), 1);
    assert_eq!(plan.bytes_to_transfer(), 1 + 3);
    assert_eq!(destination_ids(&dst, &matches), vec![None, Some((1, 1)), Some((1, 1))]);
}

#[test]
fn path_matching_ignores_redundant_separators() {
    let targets = vec!["a/b".to_string(), "a//b".to_string(), "x".to_string()];
    let sources = vec!["a/b/".to_string(), "y".to_string(), "x".to_string()];
    assert_eq!(match_paths(&targets, &sources), vec![Some(1), None, Some(2)]);
}

#[test]
fn deletions_are_what_the_source_lacks_deepest_first() {
    let src = vec!["keep".to_string()];
    let dst = vec![
        file("keep", 1, 1),
        entry("old", EntryKind::Dir, 0, 1),
        file("old/x", 1, 1),
        file("stale", 1, 1),
    ];
    let dels = plan_deletions(&src, &dst);
    let rels: Vec<&str> = dels.iter().map(|d| d.rel.as_str()).collect();
    assert_eq!(rels, vec!["stale", "old/x", "old"]);
    assert!(dels.iter().find(|d| d.rel == "old").unwrap().is_dir);
    assert!(!dels.iter().find(|d| d.rel == "stale").unwrap().is_dir);
}

#[test]
fn empty_source_with_delete_is_refused() {
    match check_source(true, 0, "src") {
        Err(Error::EmptySource(p)) => assert_eq!(p, "src"),
        other => panic!("expected the empty-source guard, got {other:?}"),
    }
    assert!(check_source(true, 1, "src").is_ok());
    assert!(check_source(false, 0, "src").is_ok());
}

#[test]
fn index_directory_is_never_synced() {
    assert!(in_index_dir(".ripsync"));
    assert!(in_index_dir(".ripsync/manifest.bin"));
    assert!(!in_index_dir("./.ripsync/manifest.journal"));
    assert!(!in_index_dir("a/.ripsync"));
    assert!(!in_index_dir(".ripsync2"));
    let kept = without_index_dir(vec![file(".ripsync/manifest.bin", 1, 1), file("a", 1, 1)]);
    assert_eq!(rels_of(&kept), vec!["a".to_string()]);
}

#[test]
fn index_planning_only_without_delete() {
    let mut o = PlanOptions::default();
    assert!(!plans_from_index(&o));
    o.index = true;
    assert!(plans_from_index(&o));
    o.delete = true;
    assert!(!plans_from_index(&o));
}

#[test]
fn broken_hardlink_group_forces_update() {
    let mut actions = vec![
        PlannedAction { entry: linked("a", 7), action: Action::Skip },
        PlannedAction { entry: linked("b", 7), action: Action::Skip },
        PlannedAction { entry: linked("c", 7), action: Action::Skip },
        PlannedAction { entry: linked("d", 8), action: Action::Skip },
    ];
    let ids = vec![Some((1, 50)), Some((1, 50)), Some((1, 51)), None];
    enforce_hardlink_actions(&mut actions, &ids);
    let got: Vec<Action> = actions.iter().map(|p| p.action).collect();
    assert_eq!(got, vec![Action::Skip, Action::Skip, Action::Update, Action::Skip]);
}

#[test]
fn identity_keys_are_distinct_per_pair() {
    assert_ne!(key_of(1, 2), key_of(2, 1));
    assert_eq!(key_of(0, 5), 5);
    assert_eq!(key_of(1, 0), 1u128 << 64);
}

#[test]
fn path_comparison_agrees_with_the_standard_library() {
    let samples = ["", "a", "a/b", "a//b", "./a", "a/./b", "..", "/", "/a", "b", "a.b", "é"];
    for a in samples {
        for b in samples {
            assert_eq!(compare_paths(a, b), Path::new(a).cmp(Path::new(b)), "{a:?} vs {b:?}");
        }
    }
    assert_eq!(compare_paths("a", "b"), Ordering::Less);
}
