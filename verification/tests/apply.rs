use ripsync::apply::{
    action_for_existing, deletions_allowed, dry_run_stats, hardlink_groups, partition, planned_files, ApplyOptions,
};
use ripsync::copy::{Backend, FsyncMode, ReflinkMode};
use ripsync::error::Error;
use ripsync::meta::Mtime;
use ripsync::plan::{Action, Deletion, PlannedAction, SyncPlan};
use ripsync::report::Stats;
use ripsync::verify::MetadataOptions;
use ripsync::walk::{Entry, EntryKind};

fn planned(rel: &str, kind: EntryKind, len: u64, action: Action) -> PlannedAction {
    PlannedAction {
        entry: Entry {
            rel: rel.to_string(),
            kind,
            len,
            mtime: Mtime { seconds: 1, nanos: 0 },
            mode: 0o644,
            ino: 1,
            dev: 1,
            uid: 0,
            gid: 0,
        },
        action,
    }
}

fn options(delete: bool, yes: bool) -> ApplyOptions {
    ApplyOptions {
        dry_run: false,
        yes,
        delete,
        threads: 0,
        reflink: ReflinkMode::Auto,
        fsync: FsyncMode::Auto,
        backend: Backend::Auto,
        metadata: MetadataOptions {
            hard_links: false,
            sparse: false,
            xattrs: false,
            acls: false,
            owner: false,
            group: false,
        },
    }
}

fn sample() -> SyncPlan {
    SyncPlan {
        actions: vec![
            planned("d", EntryKind::Dir, 0, Action::Copy),
            planned("d/f", EntryKind::File, 10, Action::Copy),
            planned("g", EntryKind::File, 7, Action::Update),
            planned("h", EntryKind::File, 99, Action::Skip),
            planned("l", EntryKind::Symlink("g".to_string()), 0, Action::Copy),
        ],
        deletions: vec![Deletion { rel: "old".to_string(), is_dir: false }],
    }
}

#[test]
fn deletions_need_delete_and_yes() {
    assert!(deletions_allowed(&options(true, true)));
    assert!(!deletions_allowed(&options(true, false)));
    assert!(!deletions_allowed(&options(false, true)));
}

#[test]
fn directory_creation_counts() {
    assert_eq!(action_for_existing(true), Action::Update);
    assert_eq!(action_for_existing(false), Action::Copy);
    let mut s = Stats::default();
    s.bump_action(Action::Copy);
    s.bump_action(Action::Skip);
    s.bump_action(Action::Skip);
    assert_eq!((s.copied, s.updated, s.skipped), (1, 0, 2));
}

#[test]
fn dry_run_tallies_the_plan() {
    let plan = sample();
    assert_eq!(planned_files(&plan), 2);
    let s = dry_run_stats(&plan);
    assert_eq!((s.copied, s.updated, s.skipped, s.deleted, s.errors), (3, 1, 1, 1, 0));
    assert_eq!(s.bytes, 17);
}

#[test]
fn plan_is_grouped_for_applying() {
    let p = partition(&sample()).unwrap();
    assert_eq!(p.skipped, vec![3]);
    assert_eq!(p.dirs, vec![0]);
    assert_eq!(p.files, vec![1, 2]);
    assert_eq!(p.symlinks, vec![4]);
}

#[test]
fn escaping_entry_fails_before_any_work() {
    let mut plan = sample();
    plan.actions.push(planned("../evil", EntryKind::File, 1, Action::Copy));
    plan.actions.push(planned("/etc/x", EntryKind::File, 1, Action::Copy));
    match partition(&plan) {
        Err(Error::Containment(p)) => assert_eq!(p, "../evil"),
        other => panic!("expected a containment error, got {other:?}"),
    }
    // A skipped entry is never written, so it is not checked.
    let mut plan = sample();
    plan.actions.push(planned("../skipped", EntryKind::File, 1, Action::Skip));
    assert!(partition(&plan).is_ok());
}

#[test]
fn hard_links_copy_the_first_of_each_inode() {
    let mut a = planned("a", EntryKind::File, 1, Action::Copy);
    let mut b = planned("b", EntryKind::File, 1, Action::Copy);
    let mut c = planned("c", EntryKind::File, 1, Action::Copy);
    let mut d = planned("d", EntryKind::File, 1, Action::Copy);
    a.entry.ino = 7;
    b.entry.ino = 8;
    c.entry.ino = 7;
    d.entry.ino = 7;
    d.entry.dev = 2;
    let actions = vec![a, b, c, d];
    let files = vec![0, 1, 2, 3];
    let (leaders, followers) = hardlink_groups(&actions, &files, true);
    assert_eq!(leaders, vec![0, 1, 3]);
    assert_eq!(followers, vec![(2, 0)]);
    let (leaders, followers) = hardlink_groups(&actions, &files, false);
    assert_eq!(leaders, vec![0, 1, 2, 3]);
    assert!(followers.is_empty());
}
