use ripsync::meta::Mtime;
use ripsync::plan::Action;
use ripsync::plan::PlannedAction;
use ripsync::verify::{
    compare_entry, extra_positions, hardlink_mismatches, mismatch, planned_selection, selects_planned, ContentProbe,
    MetadataOptions, MismatchKind, VerificationSummary, VerifyMode,
};
use ripsync::walk::{Entry, EntryKind};

fn entry(kind: EntryKind, len: u64) -> Entry {
    Entry {
        rel: "x".to_string(),
        kind,
        len,
        mtime: Mtime { seconds: 10, nanos: 20 },
        mode: 0o100644,
        ino: 1,
        dev: 1,
        uid: 1000,
        gid: 1000,
    }
}

const SAME: ContentProbe = ContentProbe { content_same: true, sparse_same: true, xattrs_same: true };
const PLAIN: MetadataOptions =
    MetadataOptions { hard_links: false, sparse: false, xattrs: false, acls: false, owner: false, group: false };

#[test]
fn identical_entries_match() {
    let f = entry(EntryKind::File, 5);
    assert_eq!(compare_entry(&f, Some(&f.clone()), &PLAIN, &SAME), None);
}

#[test]
fn mismatches_are_reported_in_order() {
    let f = entry(EntryKind::File, 5);
    assert_eq!(compare_entry(&f, None, &PLAIN, &SAME), Some(MismatchKind::Missing));
    assert_eq!(
        compare_entry(&f, Some(&entry(EntryKind::Dir, 5)), &PLAIN, &SAME),
        Some(MismatchKind::Kind)
    );
    let mut d = f.clone();
    d.mode = 0o100600;
    d.mtime.nanos = 0;
    assert_eq!(compare_entry(&f, Some(&d), &PLAIN, &SAME), Some(MismatchKind::Mode));
    let mut d = f.clone();
    d.mtime.nanos = 0;
    assert_eq!(compare_entry(&f, Some(&d), &PLAIN, &SAME), Some(MismatchKind::Mtime));
    let mut d = f.clone();
    d.uid = 0;
    assert_eq!(compare_entry(&f, Some(&d), &PLAIN, &SAME), None);
    let owner = MetadataOptions { owner: true, ..PLAIN };
    assert_eq!(compare_entry(&f, Some(&d), &owner, &SAME), Some(MismatchKind::Uid));
    let differ = ContentProbe { content_same: false, ..SAME };
    assert_eq!(compare_entry(&f, Some(&f.clone()), &PLAIN, &differ), Some(MismatchKind::Content));
    assert_eq!(
        compare_entry(&f, Some(&entry(EntryKind::File, 6)), &PLAIN, &SAME),
        Some(MismatchKind::Content)
    );
    let holes = ContentProbe { sparse_same: false, ..SAME };
    assert_eq!(compare_entry(&f, Some(&f.clone()), &PLAIN, &holes), None);
    let sparse = MetadataOptions { sparse: true, ..PLAIN };
    assert_eq!(compare_entry(&f, Some(&f.clone()), &sparse, &holes), Some(MismatchKind::Sparse));
    let attrs = ContentProbe { xattrs_same: false, ..SAME };
    let xattrs = MetadataOptions { xattrs: true, ..PLAIN };
    assert_eq!(compare_entry(&f, Some(&f.clone()), &xattrs, &attrs), Some(MismatchKind::Xattrs));
}

#[test]
fn symlink_targets_are_compared_as_paths() {
    let a = entry(EntryKind::Symlink("t/x".to_string()), 0);
    let b = entry(EntryKind::Symlink("t//x".to_string()), 0);
    let c = entry(EntryKind::Symlink("u".to_string()), 0);
    assert_eq!(compare_entry(&a, Some(&b), &PLAIN, &SAME), None);
    assert_eq!(compare_entry(&a, Some(&c), &PLAIN, &SAME), Some(MismatchKind::SymlinkTarget));
}

#[test]
fn mismatch_records_name_the_category() {
    let m = mismatch("a/b", MismatchKind::Extra);
    assert_eq!(m.rel, "a/b");
    assert_eq!(m.detail, "extra destination entry");
    assert_eq!(MismatchKind::Missing.detail(), "missing from destination");
    assert_eq!(MismatchKind::HardlinkIdentity.detail(), "hardlink identity differs");
    let s = VerificationSummary::default();
    assert_eq!((s.checked, s.mismatches.len()), (0, 0));
    assert_eq!(VerifyMode::default(), VerifyMode::Off);
}

#[test]
fn changed_mode_selects_what_the_plan_touched() {
    assert!(selects_planned(VerifyMode::Changed, Action::Copy));
    assert!(selects_planned(VerifyMode::Changed, Action::Update));
    assert!(!selects_planned(VerifyMode::Changed, Action::Skip));
    assert!(!selects_planned(VerifyMode::All, Action::Copy));
    assert!(!selects_planned(VerifyMode::Off, Action::Copy));
}

#[test]
fn broken_hardlink_groups_are_found() {
    let mut files = Vec::new();
    for (rel, ino) in [("a", 7), ("b", 7), ("c", 7), ("d", 8), ("e", 7)] {
        let mut e = entry(EntryKind::File, 1);
        e.rel = rel.to_string();
        e.ino = ino;
        files.push(e);
    }
    let ids = vec![None, Some((1, 50)), Some((1, 51)), Some((1, 52)), Some((1, 50))];
    // "a" has no destination, so "b" leads the group; "c" breaks it.
    assert_eq!(hardlink_mismatches(&files, &ids), vec![2]);
}

#[test]
fn verification_selects_and_tallies() {
    let actions: Vec<PlannedAction> = [Action::Copy, Action::Skip, Action::Update]
        .into_iter()
        .map(|action| PlannedAction { entry: entry(EntryKind::File, 1), action })
        .collect();
    assert_eq!(planned_selection(VerifyMode::Changed, &actions), vec![0, 2]);
    assert!(planned_selection(VerifyMode::All, &actions).is_empty());
    assert!(planned_selection(VerifyMode::Off, &actions).is_empty());
    assert_eq!(extra_positions(&vec![Some(3), None, Some(0), None]), vec![1, 3]);
    let mut summary = VerificationSummary::default();
    summary.note_checked("a", None);
    summary.note_checked("b", Some(MismatchKind::Missing));
    summary.note("c", MismatchKind::Extra);
    assert_eq!(summary.checked, 2);
    assert_eq!(summary.mismatches, vec![mismatch("b", MismatchKind::Missing), mismatch("c", MismatchKind::Extra)]);
}
