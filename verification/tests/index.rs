use ripsync::index::{record_of, wants_digest};
use ripsync::index::{
    accepts_version, encode_record, journal_path, manifest_path, needs_compaction, parse_journal,
    Kind, Manifest, ManifestDelta, ManifestEntry, COMPACT_BYTES, FORMAT_VERSION,
};
use ripsync::meta::{FileTypeKind, MinMeta, Mtime};
use ripsync::plan::{Action, Deletion, PlannedAction, SyncPlan};
use ripsync::walk::{Entry, EntryKind};

fn record(size: u64) -> ManifestEntry {
    ManifestEntry {
        kind: Kind::File,
        size,
        mtime_s: 1,
        mtime_ns: 2,
        ino: 3,
        dev: 4,
        mode: 0o100_644,
        hash: None,
        target: None,
    }
}

fn source(rel: &str, size: u64) -> Entry {
    Entry {
        rel: rel.to_string(),
        kind: EntryKind::File,
        len: size,
        mtime: Mtime { seconds: 1, nanos: 2 },
        mode: 0o100_644,
        ino: 99,
        dev: 98,
        uid: 0,
        gid: 0,
    }
}

fn live(size: u64) -> Option<MinMeta> {
    Some(MinMeta {
        kind: FileTypeKind::File,
        len: size,
        mtime: Mtime { seconds: 1, nanos: 2 },
        mode: 0o100_644,
        ino: 3,
        dev: 4,
        uid: 0,
        gid: 0,
    })
}

#[test]
fn index_lives_in_the_destination() {
    assert_eq!(manifest_path("dst"), "dst/.ripsync/manifest.bin");
    assert_eq!(journal_path("/x/dst/"), "/x/dst/.ripsync/manifest.journal");
}

#[test]
fn incomplete_journal_tail_is_ignored() {
    assert!(parse_journal(&[12, 0, 0, 0, 1, 2, 3]).is_empty());
    assert!(parse_journal(&[]).is_empty());
}

#[test]
fn journal_record_carries_length_digest_and_payload() {
    let payload = b"file";
    let rec = encode_record(payload).unwrap();
    assert_eq!(&rec[..4], &4u32.to_le_bytes());
    assert_eq!(&rec[4..36], blake3::hash(payload).as_bytes());
    assert_eq!(&rec[36..], payload);
}

#[test]
fn journal_roundtrips_and_stops_at_damage() {
    let mut journal = Vec::new();
    for p in [&b"one"[..], &b""[..], &b"three"[..]] {
        journal.extend(encode_record(p).unwrap());
    }
    assert_eq!(parse_journal(&journal), vec![b"one".to_vec(), Vec::new(), b"three".to_vec()]);
    // A torn final record is dropped.
    let torn = &journal[..journal.len() - 2];
    assert_eq!(parse_journal(torn), vec![b"one".to_vec(), Vec::new()]);
    // A corrupt digest ends the replay at that record.
    let mut bad = journal.clone();
    bad[5] ^= 0xff;
    assert!(parse_journal(&bad).is_empty());
}

#[test]
fn valid_journal_replays_and_old_versions_miss() {
    let mut m = Manifest::new(FORMAT_VERSION);
    m.replay(vec![Some(ManifestDelta::Upsert("file".to_string(), record(4)))]);
    assert!(m.contains_key("file"));
    assert!(m.contains_key("file/"));
    assert!(!m.contains_key("./file"));
    assert_eq!(m.len(), 1);
    assert!(accepts_version(3));
    assert!(!accepts_version(2));
}

#[test]
fn replay_stops_at_an_undecodable_record() {
    let mut m = Manifest::new(FORMAT_VERSION);
    m.replay(vec![
        Some(ManifestDelta::Upsert("a".to_string(), record(1))),
        Some(ManifestDelta::Upsert("b".to_string(), record(2))),
        Some(ManifestDelta::Delete("a".to_string())),
        None,
        Some(ManifestDelta::Upsert("c".to_string(), record(3))),
    ]);
    assert!(!m.contains_key("a"));
    assert_eq!(m.get("b").map(|r| r.size), Some(2));
    assert!(!m.contains_key("c"));
}

#[test]
fn insert_replaces_and_remove_returns_the_record() {
    let mut m = Manifest::new(FORMAT_VERSION);
    m.insert("a/b".to_string(), record(1));
    m.insert("a//b".to_string(), record(2));
    assert_eq!(m.len(), 1);
    assert_eq!(m.get("a/b").unwrap().size, 2);
    assert_eq!(m.remove("a/b/").map(|r| r.size), Some(2));
    assert_eq!(m.len(), 0);
    assert!(m.remove("a/b").is_none());
}

#[test]
fn oversized_journal_requests_compaction() {
    assert!(needs_compaction(COMPACT_BYTES + 1, 0));
    assert!(!needs_compaction(COMPACT_BYTES, 0));
    assert!(needs_compaction(11, 100));
    assert!(!needs_compaction(10, 100));
}

#[test]
fn classification_against_the_index() {
    let mut m = Manifest::new(FORMAT_VERSION);
    m.insert("data".to_string(), record(4));
    let e = source("data", 4);
    assert_eq!(m.classify(&e, false, &live(4), &None, &None), Action::Skip);
    // The destination changed behind the index's back.
    assert_eq!(m.classify(&e, false, &live(5), &None, &None), Action::Update);
    assert_eq!(m.classify(&e, false, &None, &None, &None), Action::Update);
    // The source changed.
    assert_eq!(m.classify(&source("data", 7), false, &live(4), &None, &None), Action::Update);
    // Not recorded at all.
    assert_eq!(m.classify(&source("new", 1), false, &live(1), &None, &None), Action::Copy);
    // Checksum mode needs the recorded digest to agree.
    let mut hashed = record(4);
    hashed.hash = Some([7; 32]);
    m.insert("data".to_string(), hashed);
    assert_eq!(m.classify(&e, true, &live(4), &None, &Some([7; 32])), Action::Skip);
    assert_eq!(m.classify(&e, true, &live(4), &None, &Some([8; 32])), Action::Update);
    assert_eq!(m.classify(&e, true, &live(4), &None, &None), Action::Update);
}

#[test]
fn recorded_plan_replays_to_the_same_index() {
    let mut m = Manifest::new(FORMAT_VERSION);
    m.insert("gone".to_string(), record(1));
    m.insert("kept".to_string(), record(1));
    let plan = SyncPlan {
        actions: vec![
            PlannedAction { entry: source("new", 2), action: Action::Copy },
            PlannedAction { entry: source("kept", 1), action: Action::Skip },
        ],
        deletions: vec![Deletion { rel: "gone".to_string(), is_dir: false }],
    };
    let before = Manifest::new(FORMAT_VERSION);
    let mut replayed = before;
    for (rel, rec) in m.records() {
        replayed.insert(rel.clone(), rec.clone());
    }
    let deltas = m.record_plan(&plan, &vec![Some(record(2)), None]);
    assert!(m.contains_key("new") && m.contains_key("kept") && !m.contains_key("gone"));
    replayed.replay(deltas.into_iter().map(Some).collect());
    assert_eq!(replayed.len(), m.len());
    for (rel, rec) in m.records() {
        assert_eq!(replayed.get(rel), Some(rec));
    }
}

#[test]
fn index_built_from_a_plan_and_its_stale_entries() {
    let plan = SyncPlan {
        actions: vec![
            PlannedAction { entry: source("a", 1), action: Action::Skip },
            PlannedAction { entry: source("b", 2), action: Action::Copy },
        ],
        deletions: Vec::new(),
    };
    let m = Manifest::from_records(&plan, &vec![record(1), record(2)]);
    assert_eq!(m.version(), FORMAT_VERSION);
    assert_eq!(m.len(), 2);
    let stale = m.stale_deletions(&vec!["b".to_string()]);
    let rels: Vec<&str> = stale.iter().map(|d| d.rel.as_str()).collect();
    assert_eq!(rels, vec!["a"]);
}

#[test]
fn records_keep_the_destination_state() {
    let m = live(4).unwrap();
    let r = record_of(&EntryKind::File, &m, String::new(), Some([1; 32]));
    assert_eq!((r.kind, r.size, r.mtime_s, r.mtime_ns, r.ino, r.dev), (Kind::File, 4, 1, 2, 3, 4));
    assert_eq!(r.hash, Some([1; 32]));
    assert_eq!(r.target, None);
    let l = record_of(&EntryKind::Symlink("x".to_string()), &m, "y".to_string(), None);
    assert_eq!((l.kind, l.target.as_deref()), (Kind::Symlink, Some("y")));
    assert!(wants_digest(true, &EntryKind::File));
    assert!(!wants_digest(true, &EntryKind::Dir));
    assert!(!wants_digest(false, &EntryKind::File));
}

#[test]
fn many_records_stay_findable_through_removals() {
    let mut m = Manifest::new(FORMAT_VERSION);
    for i in 0..300u64 {
        m.insert(format!("d{}/f{}", i % 7, i), record(i));
    }
    assert_eq!(m.len(), 300);
    for i in (0..300u64).filter(|i| i % 3 == 0) {
        assert_eq!(m.remove(&format!("d{}//f{}", i % 7, i)).map(|e| e.size), Some(i));
    }
    assert_eq!(m.len(), 200);
    for i in 0..300u64 {
        let rel = format!("d{}/f{}", i % 7, i);
        assert_eq!(m.contains_key(&rel), i % 3 != 0, "{rel}");
        assert_eq!(m.get(&rel).map(|e| e.size), if i % 3 != 0 { Some(i) } else { None });
    }
    m.insert("d1/f1/".to_string(), record(9));
    assert_eq!(m.len(), 200);
    assert_eq!(m.get("d1/f1").map(|e| e.size), Some(9));
    assert!(m.remove("nope").is_none());
}
