use std::path::Path;

use ripsync::meta::{FileTypeKind, MinMeta, Mtime};
use ripsync::walk::{entry_of, sort_walk, EntryKind};

fn meta(kind: FileTypeKind, len: u64) -> MinMeta {
    MinMeta { kind, len, mtime: Mtime { seconds: 3, nanos: 4 }, mode: 0o644, ino: 5, dev: 6, uid: 7, gid: 8 }
}

#[test]
fn walked_entries_by_kind() {
    let f = entry_of("a".to_string(), &meta(FileTypeKind::File, 10), String::new()).unwrap();
    assert_eq!((f.kind.clone(), f.len, f.ino, f.dev, f.uid, f.gid), (EntryKind::File, 10, 5, 6, 7, 8));
    let d = entry_of("d".to_string(), &meta(FileTypeKind::Dir, 4096), String::new()).unwrap();
    assert_eq!((d.kind.clone(), d.len), (EntryKind::Dir, 0));
    let l = entry_of("l".to_string(), &meta(FileTypeKind::Symlink, 9), "t".to_string()).unwrap();
    assert_eq!((l.kind.clone(), l.len), (EntryKind::Symlink("t".to_string()), 0));
    assert!(entry_of("p".to_string(), &meta(FileTypeKind::Other, 0), String::new()).is_none());
}

#[test]
fn walk_is_sorted_parents_first() {
    let rels = ["b", "a/c", "a", "a.b", "a/b/c", "a/b"];
    let entries = rels
        .iter()
        .map(|r| entry_of(r.to_string(), &meta(FileTypeKind::File, 1), String::new()).unwrap())
        .collect();
    let sorted: Vec<String> = sort_walk(entries).into_iter().map(|e| e.rel).collect();
    let mut expected: Vec<&str> = rels.to_vec();
    expected.sort_by(|a, b| Path::new(a).cmp(Path::new(b)));
    assert_eq!(sorted, expected);
    assert_eq!(sorted, vec!["a", "a/b", "a/b/c", "a/c", "a.b", "b"]);
}
