use ripsync::delta::{apply, encode, Signature};
use ripsync::error::{Error, ProtocolError};
use ripsync::meta::Mtime;
use ripsync::net::proto::{
    accept_init, accept_init_ack, accept_server_hello, check_hello, hello_bytes, Data, Init, Msg,
    NetEntry, NetKind, NetOptions, Request, Role, MAGIC, PROTO_VERSION,
};
use ripsync::net::receiver::{
    bump, fail, file_unchanged, list_step, reply_content, unpack, wants_delta, ListStep,
};
use ripsync::net::sender::{delta_reply, net_entry_of, sender_step, whole_data, SenderStep};
use ripsync::net::transport::{frame, frame_len, MAX_FRAME};
use ripsync::plan::Action;
use ripsync::report::Stats;
use ripsync::walk::{Entry, EntryKind};

fn entry(rel: &str, kind: EntryKind, len: u64, secs: i64) -> Entry {
    Entry {
        rel: rel.to_string(),
        kind,
        len,
        mtime: Mtime { seconds: secs, nanos: 5 },
        mode: 0o100644,
        ino: 1,
        dev: 1,
        uid: 0,
        gid: 0,
    }
}

fn listed(len: u64, secs: i64) -> NetEntry {
    NetEntry { rel: "f".to_string(), kind: NetKind::File, len, mtime_s: secs, mtime_ns: 0, mode: 0o644 }
}

#[test]
fn hello_is_magic_then_big_endian_version() {
    let h = hello_bytes(PROTO_VERSION);
    assert_eq!(&h[..7], &MAGIC);
    assert_eq!(&h[..7], b"ripsync");
    assert_eq!(&h[7..], &[0, 0, 0, 1]);
    let c = check_hello(&h);
    assert!(c.magic_ok && c.ok);
    assert_eq!(c.version, PROTO_VERSION);
    assert!(c.into_result().is_ok());
}

#[test]
fn wrong_magic_or_version_is_refused() {
    let mut h = hello_bytes(PROTO_VERSION);
    h[0] = b'x';
    let c = check_hello(&h);
    assert!(!c.magic_ok && !c.ok);
    match c.into_result() {
        Err(Error::Protocol(ProtocolError::BadHandshake { magic_ok, version })) => {
            assert!(!magic_ok);
            assert_eq!(version, PROTO_VERSION);
        }
        other => panic!("expected a handshake error, got {other:?}"),
    }
    let c = check_hello(&hello_bytes(0x0102_0304));
    assert!(c.magic_ok && !c.ok);
    assert_eq!(c.version, 0x0102_0304);
}

#[test]
fn initiator_accepts_only_a_matching_server_hello() {
    assert!(accept_server_hello(&Msg::ServerHello { version: PROTO_VERSION, ok: true }).is_ok());
    assert!(matches!(
        accept_server_hello(&Msg::ServerHello { version: 9, ok: false }),
        Err(Error::Protocol(ProtocolError::Incompatible(9)))
    ));
    assert!(matches!(
        accept_server_hello(&Msg::ListDone),
        Err(Error::Protocol(ProtocolError::Unexpected(_)))
    ));
    assert!(accept_init_ack(&Msg::InitAck).is_ok());
    assert!(matches!(
        accept_init_ack(&Msg::Error("nope".to_string())),
        Err(Error::Protocol(ProtocolError::Unexpected(_)))
    ));
    let init = Init { role: Role::Pull, root: "/srv".to_string(), options: NetOptions::default() };
    let got = accept_init(Msg::Init(init)).unwrap();
    assert_eq!((got.role, got.root.as_str()), (Role::Pull, "/srv"));
    assert!(accept_init(Msg::InitAck).is_err());
}

#[test]
fn frames_carry_a_little_endian_length() {
    let f = frame(b"abc").unwrap();
    assert_eq!(f, vec![3, 0, 0, 0, 0, 0, 0, 0, b'a', b'b', b'c']);
    let header: [u8; 8] = f[..8].try_into().unwrap();
    assert_eq!(frame_len(&header).unwrap(), 3);
    assert_eq!(frame_len(&MAX_FRAME.to_le_bytes()).unwrap(), MAX_FRAME);
    assert!(matches!(
        frame_len(&(MAX_FRAME + 1).to_le_bytes()),
        Err(Error::Protocol(ProtocolError::FrameTooLarge(n))) if n == MAX_FRAME + 1
    ));
}

#[test]
fn whole_file_payload_unpacks_to_the_file() {
    let raw: Vec<u8> = (0..200_000u32).map(|i| (i % 7) as u8).collect();
    let plain = whole_data(raw.clone(), NetOptions::default());
    match &plain {
        Data::Whole { bytes, zstd } => {
            assert!(!zstd);
            assert_eq!(bytes, &raw);
        }
        _ => panic!("expected a whole-file payload"),
    }
    let options = NetOptions { compress: true, compress_level: 3, ..NetOptions::default() };
    match whole_data(raw.clone(), options) {
        Data::Whole { bytes, zstd } => {
            assert!(zstd);
            assert!(bytes.len() < raw.len());
            assert_eq!(unpack(bytes, true).unwrap(), raw);
        }
        _ => panic!("expected a whole-file payload"),
    }
    assert_eq!(unpack(b"plain".to_vec(), false).unwrap(), b"plain".to_vec());
    assert!(unpack(b"not zstd".to_vec(), true).is_none());
}

#[test]
fn delta_reply_rebuilds_the_new_file() {
    let old: Vec<u8> = (0..4000u32).map(|i| (i % 13) as u8).collect();
    let mut new = old.clone();
    new[100] = 0xAA;
    let sig = Signature::compute(&old, Some(700));
    let reply = delta_reply(&sig, Some(new.clone()));
    let d = match &reply {
        Data::Delta(d) => d.clone(),
        _ => panic!("expected a delta"),
    };
    assert_eq!(d, encode(&old, &new, Some(700)));
    assert_eq!(apply(&old, &d).unwrap(), new);
    assert!(matches!(delta_reply(&sig, None), Data::NotFound));
    let got = reply_content(&old, true, Msg::Data(reply)).unwrap().unwrap();
    assert_eq!(got, new);
}

#[test]
fn reply_content_per_message() {
    let old = b"old contents".to_vec();
    let whole = Msg::Data(Data::Whole { bytes: b"fresh".to_vec(), zstd: false });
    assert_eq!(reply_content(&old, false, whole).unwrap(), Some(b"fresh".to_vec()));
    assert_eq!(reply_content(&old, true, Msg::Data(Data::NotFound)).unwrap(), None);
    let broken = Msg::Data(Data::Whole { bytes: b"garbage".to_vec(), zstd: true });
    assert_eq!(reply_content(&old, false, broken).unwrap(), None);
    let d = encode(&old, b"new", None);
    assert!(matches!(
        reply_content(&old, false, Msg::Data(Data::Delta(d))),
        Err(Error::Protocol(ProtocolError::Unexpected(_)))
    ));
    assert!(matches!(
        reply_content(&old, true, Msg::Error("boom".to_string())),
        Err(Error::Protocol(ProtocolError::Peer(m))) if m == "boom"
    ));
    assert!(matches!(
        reply_content(&old, true, Msg::ListDone),
        Err(Error::Protocol(ProtocolError::Unexpected(_)))
    ));
}

#[test]
fn sender_reads_requests_and_the_end() {
    match sender_step(Msg::Request(Request::Whole("a".to_string()))).unwrap() {
        SenderStep::SendWhole(p) => assert_eq!(p, "a"),
        _ => panic!("expected a whole-file request"),
    }
    let sig = Signature::compute(b"abc", None);
    match sender_step(Msg::Request(Request::Delta("b".to_string(), sig))).unwrap() {
        SenderStep::SendDelta(p, _) => assert_eq!(p, "b"),
        _ => panic!("expected a delta request"),
    }
    let stats = Stats { copied: 2, ..Stats::default() };
    match sender_step(Msg::Finished(stats)).unwrap() {
        SenderStep::Done(s) => assert_eq!(s.copied, 2),
        _ => panic!("expected the end of the session"),
    }
    assert!(sender_step(Msg::InitAck).is_err());
}

#[test]
fn sender_refuses_paths_outside_its_root() {
    for rel in ["../secret.txt", "/etc/passwd", "a/../../b"] {
        match sender_step(Msg::Request(Request::Whole(rel.to_string()))).unwrap() {
            SenderStep::Refuse(p) => assert_eq!(p, rel),
            _ => panic!("expected a refusal"),
        }
        let sig = Signature::compute(b"abc", None);
        match sender_step(Msg::Request(Request::Delta(rel.to_string(), sig))).unwrap() {
            SenderStep::Refuse(p) => assert_eq!(p, rel),
            _ => panic!("expected a refusal"),
        }
    }
    match sender_step(Msg::Request(Request::Whole("a/b..c".to_string()))).unwrap() {
        SenderStep::SendWhole(p) => assert_eq!(p, "a/b..c"),
        _ => panic!("expected a whole-file request"),
    }
}

#[test]
fn receiver_collects_the_list() {
    match list_step(Msg::Entry(listed(1, 1))).unwrap() {
        ListStep::Entry(e) => assert_eq!(e.rel, "f"),
        ListStep::Done => panic!("expected an entry"),
    }
    assert!(matches!(list_step(Msg::ListDone).unwrap(), ListStep::Done));
    assert!(list_step(Msg::InitAck).is_err());
}

#[test]
fn unchanged_files_and_delta_requests() {
    let o = NetOptions::default();
    let dst = entry("f", EntryKind::File, 10, 100);
    assert!(file_unchanged(&o, Some(&dst), &listed(10, 100)));
    assert!(!file_unchanged(&o, Some(&dst), &listed(11, 100)));
    assert!(!file_unchanged(&o, Some(&dst), &listed(10, 101)));
    assert!(!file_unchanged(&o, None, &listed(10, 100)));
    let dir = entry("f", EntryKind::Dir, 10, 100);
    assert!(!file_unchanged(&o, Some(&dir), &listed(10, 100)));
    let sums = NetOptions { checksum: true, ..o };
    assert!(!file_unchanged(&sums, Some(&dst), &listed(10, 100)));
    assert!(wants_delta(&o, true));
    assert!(!wants_delta(&o, false));
    assert!(!wants_delta(&NetOptions { whole_file: true, ..o }, true));
}

#[test]
fn receiver_tally() {
    let mut s = Stats::default();
    assert_eq!(bump(&mut s, false), Action::Copy);
    assert_eq!(bump(&mut s, true), Action::Update);
    fail(&mut s);
    assert_eq!((s.copied, s.updated, s.errors), (1, 1, 1));
}

#[test]
fn announced_entries_copy_the_walk() {
    let n = net_entry_of(&entry("l", EntryKind::Symlink("t".to_string()), 0, 7));
    assert_eq!(n.rel, "l");
    assert_eq!(n.kind, NetKind::Symlink("t".to_string()));
    assert_eq!((n.mtime_s, n.mtime_ns, n.mode), (7, 5, 0o100644));
}
