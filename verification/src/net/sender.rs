//! The sender: the side that holds the source tree.
//!
//! It streams its file list, then answers the receiver's requests one at a
//! time until the receiver sends [`Msg::Finished`]. It never initiates a read
//! on its own, which is what keeps the single duplex stream deadlock-free.

use vstd::prelude::*;

use crate::delta::{encode_spec, encode_with_signature, Signature};
use crate::error::{Error, ProtocolError};
use crate::meta::{check_relative, escapes_root};
use crate::net::proto::{Data, Msg, NetEntry, NetKind, NetOptions, Request};
use crate::report::Stats;
use crate::walk::{Entry, EntryKind};

verus! {

/// Names what `zstd::encode_all` makes of `raw` at `level`: the compressed
/// bytes, or `None` when it fails.
pub uninterp spec fn zstd_compressed(raw: Seq<u8>, level: i32) -> Option<Seq<u8>>;

/// Names what `zstd::decode_all` makes of `bytes`: the decompressed bytes, or
/// `None` when they are not a valid zstd stream.
pub uninterp spec fn zstd_decompressed(bytes: Seq<u8>) -> Option<Seq<u8>>;

/// Calls `zstd::encode_all(raw, level)`. Claims: the result is what
/// `zstd_compressed` names for these arguments, and (zstd being lossless)
/// compressed output decompresses to `raw`.
#[verifier::external_body]
fn zstd_encode(raw: &[u8], level: i32) -> (r: Option<Vec<u8>>)
    ensures
        (match r {
            Some(p) => zstd_compressed(raw@, level) == Some(p@),
            None => zstd_compressed(raw@, level) is None,
        }),
        r matches Some(p) ==> zstd_decompressed(p@) == Some(raw@),
{
    zstd::encode_all(raw, level).ok()
}

/// The file bytes a whole-file payload stands for.
pub open spec fn unpacked(bytes: Seq<u8>, zstd: bool) -> Option<Seq<u8>> {
    if zstd {
        zstd_decompressed(bytes)
    } else {
        Some(bytes)
    }
}

/// Builds a whole-file [`Data`] response, compressed with zstd when that was
/// negotiated and compression succeeds. Whatever is sent unpacks to exactly
/// `raw`.
pub fn whole_data(raw: Vec<u8>, options: NetOptions) -> (d: Data)
    ensures
        d matches Data::Whole { bytes, zstd } && {
            &&& zstd == (options.compress && zstd_compressed(raw@, options.compress_level) is Some)
            &&& zstd ==> zstd_compressed(raw@, options.compress_level) == Some(bytes@)
            &&& !zstd ==> bytes@ == raw@
            &&& unpacked(bytes@, zstd) == Some(raw@)
        },
{
    if options.compress {
        match zstd_encode(raw.as_slice(), options.compress_level) {
            Some(packed) => {
                return Data::Whole { bytes: packed, zstd: true };
            },
            None => {},
        }
    }
    Data::Whole { bytes: raw, zstd: false }
}

/// The reply to a delta request: `NotFound` when the file could not be read
/// (`bytes` is `None`), otherwise the delta of the file against the
/// receiver's signature (whatever signature the peer sent).
pub fn delta_reply(sig: &Signature, bytes: Option<Vec<u8>>) -> (d: Data)
    ensures
        match bytes {
            None => d is NotFound,
            Some(b) => d matches Data::Delta(delta) && delta@ == encode_spec(sig@, b@),
        },
{
    match bytes {
        None => Data::NotFound,
        Some(b) => Data::Delta(encode_with_signature(sig, b.as_slice())),
    }
}

/// What the sender does next after reading one message.
#[derive(Debug, Clone)]
pub enum SenderStep {
    /// Read the whole file at this path and reply with [`whole_data`].
    SendWhole(String),
    /// Read this file and reply with a delta against the signature.
    SendDelta(String, Signature),
    /// The path would leave the sender's root (a `..` component or an
    /// absolute path): reply [`Data::NotFound`] without touching the disk.
    Refuse(String),
    /// The receiver finished; the session ends with its tally.
    Done(Stats),
}

/// The sender's reading of one message from the receiver: a request to
/// answer, the end of the session, or a failure (the peer's own error, or
/// any other message). Every path the sender touches stays under its root:
/// a request naming a path that escapes it ([`escapes_root`]) is refused,
/// never served.
pub fn sender_step(msg: Msg) -> (r: Result<SenderStep, Error>)
    ensures
        match msg {
            Msg::Request(Request::Whole(rel)) => if escapes_root(rel@) {
                r matches Ok(SenderStep::Refuse(p)) && p == rel
            } else {
                r matches Ok(SenderStep::SendWhole(p)) && p == rel
            },
            Msg::Request(Request::Delta(rel, sig)) => if escapes_root(rel@) {
                r matches Ok(SenderStep::Refuse(p)) && p == rel
            } else {
                r matches Ok(SenderStep::SendDelta(p, s)) && p == rel && s == sig
            },
            Msg::Finished(stats) => r matches Ok(SenderStep::Done(s)) && s == stats,
            Msg::Error(e) => r matches Err(Error::Protocol(ProtocolError::Peer(m))) && m == e,
            _ => r matches Err(Error::Protocol(ProtocolError::Unexpected(_))),
        },
{
    match msg {
        Msg::Request(Request::Whole(rel)) => {
            if check_relative(rel.as_str()).is_err() {
                Ok(SenderStep::Refuse(rel))
            } else {
                Ok(SenderStep::SendWhole(rel))
            }
        },
        Msg::Request(Request::Delta(rel, sig)) => {
            if check_relative(rel.as_str()).is_err() {
                Ok(SenderStep::Refuse(rel))
            } else {
                Ok(SenderStep::SendDelta(rel, sig))
            }
        },
        Msg::Finished(stats) => Ok(SenderStep::Done(stats)),
        Msg::Error(e) => Err(Error::Protocol(ProtocolError::Peer(e))),
        _ => Err(Error::Protocol(ProtocolError::Unexpected("sender: unexpected message".to_owned()))),
    }
}

/// The file-list entry the sender announces for a walked entry.
pub fn net_entry_of(entry: &Entry) -> (n: NetEntry)
    ensures
        n.rel == entry.rel,
        n.len == entry.len,
        n.mtime_s == entry.mtime.seconds,
        n.mtime_ns == entry.mtime.nanos,
        n.mode == entry.mode,
        match entry.kind {
            EntryKind::Dir => n.kind is Dir,
            EntryKind::File => n.kind is File,
            EntryKind::Symlink(t) => n.kind matches NetKind::Symlink(u) && u == t,
        },
{
    let kind = match &entry.kind {
        EntryKind::Dir => NetKind::Dir,
        EntryKind::File => NetKind::File,
        EntryKind::Symlink(target) => NetKind::Symlink(target.clone()),
    };
    NetEntry {
        rel: entry.rel.clone(),
        kind,
        len: entry.len,
        mtime_s: entry.mtime.seconds,
        mtime_ns: entry.mtime.nanos,
        mode: entry.mode,
    }
}

} // verus!
