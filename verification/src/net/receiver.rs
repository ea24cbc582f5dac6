//! The receiver: the side that holds the destination tree.
//!
//! It reads the sender's file list, creates directories and symlinks
//! directly, and for each file decides skip, whole or delta. It drives the
//! exchange, one request then one response at a time, applies each result
//! with a containment-checked atomic write, mirrors deletions, and finally
//! sends [`Msg::Finished`] to end the session.

use vstd::prelude::*;

use crate::delta::{apply, apply_ops};
use crate::error::{Error, ProtocolError};
use crate::net::proto::{Data, Msg, NetEntry, NetKind, NetOptions};
use crate::net::sender::{unpacked, zstd_decompressed};
use crate::plan::Action;
use crate::report::Stats;
use crate::walk::{Entry, EntryKind};

verus! {

/// Calls `zstd::decode_all(bytes)`. Claims: the result is what
/// `zstd_decompressed` names for these bytes.
#[verifier::external_body]
fn zstd_decode(bytes: &[u8]) -> (r: Option<Vec<u8>>)
    ensures
        (match r {
            Some(v) => zstd_decompressed(bytes@) == Some(v@),
            None => zstd_decompressed(bytes@) is None,
        }),
{
    zstd::decode_all(bytes).ok()
}

/// Decodes a whole-file payload, decompressing when it was packed. `None`
/// when decompression fails, which the caller counts as a per-entry error.
pub fn unpack(bytes: Vec<u8>, zstd: bool) -> (r: Option<Vec<u8>>)
    ensures
        match unpacked(bytes@, zstd) {
            Some(v) => r matches Some(out) && out@ == v,
            None => r is None,
        },
{
    if zstd {
        zstd_decode(bytes.as_slice())
    } else {
        Some(bytes)
    }
}

/// The destination already holds a regular file at the entry's path.
pub open spec fn is_existing_file(existing: Option<Entry>) -> bool {
    existing matches Some(x) && x.kind is File
}

/// A listed file can be skipped without any transfer: not in checksum mode,
/// and the destination file has the same size and whole-second mtime.
pub open spec fn file_unchanged_spec(options: NetOptions, existing: Option<Entry>, e: NetEntry) -> bool {
    &&& !options.checksum
    &&& existing matches Some(x)
    &&& x.kind is File
    &&& x.len == e.len
    &&& x.mtime.seconds == e.mtime_s
}

/// Whether a listed file can be skipped (see [`file_unchanged_spec`]).
pub fn file_unchanged(options: &NetOptions, existing: Option<&Entry>, e: &NetEntry) -> (r: bool)
    ensures
        r == file_unchanged_spec(
            *options,
            match existing {
                Some(x) => Some(*x),
                None => None,
            },
            *e,
        ),
{
    if options.checksum {
        return false;
    }
    match existing {
        Some(x) => x.is_file() && x.len == e.len && x.mtime.seconds == e.mtime_s,
        None => false,
    }
}

/// Whether to ask for a delta rather than the whole file: only against an
/// existing regular file, and never with `whole_file`.
pub fn wants_delta(options: &NetOptions, existing_file: bool) -> (r: bool)
    ensures
        r == (!options.whole_file && existing_file),
{
    !options.whole_file && existing_file
}

/// Counts a created or updated entry and returns the action taken: an update
/// when the destination already had the entry, else a copy.
pub fn bump(stats: &mut Stats, existed: bool) -> (a: Action)
    requires
        old(stats).updated < u64::MAX,
        old(stats).copied < u64::MAX,
    ensures
        existed ==> a == Action::Update && *final(stats) == (Stats {
            updated: (old(stats).updated + 1) as u64,
            ..*old(stats)
        }),
        !existed ==> a == Action::Copy && *final(stats) == (Stats {
            copied: (old(stats).copied + 1) as u64,
            ..*old(stats)
        }),
{
    if existed {
        stats.updated = stats.updated + 1;
        Action::Update
    } else {
        stats.copied = stats.copied + 1;
        Action::Copy
    }
}

/// Counts a per-entry failure; the run continues.
pub fn fail(stats: &mut Stats)
    requires
        old(stats).errors < u64::MAX,
    ensures
        *final(stats) == (Stats { errors: (old(stats).errors + 1) as u64, ..*old(stats) }),
{
    stats.errors = stats.errors + 1;
}

/// The new contents of a file, from the sender's reply to our request.
/// `old` is the destination's current copy, against which a delta applies
/// (only when a delta was requested). A reply the sender could not serve, a
/// payload that does not decompress, or a delta that does not apply gives
/// `Ok(None)`, a per-entry failure; the peer's own error or any other message
/// fails the session.
pub fn reply_content(old: &[u8], requested_delta: bool, msg: Msg) -> (r: Result<Option<Vec<u8>>, Error>)
    ensures
        match msg {
            Msg::Data(Data::Delta(d)) => if requested_delta {
                match apply_ops(old@, d.block_size as int, d@.ops) {
                    Ok(v) => r matches Ok(Some(out)) && out@ == v,
                    Err(_) => r matches Ok(None),
                }
            } else {
                r matches Err(Error::Protocol(ProtocolError::Unexpected(_)))
            },
            Msg::Data(Data::Whole { bytes, zstd }) => match unpacked(bytes@, zstd) {
                Some(v) => r matches Ok(Some(out)) && out@ == v,
                None => r matches Ok(None),
            },
            Msg::Data(Data::NotFound) => r matches Ok(None),
            Msg::Error(e) => r matches Err(Error::Protocol(ProtocolError::Peer(m))) && m == e,
            _ => r matches Err(Error::Protocol(ProtocolError::Unexpected(_))),
        },
{
    match msg {
        Msg::Data(Data::Delta(d)) => {
            if requested_delta {
                match apply(old, &d) {
                    Ok(v) => Ok(Some(v)),
                    Err(_) => Ok(None),
                }
            } else {
                Err(Error::Protocol(ProtocolError::Unexpected("receiver: unexpected delta".to_owned())))
            }
        },
        Msg::Data(Data::Whole { bytes, zstd }) => Ok(unpack(bytes, zstd)),
        Msg::Data(Data::NotFound) => Ok(None),
        Msg::Error(e) => Err(Error::Protocol(ProtocolError::Peer(e))),
        _ => Err(Error::Protocol(ProtocolError::Unexpected("receiver: unexpected message".to_owned()))),
    }
}

/// What the receiver does with the next message while collecting the file
/// list.
#[derive(Debug, Clone)]
pub enum ListStep {
    /// Another entry of the list.
    Entry(NetEntry),
    /// The list is complete.
    Done,
}

/// The receiver's reading of one message while the file list streams in.
pub fn list_step(msg: Msg) -> (r: Result<ListStep, Error>)
    ensures
        match msg {
            Msg::Entry(e) => r matches Ok(ListStep::Entry(x)) && x == e,
            Msg::ListDone => r matches Ok(ListStep::Done),
            Msg::Error(e) => r matches Err(Error::Protocol(ProtocolError::Peer(m))) && m == e,
            _ => r matches Err(Error::Protocol(ProtocolError::Unexpected(_))),
        },
{
    match msg {
        Msg::Entry(e) => Ok(ListStep::Entry(e)),
        Msg::ListDone => Ok(ListStep::Done),
        Msg::Error(e) => Err(Error::Protocol(ProtocolError::Peer(e))),
        _ => Err(Error::Protocol(ProtocolError::Unexpected(
            "receiver: expected entry/list-done".to_owned(),
        ))),
    }
}

} // verus!
