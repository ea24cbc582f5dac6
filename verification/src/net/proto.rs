//! Wire types for the remote-sync protocol, and the opening handshake.
//!
//! Both peers run this program; the protocol is not wire-compatible with
//! rsync. Control messages travel inside length-prefixed frames (see
//! [`super::transport`]). The flow is receiver-driven lock-step: the side
//! that holds the source (the sender) streams its file list, then only
//! answers one [`Request`] with one [`Data`] response at a time. The side that
//! holds the destination (the receiver) drives: it requests the content it
//! needs, applies each response, and finally sends [`Msg::Finished`].
//!
//! The handshake opens with an unframed hello: the seven bytes of [`MAGIC`]
//! and the protocol version as a big-endian `u32`.

use vstd::prelude::*;

use crate::delta::{Delta, Signature};
use crate::error::{Error, ProtocolError};
use crate::report::Stats;

verus! {

/// Magic prefix sent raw at the very start of a connection: `b"ripsync"`.
pub const MAGIC: [u8; 7] = [0x72u8, 0x69u8, 0x70u8, 0x73u8, 0x79u8, 0x6eu8, 0x63u8];

/// Protocol version. Bumped on any incompatible wire change.
pub const PROTO_VERSION: u32 = 1;

/// Length of the opening hello.
pub const HELLO_LEN: usize = 11;

/// Which direction the local (initiating) side asked for.
#[derive(Debug, Clone, Copy, PartialEq, Eq, Structural)]
pub enum Role {
    /// Local to remote: local is the sender, the remote server the receiver.
    Push,
    /// Remote to local: the remote server is the sender, local the receiver.
    Pull,
}

/// Options that affect how the transfer is performed, negotiated once.
#[derive(Debug, Clone, Copy, PartialEq, Eq, Structural)]
pub struct NetOptions {
    /// Mirror deletions (remove destination entries absent from the source).
    pub delete: bool,
    /// Compare files by content hash rather than size and mtime.
    pub checksum: bool,
    /// Preserve Unix permission bits.
    pub preserve_mode: bool,
    /// Preserve modification times.
    pub preserve_mtime: bool,
    /// Always transfer whole files; never compute a delta.
    pub whole_file: bool,
    /// Compress whole-file payloads on the wire with zstd.
    pub compress: bool,
    /// zstd compression level (1 to 22) used when `compress` is set.
    pub compress_level: i32,
}

impl Default for NetOptions {
    fn default() -> (o: Self)
        ensures
            o == (NetOptions {
                delete: false,
                checksum: false,
                preserve_mode: false,
                preserve_mtime: false,
                whole_file: false,
                compress: false,
                compress_level: 0,
            }),
    {
        NetOptions {
            delete: false,
            checksum: false,
            preserve_mode: false,
            preserve_mtime: false,
            whole_file: false,
            compress: false,
            compress_level: 0,
        }
    }
}

/// The first framed message the initiator sends after the raw hello: which
/// role the responder plays and over which root.
#[derive(Debug, Clone)]
pub struct Init {
    /// The local side's intent.
    pub role: Role,
    /// The remote root path (destination for a push, source for a pull).
    pub root: String,
    /// Negotiated transfer options.
    pub options: NetOptions,
}

/// What a listed entry is.
#[derive(Debug, Clone, PartialEq, Eq)]
pub enum NetKind {
    /// A directory.
    Dir,
    /// A regular file.
    File,
    /// A symlink with the given verbatim target.
    Symlink(String),
}

/// One entry in the sender's file list.
#[derive(Debug, Clone)]
pub struct NetEntry {
    /// Path relative to the transfer root (never contains `..`).
    pub rel: String,
    /// Kind of entry.
    pub kind: NetKind,
    /// Byte length (0 for directories and symlinks).
    pub len: u64,
    /// Modification time, whole seconds since the Unix epoch.
    pub mtime_s: i64,
    /// Sub-second part of the modification time, in nanoseconds.
    pub mtime_ns: u32,
    /// Unix permission and type bits (0 where unavailable).
    pub mode: u32,
}

/// Receiver to sender: the content the receiver needs for one file.
#[derive(Debug, Clone)]
pub enum Request {
    /// Send the whole file at this relative path.
    Whole(String),
    /// Send a delta of this file against the supplied signature of the
    /// receiver's existing copy.
    Delta(String, Signature),
}

/// Sender to receiver: the response to a [`Request`].
#[derive(Debug, Clone)]
pub enum Data {
    /// The whole file contents; `zstd` is true when `bytes` is compressed.
    Whole {
        /// File bytes (possibly compressed).
        bytes: Vec<u8>,
        /// Whether `bytes` is zstd-compressed.
        zstd: bool,
    },
    /// A delta to apply to the receiver's existing copy.
    Delta(Delta),
    /// The sender could not read the file; the receiver records a per-entry
    /// error and moves on.
    NotFound,
}

/// Every framed message on the wire.
#[derive(Debug, Clone)]
pub enum Msg {
    /// Responder to initiator: version check result.
    ServerHello {
        /// Responder's protocol version.
        version: u32,
        /// Whether the responder accepts the connection.
        ok: bool,
    },
    /// Initiator to responder: role, root, options.
    Init(Init),
    /// Responder to initiator: handshake complete.
    InitAck,
    /// Sender to receiver: one file-list entry.
    Entry(NetEntry),
    /// Sender to receiver: the file list is complete.
    ListDone,
    /// Receiver to sender: request content for one file.
    Request(Request),
    /// Sender to receiver: content for the requested file.
    Data(Data),
    /// Receiver to sender: terminal message carrying the final tally.
    Finished(Stats),
    /// Either side: a fatal error; the peer should abort.
    Error(String),
}

/// The big-endian bytes of a `u32`.
pub open spec fn be32(v: u32) -> Seq<u8> {
    seq![(v >> 24) as u8, ((v >> 16) & 0xff) as u8, ((v >> 8) & 0xff) as u8, (v & 0xff) as u8]
}

/// The `u32` whose big-endian bytes are `b[0..4]`.
pub open spec fn from_be32(b: Seq<u8>) -> u32 {
    ((b[0] as u32) << 24) | ((b[1] as u32) << 16) | ((b[2] as u32) << 8) | (b[3] as u32)
}

/// The opening hello for a protocol `version`.
pub open spec fn hello_spec(version: u32) -> Seq<u8> {
    MAGIC@ + be32(version)
}

/// The initiator's opening hello: the magic followed by `version`, big endian.
pub fn hello_bytes(version: u32) -> (h: [u8; 11])
    ensures
        h@ == hello_spec(version),
{
    let h = [
        MAGIC[0],
        MAGIC[1],
        MAGIC[2],
        MAGIC[3],
        MAGIC[4],
        MAGIC[5],
        MAGIC[6],
        (version >> 24) as u8,
        ((version >> 16) & 0xff) as u8,
        ((version >> 8) & 0xff) as u8,
        (version & 0xff) as u8,
    ];
    proof {
        assert(h@ =~= hello_spec(version));
    }
    h
}

/// What the responder reads from an opening hello.
#[derive(Debug, Clone, Copy, PartialEq, Eq, Structural)]
pub struct HelloCheck {
    /// The first seven bytes are the magic.
    pub magic_ok: bool,
    /// The version the initiator announced.
    pub version: u32,
    /// The responder accepts: the magic is right and the version is ours.
    pub ok: bool,
}

/// Reads an opening hello: whether the magic is right, the announced version
/// (big endian), and whether the connection is accepted.
pub fn check_hello(buf: &[u8; 11]) -> (c: HelloCheck)
    ensures
        c.magic_ok == (buf@.take(7) == MAGIC@),
        c.version == from_be32(buf@.skip(7)),
        c.ok == (c.magic_ok && c.version == PROTO_VERSION),
{
    let mut magic_ok = true;
    let mut i: usize = 0;
    while i < 7
        invariant
            i <= 7,
            magic_ok == (forall|j: int| 0 <= j < i ==> buf@[j] == MAGIC@[j]),
        decreases 7 - i,
    {
        if buf[i] != MAGIC[i] {
            magic_ok = false;
        }
        i += 1;
    }
    proof {
        if magic_ok {
            assert(buf@.take(7) =~= MAGIC@);
        } else {
            let j = choose|j: int| 0 <= j < 7 && buf@[j] != MAGIC@[j];
            assert(buf@.take(7)[j] != MAGIC@[j]);
        }
    }
    let version = ((buf[7] as u32) << 24) | ((buf[8] as u32) << 16) | ((buf[9] as u32) << 8) | (
    buf[10] as u32);
    proof {
        let rest = buf@.skip(7);
        assert(rest[0] == buf@[7] && rest[1] == buf@[8] && rest[2] == buf@[9] && rest[3]
            == buf@[10]);
    }
    HelloCheck { magic_ok, version, ok: magic_ok && version == PROTO_VERSION }
}

impl HelloCheck {
    /// As a result: an error of kind [`ProtocolError::BadHandshake`]
    /// exactly when the hello was refused.
    pub fn into_result(&self) -> (r: Result<(), Error>)
        ensures
            self.ok ==> r is Ok,
            !self.ok ==> r == Err::<(), Error>(
                Error::Protocol(
                    ProtocolError::BadHandshake { magic_ok: self.magic_ok, version: self.version },
                ),
            ),
    {
        if self.ok {
            Ok(())
        } else {
            Err(
                Error::Protocol(
                    ProtocolError::BadHandshake { magic_ok: self.magic_ok, version: self.version },
                ),
            )
        }
    }
}

/// A hello made for our protocol version is accepted by a responder of the
/// same version, and a hello for any other version is refused.
pub proof fn lemma_hello_accepted(version: u32)
    ensures
        hello_spec(version).take(7) == MAGIC@,
        from_be32(hello_spec(version).skip(7)) == version,
{
    let h = hello_spec(version);
    assert(h.take(7) =~= MAGIC@);
    let rest = h.skip(7);
    assert(rest =~= be32(version));
    assert(((((version >> 24) as u8) as u32) << 24) | (((((version >> 16) & 0xff) as u8) as u32)
        << 16) | (((((version >> 8) & 0xff) as u8) as u32) << 8) | (((version & 0xff) as u8) as u32)
        == version) by (bit_vector);
}

/// The initiator's reading of the responder's first message: a hello that
/// accepts our version, or else the connection fails.
pub fn accept_server_hello(msg: &Msg) -> (r: Result<(), Error>)
    ensures
        match msg {
            Msg::ServerHello { version, ok } => if *ok && *version == PROTO_VERSION {
                r is Ok
            } else {
                r == Err::<(), Error>(Error::Protocol(ProtocolError::Incompatible(*version)))
            },
            _ => r matches Err(Error::Protocol(ProtocolError::Unexpected(_))),
        },
{
    match msg {
        Msg::ServerHello { version, ok } => {
            if !*ok || *version != PROTO_VERSION {
                Err(Error::Protocol(ProtocolError::Incompatible(*version)))
            } else {
                Ok(())
            }
        },
        _ => Err(Error::Protocol(ProtocolError::Unexpected("expected ServerHello".to_owned()))),
    }
}

/// The initiator's reading of the handshake's last message.
pub fn accept_init_ack(msg: &Msg) -> (r: Result<(), Error>)
    ensures
        msg is InitAck ==> r is Ok,
        !(msg is InitAck) ==> r matches Err(Error::Protocol(ProtocolError::Unexpected(_))),
{
    match msg {
        Msg::InitAck => Ok(()),
        _ => Err(Error::Protocol(ProtocolError::Unexpected("expected InitAck".to_owned()))),
    }
}

/// The responder's reading of the initiator's first framed message.
pub fn accept_init(msg: Msg) -> (r: Result<Init, Error>)
    ensures
        match msg {
            Msg::Init(init) => r == Ok::<Init, Error>(init),
            _ => r matches Err(Error::Protocol(ProtocolError::Unexpected(_))),
        },
{
    match msg {
        Msg::Init(init) => Ok(init),
        _ => Err(Error::Protocol(ProtocolError::Unexpected("expected Init".to_owned()))),
    }
}

} // verus!
