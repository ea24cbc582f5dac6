//! Error types. Library code returns a `Result` with [`Error`]; it never panics
//! on bad input.

use vstd::prelude::*;

verus! {

/// `std::io::Error` is carried through unchanged; the library never looks inside.
#[verifier::external_type_specification]
#[verifier::external_body]
pub struct ExIoError(std::io::Error);

/// Why a delta could not be applied to its basis.
#[derive(Debug, Clone, Copy, PartialEq, Eq)]
pub enum DeltaApplyError {
    /// `index * block_size` does not fit in a `usize`.
    BlockOffsetOverflow,
    /// A copy references a block that does not exist in the basis.
    BlockOutOfRange(u32),
}

/// Why a filter rule was refused.
#[derive(Debug, Clone, PartialEq, Eq)]
pub enum FilterError {
    /// The rule has no whitespace-separated pattern after its sign.
    MissingPattern(String),
    /// The rule's sign is neither `+` nor `-`.
    BadSign(String),
    /// A glob pattern did not parse.
    InvalidPattern(String),
    /// The globs of a pattern did not build into a set.
    Unbuildable(String),
    /// The exclude patterns did not build into a set.
    ExcludesUnbuildable,
}

/// A violation of the remote-sync wire protocol.
#[derive(Debug, Clone, PartialEq, Eq)]
pub enum ProtocolError {
    /// The peer speaks another protocol version, or refused the hello.
    Incompatible(u32),
    /// The opening hello had the wrong magic or version.
    BadHandshake { magic_ok: bool, version: u32 },
    /// A frame's length prefix exceeds the frame cap.
    FrameTooLarge(u64),
    /// A message arrived where another kind was expected.
    Unexpected(String),
    /// The peer reported a fatal error.
    Peer(String),
    /// A message could not be encoded.
    Serialize(String),
    /// A frame could not be decoded into a message.
    Deserialize(String),
}

/// Errors that can arise while planning or applying a sync.
#[derive(Debug)]
pub enum Error {
    /// The run was cancelled cooperatively.
    Cancelled,
    /// An underlying I/O failure, annotated with the offending path.
    Io { path: String, source: std::io::Error },
    /// A bare I/O failure with no associated path.
    BareIo(std::io::Error),
    /// A path escaped the destination root (containment violation).
    Containment(String),
    /// `--delete` was requested but the source is empty or unreadable.
    EmptySource(String),
    /// An exclude/glob pattern failed to compile, or an index record was refused.
    Pattern(String),
    /// An include/exclude/files-from filter was invalid.
    Filter(FilterError),
    /// A delta could not be applied to the supplied basis.
    DeltaApply(DeltaApplyError),
    /// The remote-sync wire protocol was violated.
    Protocol(ProtocolError),
    /// Verification found this many mismatches.
    Verification(usize),
}

impl Error {
    /// Wrap an I/O error together with the path that produced it.
    pub fn io(path: String, source: std::io::Error) -> (e: Error)
        ensures
            e == (Error::Io { path, source }),
    {
        Error::Io { path, source }
    }
}

} // verus!
