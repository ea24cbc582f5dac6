//! Remote sync over a single duplex byte stream (ssh, or an in-process pipe).
//!
//! Both peers run this program. One side is the initiator (the locally
//! invoked program, which spawns `ssh host ripsync --server`); the other is the
//! responder (`ripsync --server`). After a versioned handshake the connection
//! carries the receiver-driven lock-step protocol described in [`proto`].
//!
//! Reading and writing the stream is done by the caller; this module holds the
//! wire formats and every decision taken on what was read.

pub mod proto;
pub mod receiver;
pub mod sender;
pub mod transport;
