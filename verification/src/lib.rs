//! ripsync: the verified core of a directory-sync tool — the weak rolling
//! checksum and the rsync-style delta engine, the persistent-index journal
//! format, filters, plan classification, containment checks, cooperative run
//! control, and the remote protocol's framing and per-entry decisions.
//!
//! Everything that touches the filesystem, the terminal or a network stream
//! lives in the companion program under `app/`.

pub mod checksum;
pub mod delta;
pub mod error;
pub mod control;
pub mod text;
pub mod paths;
pub mod meta;
pub mod walk;
pub mod plan;
pub mod index;
pub mod tune;
pub mod filter;
pub mod report;
pub mod net;
pub mod copy;
pub mod verify;
pub mod args;
pub mod pathset;
pub mod remote;
pub mod util;
pub mod apply;
pub mod session;
pub mod kernel;
pub mod tui;
pub mod console;
