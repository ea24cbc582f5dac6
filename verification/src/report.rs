//! Progress reporting shared by the plain output and the live dashboard.
//!
//! The engine emits [`Event`]s through a [`Reporter`]; the program decides how
//! to render them (line output, JSON, or a live dashboard).

use vstd::prelude::*;

use crate::plan::Action;

verus! {

/// The lifecycle phase of a run.
#[derive(Debug, Clone, Copy, PartialEq, Eq, Structural)]
pub enum RunPhase {
    /// Walking and classifying.
    Planning,
    /// Waiting for the user to approve the plan.
    Review,
    /// Copying and updating entries.
    Copying,
    /// Mirroring deletions.
    Deleting,
    /// Checking the destination against the source.
    Verifying,
    /// Writing the index and restoring directory times.
    Finalizing,
    /// Finished successfully.
    Done,
    /// Stopped by the user.
    Cancelled,
    /// Stopped by an error.
    Failed,
}

/// How a run ended.
#[derive(Debug, Clone, Copy, PartialEq, Eq, Structural)]
pub enum RunStatus {
    /// Everything was applied.
    Success,
    /// The run was cancelled.
    Cancelled,
    /// The run failed.
    Failed,
}

/// A progress event emitted while planning and applying.
#[derive(Debug, Clone)]
pub enum Event {
    /// The run entered a new phase.
    Phase(RunPhase),
    /// Planning has seen this many entries so far.
    PlanningProgress {
        /// Entries walked.
        entries: usize,
    },
    /// The copy backend that was chosen, and why.
    BackendSelected {
        /// Backend name.
        backend: String,
        /// Why it was chosen.
        reason: String,
    },
    /// Emitted once before work starts.
    Planned {
        /// Number of files that will be copied or updated.
        total_files: usize,
        /// Total bytes those files comprise.
        total_bytes: u64,
        /// Number of pending deletions.
        deletions: usize,
    },
    /// A file transfer began.
    FileStart {
        /// Path relative to the destination root.
        rel: String,
        /// File length in bytes.
        len: u64,
    },
    /// A file transfer finished.
    FileDone {
        /// Path relative to the destination root.
        rel: String,
        /// Whether it was a copy or an update.
        action: Action,
        /// Bytes written.
        bytes: u64,
    },
    /// A directory was created or already present.
    DirDone {
        /// Path relative to the destination root.
        rel: String,
        /// The action taken.
        action: Action,
    },
    /// A symlink was created or updated.
    SymlinkDone {
        /// Path relative to the destination root.
        rel: String,
        /// The action taken.
        action: Action,
    },
    /// An entry was skipped (already up to date).
    Skipped {
        /// Path relative to the destination root.
        rel: String,
    },
    /// An entry was deleted.
    Deleted {
        /// Path relative to the destination root.
        rel: String,
    },
    /// An operation failed for a single entry (the sync continues).
    Failed {
        /// Path relative to the destination root.
        rel: String,
        /// Human-readable error text.
        error: String,
    },
    /// Verification progress.
    VerificationProgress {
        /// Entries checked so far.
        checked: usize,
        /// Entries to check.
        total: usize,
        /// Mismatches found so far.
        mismatches: usize,
    },
    /// Verification found a difference.
    VerificationFailed {
        /// Path relative to the destination root.
        rel: String,
        /// What differs.
        detail: String,
    },
    /// The run ended.
    Finished {
        /// How it ended.
        status: RunStatus,
    },
}

/// Tally of everything a sync did.
#[derive(Debug, Clone, Copy, PartialEq, Eq, Structural)]
pub struct Stats {
    /// Files, directories and symlinks newly created.
    pub copied: u64,
    /// Entries overwritten.
    pub updated: u64,
    /// Entries left untouched.
    pub skipped: u64,
    /// Entries removed.
    pub deleted: u64,
    /// Per-entry failures.
    pub errors: u64,
    /// Bytes written for copies and updates.
    pub bytes: u64,
}

impl Default for Stats {
    fn default() -> (s: Self)
        ensures
            s == (Stats { copied: 0, updated: 0, skipped: 0, deleted: 0, errors: 0, bytes: 0 }),
    {
        Stats { copied: 0, updated: 0, skipped: 0, deleted: 0, errors: 0, bytes: 0 }
    }
}

/// A sink for [`Event`]s. Implementations must be cheap and thread-safe.
pub trait Reporter {
    /// Handles a single event.
    fn event(&self, ev: Event);
}

/// A [`Reporter`] that ignores everything.
pub struct NullReporter;

impl Reporter for NullReporter {
    fn event(&self, ev: Event) {
    }
}

/// The lowercase word for a phase.
pub open spec fn phase_text(phase: RunPhase) -> Seq<char> {
    match phase {
        RunPhase::Planning => "planning"@,
        RunPhase::Review => "review"@,
        RunPhase::Copying => "copying"@,
        RunPhase::Deleting => "deleting"@,
        RunPhase::Verifying => "verifying"@,
        RunPhase::Finalizing => "finalizing"@,
        RunPhase::Done => "done"@,
        RunPhase::Cancelled => "cancelled"@,
        RunPhase::Failed => "failed"@,
    }
}

/// The lowercase word for a phase.
pub fn phase_word(phase: RunPhase) -> (s: &'static str)
    ensures
        s@ == phase_text(phase),
{
    match phase {
        RunPhase::Planning => "planning",
        RunPhase::Review => "review",
        RunPhase::Copying => "copying",
        RunPhase::Deleting => "deleting",
        RunPhase::Verifying => "verifying",
        RunPhase::Finalizing => "finalizing",
        RunPhase::Done => "done",
        RunPhase::Cancelled => "cancelled",
        RunPhase::Failed => "failed",
    }
}

/// The lowercase word for a final status.
pub open spec fn status_text(status: RunStatus) -> Seq<char> {
    match status {
        RunStatus::Success => "success"@,
        RunStatus::Cancelled => "cancelled"@,
        RunStatus::Failed => "failed"@,
    }
}

/// The lowercase word for a final status.
pub fn status_word(status: RunStatus) -> (s: &'static str)
    ensures
        s@ == status_text(status),
{
    match status {
        RunStatus::Success => "success",
        RunStatus::Cancelled => "cancelled",
        RunStatus::Failed => "failed",
    }
}

/// The phase a run ends in for each final status.
pub fn final_phase(status: RunStatus) -> (p: RunPhase)
    ensures
        p == (match status {
            RunStatus::Success => RunPhase::Done,
            RunStatus::Cancelled => RunPhase::Cancelled,
            RunStatus::Failed => RunPhase::Failed,
        }),
{
    match status {
        RunStatus::Success => RunPhase::Done,
        RunStatus::Cancelled => RunPhase::Cancelled,
        RunStatus::Failed => RunPhase::Failed,
    }
}

} // verus!
