//! Device-tier auto-tuning.
//!
//! The same program runs on everything from a 2-core NAS to a 32-core
//! workstation. A machine is classified into a [`Profile`] from its core count
//! and, where known, its total RAM; [`Profile::params`] turns the tier into
//! concrete [`TuneParams`]: worker threads, copy-buffer size, `io_uring` queue
//! depth and zstd level.

use vstd::prelude::*;

verus! {

/// A device performance tier.
#[derive(Debug, Clone, Copy, PartialEq, Eq, Structural)]
pub enum Profile {
    /// Small or constrained device (at most 2 cores or at most 2 GiB RAM):
    /// conserve memory and avoid oversubscription.
    Low,
    /// Typical desktop or laptop: balanced defaults.
    Balanced,
    /// Workstation or server (at least 8 cores and at least 16 GiB RAM): use
    /// the hardware fully.
    High,
}

/// Where a machine's total RAM stands against the tier thresholds.
#[derive(Debug, Clone, Copy, PartialEq, Eq, Structural)]
pub enum RamClass {
    /// At most 2 GiB.
    Small,
    /// More than 2 GiB and less than 16 GiB.
    Medium,
    /// At least 16 GiB.
    Large,
}

/// Concrete knobs derived from a [`Profile`] for a given core count.
#[derive(Debug, Clone, Copy, PartialEq, Eq, Structural)]
pub struct TuneParams {
    /// Worker threads for the parallel walk and apply phases.
    pub threads: usize,
    /// Buffer size for the portable copy path, in bytes.
    pub copy_buffer: usize,
    /// `io_uring` submission and completion queue depth.
    pub uring_queue_depth: usize,
    /// Default zstd level for wire compression.
    pub zstd_level: i32,
}

/// The parameters of a tier on a machine with `cores` CPUs (a reported count
/// of zero is taken as one).
pub open spec fn params_spec(p: Profile, cores: usize) -> TuneParams {
    let cores: usize = if cores == 0 {
        1usize
    } else {
        cores
    };
    match p {
        Profile::Low => TuneParams {
            threads: if cores < 2 {
                cores
            } else {
                2usize
            },
            copy_buffer: 262144,
            uring_queue_depth: 32,
            zstd_level: 1,
        },
        Profile::Balanced => TuneParams {
            threads: cores,
            copy_buffer: 1048576,
            uring_queue_depth: 128,
            zstd_level: 3,
        },
        Profile::High => TuneParams {
            threads: cores,
            copy_buffer: 8388608,
            uring_queue_depth: 512,
            zstd_level: 6,
        },
    }
}

/// The tier of a machine: `Low` with at most 2 cores or small RAM, `High`
/// with at least 8 cores and RAM that is large or unknown, else `Balanced`.
pub open spec fn classify_spec(cores: usize, ram: Option<RamClass>) -> Profile {
    if cores <= 2 || ram == Some(RamClass::Small) {
        Profile::Low
    } else if cores >= 8 && (ram is None || ram == Some(RamClass::Large)) {
        Profile::High
    } else {
        Profile::Balanced
    }
}

impl Profile {
    /// Turns this tier into concrete parameters for a machine with `cores` CPUs.
    pub fn params(self, cores: usize) -> (t: TuneParams)
        ensures
            t == params_spec(self, cores),
    {
        let cores: usize = if cores == 0 {
            1
        } else {
            cores
        };
        match self {
            Profile::Low => TuneParams {
                threads: if cores < 2 {
                    cores
                } else {
                    2
                },
                copy_buffer: 256 * 1024,
                uring_queue_depth: 32,
                zstd_level: 1,
            },
            Profile::Balanced => TuneParams {
                threads: cores,
                copy_buffer: 1024 * 1024,
                uring_queue_depth: 128,
                zstd_level: 3,
            },
            Profile::High => TuneParams {
                threads: cores,
                copy_buffer: 8 * 1024 * 1024,
                uring_queue_depth: 512,
                zstd_level: 6,
            },
        }
    }

    /// The tier's lowercase name.
    pub fn name(self) -> (s: &'static str)
        ensures
            self == Profile::Low ==> s@ == "low"@,
            self == Profile::Balanced ==> s@ == "balanced"@,
            self == Profile::High ==> s@ == "high"@,
    {
        match self {
            Profile::Low => "low",
            Profile::Balanced => "balanced",
            Profile::High => "high",
        }
    }
}

/// Where `kib` KiB of RAM stands against the tier thresholds
/// (2 GiB = 2097152 KiB, 16 GiB = 16777216 KiB).
pub fn ram_class_kib(kib: u64) -> (c: RamClass)
    ensures
        c == (if kib <= 2097152 {
            RamClass::Small
        } else if kib >= 16777216 {
            RamClass::Large
        } else {
            RamClass::Medium
        }),
{
    if kib <= 2097152 {
        RamClass::Small
    } else if kib >= 16777216 {
        RamClass::Large
    } else {
        RamClass::Medium
    }
}

/// Classifies a machine from its core count and, where known, its RAM.
pub fn classify(cores: usize, ram: Option<RamClass>) -> (p: Profile)
    ensures
        p == classify_spec(cores, ram),
{
    let small = match ram {
        Some(RamClass::Small) => true,
        _ => false,
    };
    if cores <= 2 || small {
        return Profile::Low;
    }
    let ample = match ram {
        None => true,
        Some(RamClass::Large) => true,
        _ => false,
    };
    if cores >= 8 && ample {
        Profile::High
    } else {
        Profile::Balanced
    }
}

/// A tier never asks for zero worker threads, and never for more threads than
/// the machine has cores (counting a reported zero as one).
pub proof fn lemma_params_threads_bounded(p: Profile, cores: usize)
    ensures
        1 <= params_spec(p, cores).threads,
        params_spec(p, cores).threads <= if cores == 0 {
            1
        } else {
            cores as int
        },
{
}

/// Higher tiers get larger buffers, deeper queues and higher compression
/// levels, and never fewer threads.
pub proof fn lemma_params_monotone(cores: usize)
    ensures
        params_spec(Profile::Low, cores).copy_buffer < params_spec(Profile::Balanced, cores).copy_buffer,
        params_spec(Profile::Balanced, cores).copy_buffer < params_spec(Profile::High, cores).copy_buffer,
        params_spec(Profile::Low, cores).uring_queue_depth < params_spec(Profile::Balanced, cores).uring_queue_depth,
        params_spec(Profile::Balanced, cores).uring_queue_depth < params_spec(Profile::High, cores).uring_queue_depth,
        params_spec(Profile::Low, cores).zstd_level < params_spec(Profile::Balanced, cores).zstd_level,
        params_spec(Profile::Balanced, cores).zstd_level < params_spec(Profile::High, cores).zstd_level,
        params_spec(Profile::Low, cores).threads <= params_spec(Profile::Balanced, cores).threads,
        params_spec(Profile::Balanced, cores).threads == params_spec(Profile::High, cores).threads,
{
}

} // verus!
