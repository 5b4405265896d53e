//! How long the host waits for displays, and how often it looks for them.

use vstd::prelude::*;

verus! {

/// How long a display that is plugged out may take to go away, in milliseconds.
pub const REMOVAL_LIMIT_MS: u64 = 2_000;

/// How long a display that is plugged in may take to appear, in milliseconds.
pub const APPEARANCE_LIMIT_MS: u64 = 10_000;

/// How long a display may take to be configured, and to show its mode after that, in
/// milliseconds.
pub const CONFIGURATION_LIMIT_MS: u64 = 5_000;

/// No limit: whatever it takes.
pub const NO_LIMIT_MS: u64 = u64::MAX;

/// The time between two looks at displays that change, in milliseconds.
pub const LOOK_INTERVAL_MS: u64 = 100;

/// The time between two tries to capture a display again, in milliseconds.
pub const REOPEN_INTERVAL_MS: u64 = 1_000;

/// What comes of a look.
#[derive(Debug, Clone, Copy, PartialEq, Eq, Structural)]
pub enum WaitStep {
    /// What is waited for is there, at this index.
    Found(usize),
    /// It took too long.
    GiveUp,
    /// There is to be another look.
    Retry,
}

/// What comes of a look after some time: what is found counts even where the time is up.
pub fn wait_step(waited: u64, limit: u64, found: Option<usize>) -> (step: WaitStep)
    ensures
        step == match found {
            Some(index) => WaitStep::Found(index),
            None => if waited >= limit {
                WaitStep::GiveUp
            } else {
                WaitStep::Retry
            },
        },
{
    match found {
        Some(index) => WaitStep::Found(index),
        None => if waited >= limit {
            WaitStep::GiveUp
        } else {
            WaitStep::Retry
        },
    }
}

/// The limits and intervals, in milliseconds.
pub proof fn law_waiting_times()
    ensures
        REMOVAL_LIMIT_MS == 2_000,
        APPEARANCE_LIMIT_MS == 10_000,
        CONFIGURATION_LIMIT_MS == 5_000,
        NO_LIMIT_MS == 0xffff_ffff_ffff_ffff,
        LOOK_INTERVAL_MS == 100,
        REOPEN_INTERVAL_MS == 1_000,
{
}

} // verus!
