//! Writing files past the kernel's client, with a way back to it.

use crate::nfs::NFS_BYPASS_MAX_SIZE;
use crate::text;
use vstd::prelude::*;

verus! {

/// Whether files may be written past the kernel's client: unless the setting says
/// `0`.
pub fn bypass_wanted(setting: &Option<String>) -> (yes: bool)
    ensures
        yes == !(setting matches Some(s) && s@ == "0"@),
{
    match setting {
        Some(s) => !text::same_text(s, "0"),
        None => true,
    }
}

/// A step on the way of a file. Everything but the last two is done with a client
/// of the pool.
#[derive(Debug, Clone, Copy, PartialEq, Eq, Structural)]
pub enum PoolStep {
    /// Find the handle of the file's directory.
    Resolve { again: bool },
    /// Write the file.
    Write { again: bool },
    /// Set up the session anew.
    Recover,
    /// The file is written.
    Written,
    /// The file is left to the kernel's client.
    LeaveIt,
}

/// The first step: small files go to the pool where there is one.
pub fn write_file_with_pool(has_pool: bool, len: usize) -> (step: PoolStep)
    ensures
        step == (if has_pool && len <= NFS_BYPASS_MAX_SIZE {
            PoolStep::Resolve { again: false }
        } else {
            PoolStep::LeaveIt
        }),
{
    if has_pool && len as u64 <= NFS_BYPASS_MAX_SIZE {
        PoolStep::Resolve { again: false }
    } else {
        PoolStep::LeaveIt
    }
}

/// What follows a step that went well or did not.
pub open spec fn follows(step: PoolStep, fine: bool) -> PoolStep {
    match step {
        PoolStep::Resolve { again } => if fine {
            PoolStep::Write { again }
        } else {
            PoolStep::LeaveIt
        },
        PoolStep::Write { again } => if fine {
            PoolStep::Written
        } else if again {
            PoolStep::LeaveIt
        } else {
            PoolStep::Recover
        },
        PoolStep::Recover => if fine {
            PoolStep::Resolve { again: true }
        } else {
            PoolStep::LeaveIt
        },
        PoolStep::Written => PoolStep::Written,
        PoolStep::LeaveIt => PoolStep::LeaveIt,
    }
}

/// How many steps are left at most.
pub open spec fn steps_left(step: PoolStep) -> nat {
    match step {
        PoolStep::Resolve { again } => if again {
            2
        } else {
            5
        },
        PoolStep::Write { again } => if again {
            1
        } else {
            4
        },
        PoolStep::Recover => 3,
        PoolStep::Written => 0,
        PoolStep::LeaveIt => 0,
    }
}

/// What follows a step that went well or did not: a failed write is tried once
/// more with a new session.
pub fn next_pool_step(step: PoolStep, fine: bool) -> (next: PoolStep)
    ensures
        next == follows(step, fine),
{
    match step {
        PoolStep::Resolve { again } => if fine {
            PoolStep::Write { again }
        } else {
            PoolStep::LeaveIt
        },
        PoolStep::Write { again } => if fine {
            PoolStep::Written
        } else if again {
            PoolStep::LeaveIt
        } else {
            PoolStep::Recover
        },
        PoolStep::Recover => if fine {
            PoolStep::Resolve { again: true }
        } else {
            PoolStep::LeaveIt
        },
        PoolStep::Written => PoolStep::Written,
        PoolStep::LeaveIt => PoolStep::LeaveIt,
    }
}

/// Every file is written or left to the kernel's client after a few steps, and it
/// counts as written only after a write that went well.
pub proof fn files_get_settled(step: PoolStep, fine: bool)
    ensures
        steps_left(step) > 0 ==> steps_left(follows(step, fine)) < steps_left(step),
        follows(step, fine) == PoolStep::Written ==> step == PoolStep::Written || (step is Write
            && fine),
{
}

/// A file is written where its directory's handle was found, and taken up again once,
/// with a new session, where that failed; it is left to an ordinary copy where anything
/// else fails.
pub proof fn pool_tries_twice(step: PoolStep, fine: bool)
    ensures
        ({
            let next = follows(step, fine);
            &&& next matches PoolStep::Write { again } ==> fine && step == (PoolStep::Resolve {
                again,
            })
            &&& step matches PoolStep::Resolve { again } ==> fine ==> next == (PoolStep::Write {
                again,
            })
            &&& next is Resolve <==> step == PoolStep::Recover && fine
            &&& next matches PoolStep::Resolve { again } ==> again
            &&& next == PoolStep::Recover <==> step == (PoolStep::Write { again: false }) && !fine
            &&& next == PoolStep::Written <==> step == PoolStep::Written || step is Write && fine
            &&& next == PoolStep::LeaveIt <==> step == PoolStep::LeaveIt || !fine && (step
                is Resolve || step is Recover || step == (PoolStep::Write { again: true }))
        }),
{
}

/// The bypass is tried unless it was switched off, with a pool and for files that are small
/// enough.
pub proof fn bypass_is_for_small_files(
    setting: &Option<String>,
    wanted: bool,
    has_pool: bool,
    len: usize,
    step: PoolStep,
)
    requires
        call_ensures(bypass_wanted, (setting,), wanted),
        call_ensures(write_file_with_pool, (has_pool, len), step),
    ensures
        !wanted <==> *setting is Some && setting->0@ == seq!['0'],
        step == PoolStep::LeaveIt <==> !has_pool || len > 16777216,
        step != PoolStep::LeaveIt ==> step == (PoolStep::Resolve { again: false }),
{
    reveal_strlit("0");
    assert("0"@ =~= seq!['0']);
}

} // verus!
