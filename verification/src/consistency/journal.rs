//! Replacing a file in one step: which system call to try, and what to do when
//! it is refused.

use crate::errno::{EEXIST, EINVAL, ENOSYS, ENOTTY, EOPNOTSUPP};
use crate::error::IoKind;
use vstd::prelude::*;

verus! {

/// `renameat2`: fail where the new name exists.
pub const RENAME_NOREPLACE: u32 = 1;

/// `renameat2`: exchange the two names.
pub const RENAME_EXCHANGE: u32 = 2;

/// What to do next on the way to renaming `src` to `dst`. Some steps put the old
/// `dst` aside under a third name.
#[derive(Debug, Clone, Copy, PartialEq, Eq, Structural)]
pub enum RenameStep {
    /// Call `renameat2` with the flags.
    Renameat2,
    /// Make the third name a copy of `dst` that shares its blocks.
    Reflink,
    /// Rename `dst` to the third name.
    MoveAside,
    /// Rename `src` to `dst`; the third name has the old contents, and `dst` does
    /// too where it was copied.
    Replace { copied: bool },
    /// Rename the third name to `src`.
    MoveBack,
    /// Remove the third name, then fail.
    RemoveAside,
    /// Rename the third name back to `dst`, then fail.
    Restore,
    /// Rename `src` to `dst`.
    Plain,
    /// It is done.
    Done,
    /// It failed, with the error of the last step that was not part of going
    /// back.
    Failed,
}

/// How a step came out.
#[derive(Debug, Clone, Copy, PartialEq, Eq, Structural)]
pub enum StepResult {
    Fine,
    Wrong { errno: i32, kind: IoKind },
}

/// Whether a rename wants more than the plain call gives.
pub open spec fn wants_flags(flags: u32) -> bool {
    flags & RENAME_EXCHANGE != 0 || flags & RENAME_NOREPLACE != 0
}

/// Whether an error says that the flags are not supported.
pub open spec fn unsupported(errno: i32) -> bool {
    errno == EINVAL || errno == EOPNOTSUPP || errno == ENOSYS
}

/// The first step.
pub open spec fn first_step(flags: u32) -> RenameStep {
    if wants_flags(flags) {
        RenameStep::Renameat2
    } else {
        RenameStep::Plain
    }
}

/// The step after `step` came out as `r`.
///
/// An exchange that the kernel refuses is made of three renames, with a copy in
/// safety first where the file system can share blocks. A rename that must not
/// replace fails where the target exists; where the kernel does not know the
/// flag, it becomes a plain rename.
pub open spec fn step_after(step: RenameStep, flags: u32, r: StepResult) -> RenameStep {
    match (step, r) {
        (RenameStep::Renameat2, StepResult::Fine) => RenameStep::Done,
        (RenameStep::Renameat2, StepResult::Wrong { errno, .. }) => if flags & RENAME_EXCHANGE != 0 {
            RenameStep::Reflink
        } else if flags & RENAME_NOREPLACE != 0 && errno == EEXIST {
            RenameStep::Failed
        } else if unsupported(errno) {
            RenameStep::Plain
        } else {
            RenameStep::Failed
        },
        (RenameStep::Reflink, StepResult::Fine) => RenameStep::Replace { copied: true },
        (RenameStep::Reflink, StepResult::Wrong { .. }) => RenameStep::MoveAside,
        (RenameStep::MoveAside, StepResult::Fine) => RenameStep::Replace { copied: false },
        (RenameStep::MoveAside, StepResult::Wrong { kind, .. }) => if kind == IoKind::NotFound {
            RenameStep::Plain
        } else {
            RenameStep::Failed
        },
        (RenameStep::Replace { .. }, StepResult::Fine) => RenameStep::MoveBack,
        (RenameStep::Replace { copied }, StepResult::Wrong { .. }) => if copied {
            RenameStep::RemoveAside
        } else {
            RenameStep::Restore
        },
        (RenameStep::MoveBack, StepResult::Fine) => RenameStep::Done,
        (RenameStep::MoveBack, StepResult::Wrong { .. }) => RenameStep::Failed,
        (RenameStep::RemoveAside, _) => RenameStep::Failed,
        (RenameStep::Restore, _) => RenameStep::Failed,
        (RenameStep::Plain, StepResult::Fine) => RenameStep::Done,
        (RenameStep::Plain, StepResult::Wrong { .. }) => RenameStep::Failed,
        (RenameStep::Done, _) => RenameStep::Done,
        (RenameStep::Failed, _) => RenameStep::Failed,
    }
}

/// The first step of renaming a file with `flags`.
pub fn atomic_rename(flags: Option<u32>) -> (step: RenameStep)
    ensures
        step == first_step(
            match flags {
                Some(f) => f,
                None => 0,
            },
        ),
{
    let f: u32 = match flags {
        Some(f) => f,
        None => 0,
    };
    assert(0u32 & 2 == 0 && 0u32 & 1 == 0) by (bit_vector);
    if f & RENAME_EXCHANGE != 0 || f & RENAME_NOREPLACE != 0 {
        RenameStep::Renameat2
    } else {
        RenameStep::Plain
    }
}

/// The step after `step` came out as `r`.
pub fn next_step(step: RenameStep, flags: u32, r: StepResult) -> (next: RenameStep)
    ensures
        next == step_after(step, flags, r),
{
    match r {
        StepResult::Fine => match step {
            RenameStep::Renameat2 => RenameStep::Done,
            RenameStep::Reflink => RenameStep::Replace { copied: true },
            RenameStep::MoveAside => RenameStep::Replace { copied: false },
            RenameStep::Replace { .. } => RenameStep::MoveBack,
            RenameStep::MoveBack => RenameStep::Done,
            RenameStep::RemoveAside => RenameStep::Failed,
            RenameStep::Restore => RenameStep::Failed,
            RenameStep::Plain => RenameStep::Done,
            RenameStep::Done => RenameStep::Done,
            RenameStep::Failed => RenameStep::Failed,
        },
        StepResult::Wrong { errno, kind } => match step {
            RenameStep::Renameat2 => {
                if flags & RENAME_EXCHANGE != 0 {
                    return RenameStep::Reflink;
                }
                if flags & RENAME_NOREPLACE != 0 && errno == EEXIST {
                    return RenameStep::Failed;
                }
                if errno == EINVAL || errno == EOPNOTSUPP || errno == ENOSYS {
                    RenameStep::Plain
                } else {
                    RenameStep::Failed
                }
            },
            RenameStep::Reflink => RenameStep::MoveAside,
            RenameStep::MoveAside => {
                if kind == IoKind::NotFound {
                    RenameStep::Plain
                } else {
                    RenameStep::Failed
                }
            },
            RenameStep::Replace { copied } => {
                if copied {
                    RenameStep::RemoveAside
                } else {
                    RenameStep::Restore
                }
            },
            RenameStep::MoveBack => RenameStep::Failed,
            RenameStep::RemoveAside => RenameStep::Failed,
            RenameStep::Restore => RenameStep::Failed,
            RenameStep::Plain => RenameStep::Failed,
            RenameStep::Done => RenameStep::Done,
            RenameStep::Failed => RenameStep::Failed,
        },
    }
}

/// What the three names stand for: some contents, or nothing.
pub ghost struct Names {
    pub src: Option<int>,
    pub dst: Option<int>,
    pub aside: Option<int>,
}

/// The names after a step that succeeds, in a call that exchanges.
pub open spec fn stepped(step: RenameStep, n: Names) -> Names {
    match step {
        RenameStep::Renameat2 => Names { src: n.dst, dst: n.src, ..n },
        RenameStep::Reflink => Names { aside: n.dst, ..n },
        RenameStep::MoveAside => Names { aside: n.dst, dst: None, ..n },
        RenameStep::Replace { .. } => Names { dst: n.src, src: None, ..n },
        RenameStep::MoveBack => Names { src: n.aside, aside: None, ..n },
        RenameStep::RemoveAside => Names { aside: None, ..n },
        RenameStep::Restore => Names { dst: n.aside, aside: None, ..n },
        RenameStep::Plain => Names { dst: n.src, src: None, ..n },
        _ => n,
    }
}

/// What the names stand for when a step is due, in a call that exchanges the
/// contents `a` of `src` with the contents `b` of `dst`.
pub open spec fn on_the_way(step: RenameStep, n: Names, a: int, b: int) -> bool {
    let before = Names { src: Some(a), dst: Some(b), aside: None };
    match step {
        RenameStep::Renameat2 | RenameStep::Reflink | RenameStep::MoveAside => n == before,
        RenameStep::Replace { copied } => n == (Names {
            dst: if copied {
                Some(b)
            } else {
                None
            },
            aside: Some(b),
            ..before
        }),
        RenameStep::MoveBack => n == (Names { src: None, dst: Some(a), aside: Some(b) }),
        RenameStep::RemoveAside => n == (Names { aside: Some(b), ..before }),
        RenameStep::Restore => n == (Names { dst: None, aside: Some(b), ..before }),
        RenameStep::Done => n == (Names { src: Some(b), dst: Some(a), aside: None }),
        RenameStep::Plain => false,
        RenameStep::Failed => true,
    }
}

/// An exchange of two files that are both there either comes to both being
/// exchanged, whichever steps it takes, or fails; and no step loses the contents
/// of either file.
pub proof fn exchange_keeps_both(
    step: RenameStep,
    flags: u32,
    r: StepResult,
    n: Names,
    a: int,
    b: int,
)
    requires
        flags & RENAME_EXCHANGE != 0,
        step != RenameStep::Failed,
        on_the_way(step, n, a, b),
        step == RenameStep::MoveAside ==> !(r matches StepResult::Wrong { kind, .. } && kind
            == IoKind::NotFound),
    ensures
        ({
            let after = if r is Fine {
                stepped(step, n)
            } else {
                n
            };
            let next = step_after(step, flags, r);
            &&& on_the_way(next, after, a, b)
            &&& after.src == Some(a) || after.dst == Some(a)
            &&& after.src == Some(b) || after.dst == Some(b) || after.aside == Some(b)
        }),
{
}

/// Going back puts everything where it was.
pub proof fn going_back_restores(n: Names, a: int, b: int)
    ensures
        on_the_way(RenameStep::RemoveAside, n, a, b) ==> stepped(RenameStep::RemoveAside, n) == (
        Names { src: Some(a), dst: Some(b), aside: None }),
        on_the_way(RenameStep::Restore, n, a, b) ==> stepped(RenameStep::Restore, n) == (Names {
            src: Some(a),
            dst: Some(b),
            aside: None,
        }),
{
}

/// A rename that must not replace gives up where the target exists.
pub proof fn noreplace_never_replaces(flags: u32, kind: IoKind)
    requires
        flags & RENAME_EXCHANGE == 0,
        flags & RENAME_NOREPLACE != 0,
    ensures
        step_after(RenameStep::Renameat2, flags, StepResult::Wrong { errno: EEXIST, kind })
            == RenameStep::Failed,
{
}

/// What to do next on the way to committing a temporary file in place of its
/// target.
#[derive(Debug, Clone, Copy, PartialEq, Eq, Structural)]
pub enum CommitStep {
    /// The contents are exchanged: remove the temporary file.
    RemoveTemp,
    /// Rename the temporary file over the target; `surprised` says that the
    /// exchange failed for an unusual reason.
    Rename { surprised: bool },
}

/// What to do after trying to exchange the contents of a temporary file and its
/// target: `result` is `None` where one of them could not be opened, and the
/// error number where the exchange failed.
pub fn atomic_commit(result: Option<Option<i32>>) -> (step: CommitStep)
    ensures
        step == (match result {
            None => CommitStep::Rename { surprised: false },
            Some(None) => CommitStep::RemoveTemp,
            Some(Some(errno)) => CommitStep::Rename {
                surprised: errno != EOPNOTSUPP && errno != ENOTTY && errno != EINVAL,
            },
        }),
{
    match result {
        None => CommitStep::Rename { surprised: false },
        Some(None) => CommitStep::RemoveTemp,
        Some(Some(errno)) => CommitStep::Rename {
            surprised: errno != EOPNOTSUPP && errno != ENOTTY && errno != EINVAL,
        },
    }
}

/// Only a rename that is to exchange or not to replace asks for flags, and only a refusal
/// of the flags themselves lets it go on without them.
pub proof fn flags_are_asked_for(flags: u32, errno: i32)
    ensures
        first_step(flags) == RenameStep::Renameat2 <==> flags & 1 != 0 || flags & 2 != 0,
        first_step(flags) == RenameStep::Plain <==> flags & 1 == 0 && flags & 2 == 0,
        unsupported(errno) <==> errno == 22 || errno == 95 || errno == 38,
{
}

/// Every step of a rename has the steps that it can lead to: what was fine goes on, what
/// went wrong is taken back where anything was moved, and a rename ends in one way or the
/// other.
pub proof fn rename_steps_lead_on(step: RenameStep, flags: u32, r: StepResult)
    ensures
        ({
            let next = step_after(step, flags, r);
            let fine = r is Fine;
            let exchange = flags & 2 != 0;
            let keep = flags & 1 != 0;
            let errno = r->errno;
            let refused = errno == 22 || errno == 95 || errno == 38;
            &&& next != RenameStep::Renameat2
            &&& next == RenameStep::Reflink <==> step == RenameStep::Renameat2 && !fine && exchange
            &&& next == RenameStep::MoveAside <==> step == RenameStep::Reflink && !fine
            &&& next == (RenameStep::Replace { copied: true }) <==> step == RenameStep::Reflink
                && fine
            &&& next == (RenameStep::Replace { copied: false }) <==> step == RenameStep::MoveAside
                && fine
            &&& next == RenameStep::MoveBack <==> step is Replace && fine
            &&& next == RenameStep::RemoveAside <==> step == (RenameStep::Replace { copied: true })
                && !fine
            &&& next == RenameStep::Restore <==> step == (RenameStep::Replace { copied: false })
                && !fine
            &&& next == RenameStep::Plain <==> !fine && (step == RenameStep::Renameat2 && !exchange
                && refused || step == RenameStep::MoveAside && r->kind == IoKind::NotFound)
            &&& next == RenameStep::Done <==> step == RenameStep::Done || fine && (step
                == RenameStep::Renameat2 || step == RenameStep::MoveBack || step
                == RenameStep::Plain)
            &&& next == RenameStep::Failed <==> step == RenameStep::Failed || step
                == RenameStep::RemoveAside || step == RenameStep::Restore || !fine && (step
                == RenameStep::MoveBack || step == RenameStep::Plain || step
                == RenameStep::MoveAside && r->kind != IoKind::NotFound || step
                == RenameStep::Renameat2 && !exchange && !refused)
        }),
{
}

/// A commit that was carried out leaves only the temporary file to remove; else the rename
/// does it, and only an error that says no more than that it cannot is no surprise.
pub proof fn commit_falls_back_to_rename(result: Option<Option<i32>>, step: CommitStep)
    requires
        call_ensures(atomic_commit, (result,), step),
    ensures
        step == CommitStep::RemoveTemp <==> result == Some(None::<i32>),
        result is None ==> step == (CommitStep::Rename { surprised: false }),
        result matches Some(Some(e)) ==> step == (CommitStep::Rename {
            surprised: !(e == 95 || e == 25 || e == 22),
        }),
{
}

} // verus!
