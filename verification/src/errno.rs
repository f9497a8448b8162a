//! Numbers by which the kernel names errors.

use vstd::prelude::*;

verus! {

/// Operation not permitted.
pub const EPERM: i32 = 1;

/// Interrupted.
pub const EINTR: i32 = 4;

/// No such device or address: seeking found no data up to the end.
pub const ENXIO: i32 = 6;

/// Permission denied.
pub const EACCES: i32 = 13;

/// File exists.
pub const EEXIST: i32 = 17;

/// Another file system.
pub const EXDEV: i32 = 18;

/// Invalid argument.
pub const EINVAL: i32 = 22;

/// The device does not know the request.
pub const ENOTTY: i32 = 25;

/// The kernel does not know the call.
pub const ENOSYS: i32 = 38;

/// Not supported.
pub const EOPNOTSUPP: i32 = 95;

/// Cancelled.
pub const ECANCELED: i32 = 125;

} // verus!
