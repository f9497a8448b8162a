//! The library's errors, and how a failed copy is classified.

use crate::text;
use vstd::prelude::*;
use vstd::string::StringExecFns;

verus! {

/// Classification of copy errors for retry and fallback decisions.
#[derive(Debug, Clone, Copy, PartialEq, Eq, Structural)]
pub enum CopyErrorKind {
    /// The source file no longer exists: skip it.
    SourceNotFound,
    /// The target or its parent does not exist: create or repair it.
    TargetNotFound,
    /// The operation exceeded its deadline.
    Timeout,
    /// A temporary issue: retry with backoff.
    Transient,
    /// A permanent failure: do not retry.
    Permanent,
}

/// What sort of I/O failure happened, as far as decisions depend on it.
#[derive(Debug, Clone, Copy, PartialEq, Eq, Structural)]
pub enum IoKind {
    NotFound,
    PermissionDenied,
    AlreadyExists,
    TimedOut,
    WouldBlock,
    Interrupted,
    Unsupported,
    InvalidInput,
    InvalidData,
    UnexpectedEof,
    Other,
}

/// What went wrong.
#[derive(Debug, Clone)]
pub enum FxcpError {
    Config(String),
    /// An I/O failure: its kind, the operating system's error number where there
    /// is one, and a message.
    Io { kind: IoKind, errno: Option<i32>, message: String },
    /// A failed system call, by its error number.
    System(i32),
    Security(String),
    Utf8(String),
    Join(String),
    Json(String),
    Versioning(String),
    Nul(String),
    IouPush(String),
    Traced { correlation_id: u64, message: String },
    MemoryExhausted(String),
}

impl FxcpError {
    /// The classification of an error, as a rule: a missing path is the
    /// target's; denied permission and broken containment are permanent; an
    /// expired deadline is a timeout; everything else may pass.
    pub open spec fn kind_of(self) -> CopyErrorKind {
        match self {
            FxcpError::Io { kind: IoKind::NotFound, .. } => CopyErrorKind::TargetNotFound,
            FxcpError::Io { kind: IoKind::PermissionDenied, .. } => CopyErrorKind::Permanent,
            FxcpError::Io { kind: IoKind::TimedOut, .. } => CopyErrorKind::Timeout,
            FxcpError::Security(_) => CopyErrorKind::Permanent,
            _ => CopyErrorKind::Transient,
        }
    }

    /// The sentence for an error; `system` is the text for the error number of a
    /// failed system call.
    pub open spec fn sentence(self, system: Seq<char>) -> Seq<char> {
        match self {
            FxcpError::Config(m) => "Config: "@ + m@,
            FxcpError::Io { message, .. } => "IO: "@ + message@,
            FxcpError::System(_) => "System: "@ + system,
            FxcpError::Security(m) => "Security: "@ + m@,
            FxcpError::Utf8(m) => "Encoding: "@ + m@,
            FxcpError::Join(m) => "Join: "@ + m@,
            FxcpError::Json(m) => "JSON: "@ + m@,
            FxcpError::Versioning(m) => "Versioning: "@ + m@,
            FxcpError::Nul(m) => "CString Nul: "@ + m@,
            FxcpError::IouPush(m) => "IOUring Push: "@ + m@,
            FxcpError::Traced { correlation_id, message } => "Tracing Error ("@ + text::decimal(
                correlation_id as nat,
            ) + "): "@ + message@,
            FxcpError::MemoryExhausted(m) => "Memory Limit Exhausted: "@ + m@,
        }
    }

    /// The sentence that tells a user what went wrong; `system` is the text for
    /// the error number of a failed system call.
    pub fn message(&self, system: &str) -> (out: String)
        ensures
            out@ == self.sentence(system@),
    {
        match self {
            FxcpError::Config(m) => text::concat2("Config: ", m),
            FxcpError::Io { message, .. } => text::concat2("IO: ", message),
            FxcpError::System(_) => text::concat2("System: ", system),
            FxcpError::Security(m) => text::concat2("Security: ", m),
            FxcpError::Utf8(m) => text::concat2("Encoding: ", m),
            FxcpError::Join(m) => text::concat2("Join: ", m),
            FxcpError::Json(m) => text::concat2("JSON: ", m),
            FxcpError::Versioning(m) => text::concat2("Versioning: ", m),
            FxcpError::Nul(m) => text::concat2("CString Nul: ", m),
            FxcpError::IouPush(m) => text::concat2("IOUring Push: ", m),
            FxcpError::Traced { correlation_id, message } => {
                let mut out = text::concat3(
                    "Tracing Error (",
                    &text::decimal_of(*correlation_id),
                    "): ",
                );
                out.append(message);
                out
            },
            FxcpError::MemoryExhausted(m) => text::concat2("Memory Limit Exhausted: ", m),
        }
    }

    /// The classification of this error.
    pub fn copy_error_kind(&self) -> (k: CopyErrorKind)
        ensures
            k == self.kind_of(),
    {
        match self {
            FxcpError::Io { kind, .. } => match kind {
                IoKind::NotFound => CopyErrorKind::TargetNotFound,
                IoKind::PermissionDenied => CopyErrorKind::Permanent,
                IoKind::TimedOut => CopyErrorKind::Timeout,
                _ => CopyErrorKind::Transient,
            },
            FxcpError::Security(_) => CopyErrorKind::Permanent,
            _ => CopyErrorKind::Transient,
        }
    }
}

/// What is missing, what took too long and what can never be done are told apart; anything
/// else may be tried again.
pub proof fn errors_tell_what_to_do(e: FxcpError)
    ensures
        ({
            let k = e.kind_of();
            let missing = e is Io && e->kind == IoKind::NotFound;
            let denied = e is Io && e->kind == IoKind::PermissionDenied;
            let late = e is Io && e->kind == IoKind::TimedOut;
            &&& k == CopyErrorKind::TargetNotFound <==> missing
            &&& k == CopyErrorKind::Permanent <==> denied || e is Security
            &&& k == CopyErrorKind::Timeout <==> late
            &&& k == CopyErrorKind::Transient <==> !missing && !denied && !late && !(e is Security)
        }),
{
}

/// Every error is told by its kind and what is known of it.
pub proof fn errors_are_told(e: FxcpError, system: Seq<char>)
    ensures
        e matches FxcpError::Config(m) ==> e.sentence(system) == "Config: "@ + m@,
        e matches FxcpError::Io { message, .. } ==> e.sentence(system) == "IO: "@ + message@,
        e is System ==> e.sentence(system) == "System: "@ + system,
        e matches FxcpError::Security(m) ==> e.sentence(system) == "Security: "@ + m@,
        e matches FxcpError::Utf8(m) ==> e.sentence(system) == "Encoding: "@ + m@,
        e matches FxcpError::Join(m) ==> e.sentence(system) == "Join: "@ + m@,
        e matches FxcpError::Json(m) ==> e.sentence(system) == "JSON: "@ + m@,
        e matches FxcpError::Versioning(m) ==> e.sentence(system) == "Versioning: "@ + m@,
        e matches FxcpError::Nul(m) ==> e.sentence(system) == "CString Nul: "@ + m@,
        e matches FxcpError::IouPush(m) ==> e.sentence(system) == "IOUring Push: "@ + m@,
        e matches FxcpError::Traced { correlation_id, message } ==> e.sentence(system)
            == "Tracing Error ("@ + text::decimal(correlation_id as nat) + "): "@ + message@,
        e matches FxcpError::MemoryExhausted(m) ==> e.sentence(system)
            == "Memory Limit Exhausted: "@ + m@,
{
}

} // verus!
