//! Speaking NFSv4.2 to the server directly: the wire format, the compound
//! calls and their replies, what a session keeps, and which mounted file
//! systems allow it.

use crate::text;
use vstd::prelude::*;
use vstd::string::StringExecFns;

pub mod client;
pub mod mount;
pub mod pool;
pub mod rpc;
pub mod xdr;

verus! {

/// The largest file that goes to the server in one compound call (16 MiB).
pub const NFS_BYPASS_MAX_SIZE: u64 = 16 * 1024 * 1024;

/// What can go wrong on the way to the server and back.
#[derive(Debug)]
pub enum NfsError {
    /// The TCP connection could not be made or broke; the text is the system's.
    ConnectionFailed(String),
    /// The session could not be set up, or is gone.
    SessionFailed(String),
    /// The server no longer knows the handle of the file.
    StaleHandle { path: String },
    /// The server answered with an NFSv4 status other than OK.
    Nfs4Error { code: u32, message: String },
    /// The reply is not well-formed XDR.
    XdrDecode(String),
    /// The RPC layer refused the call.
    RpcError(String),
    /// No answer within so many milliseconds.
    Timeout(u64),
    /// The file does not fit into one compound call.
    FileTooLarge { size: u64, max: u64 },
    /// The mount wants Kerberos.
    KerberosRequired,
}

/// An `NfsError`, its texts as sequences of characters.
pub ghost enum NfsFault {
    ConnectionFailed(Seq<char>),
    SessionFailed(Seq<char>),
    StaleHandle(Seq<char>),
    Nfs4Error(u32, Seq<char>),
    XdrDecode(Seq<char>),
    RpcError(Seq<char>),
    Timeout(u64),
    FileTooLarge(u64, u64),
    KerberosRequired,
}

impl View for NfsError {
    type V = NfsFault;

    open spec fn view(&self) -> NfsFault {
        match *self {
            NfsError::ConnectionFailed(s) => NfsFault::ConnectionFailed(s@),
            NfsError::SessionFailed(s) => NfsFault::SessionFailed(s@),
            NfsError::StaleHandle { path } => NfsFault::StaleHandle(path@),
            NfsError::Nfs4Error { code, message } => NfsFault::Nfs4Error(code, message@),
            NfsError::XdrDecode(s) => NfsFault::XdrDecode(s@),
            NfsError::RpcError(s) => NfsFault::RpcError(s@),
            NfsError::Timeout(ms) => NfsFault::Timeout(ms),
            NfsError::FileTooLarge { size, max } => NfsFault::FileTooLarge(size, max),
            NfsError::KerberosRequired => NfsFault::KerberosRequired,
        }
    }
}

/// How a span of whole milliseconds reads: in seconds from one second on, with
/// a fraction that has no trailing zeros.
pub open spec fn span_text(ms: u64) -> Seq<char> {
    let tenths = ms % 1000 / 100;
    let hundredths = ms % 1000 / 10;
    if ms == 0 {
        "0ns"@
    } else if ms < 1000 {
        text::decimal(ms as nat) + "ms"@
    } else if ms % 1000 == 0 {
        text::decimal((ms / 1000) as nat) + "s"@
    } else if ms % 100 == 0 {
        text::decimal((ms / 1000) as nat) + "."@ + text::decimal(tenths as nat) + "s"@
    } else if ms % 10 == 0 {
        text::decimal((ms / 1000) as nat) + (if hundredths < 10 {
            ".0"@
        } else {
            "."@
        }) + text::decimal(hundredths as nat) + "s"@
    } else {
        text::decimal((ms / 1000) as nat) + (if ms % 1000 < 10 {
            ".00"@
        } else if ms % 1000 < 100 {
            ".0"@
        } else {
            "."@
        }) + text::decimal((ms % 1000) as nat) + "s"@
    }
}

fn span_of(ms: u64) -> (out: String)
    ensures
        out@ == span_text(ms),
{
    if ms == 0 {
        return "0ns".to_owned();
    }
    if ms < 1000 {
        return text::concat2(&text::decimal_of(ms), "ms");
    }
    let seconds = text::decimal_of(ms / 1000);
    let rest: u64 = ms % 1000;
    if rest == 0 {
        return text::concat2(&seconds, "s");
    }
    let (dot, digits) = if ms % 100 == 0 {
        (".", rest / 100)
    } else if ms % 10 == 0 {
        if rest / 10 < 10 {
            (".0", rest / 10)
        } else {
            (".", rest / 10)
        }
    } else if rest < 10 {
        (".00", rest)
    } else if rest < 100 {
        (".0", rest)
    } else {
        (".", rest)
    };
    let mut out = text::concat3(&seconds, dot, &text::decimal_of(digits));
    out.append("s");
    out
}

/// The sentence that tells a user what went wrong.
pub open spec fn fault_text(f: NfsFault) -> Seq<char> {
    match f {
        NfsFault::ConnectionFailed(s) => "TCP connection failed: "@ + s,
        NfsFault::SessionFailed(s) => "Session establishment failed: "@ + s,
        NfsFault::StaleHandle(path) => "Stale file handle for "@ + path,
        NfsFault::Nfs4Error(code, message) => "NFS4 error "@ + text::decimal(code as nat) + ": "@
            + message,
        NfsFault::XdrDecode(s) => "XDR decode error: "@ + s,
        NfsFault::RpcError(s) => "RPC error: "@ + s,
        NfsFault::Timeout(ms) => "Timeout after "@ + span_text(ms),
        NfsFault::FileTooLarge(size, max) => "File too large for bypass: "@ + text::decimal(
            size as nat,
        ) + " > "@ + text::decimal(max as nat),
        NfsFault::KerberosRequired => "Kerberos auth required — bypass unavailable"@,
    }
}

impl NfsError {
    /// The sentence that tells a user what went wrong.
    pub fn message(&self) -> (out: String)
        ensures
            out@ == fault_text(self@),
    {
        match self {
            NfsError::ConnectionFailed(s) => text::concat2("TCP connection failed: ", s),
            NfsError::SessionFailed(s) => text::concat2("Session establishment failed: ", s),
            NfsError::StaleHandle { path } => text::concat2("Stale file handle for ", path),
            NfsError::Nfs4Error { code, message } => {
                let mut out = text::concat3("NFS4 error ", &text::decimal_of(*code as u64), ": ");
                out.append(message);
                out
            },
            NfsError::XdrDecode(s) => text::concat2("XDR decode error: ", s),
            NfsError::RpcError(s) => text::concat2("RPC error: ", s),
            NfsError::Timeout(ms) => text::concat2("Timeout after ", &span_of(*ms)),
            NfsError::FileTooLarge { size, max } => {
                let mut out = text::concat3(
                    "File too large for bypass: ",
                    &text::decimal_of(*size),
                    " > ",
                );
                out.append(&text::decimal_of(*max));
                out
            },
            NfsError::KerberosRequired => "Kerberos auth required — bypass unavailable".to_owned(),
        }
    }
}

/// A span is told in milliseconds below a second, and else in seconds with as many digits
/// behind the point as it needs.
pub proof fn spans_are_told(secs: u64, ms: u64)
    requires
        secs * 1000 + 999 <= u64::MAX,
        0 < ms < 1000,
    ensures
        span_text(ms) == text::decimal(ms as nat) + "ms"@,
        secs > 0 ==> span_text((secs * 1000) as u64) == text::decimal(secs as nat) + "s"@,
        secs > 0 && ms % 100 == 0 ==> span_text((secs * 1000 + ms) as u64) == text::decimal(
            secs as nat,
        ) + "."@ + text::decimal((ms / 100) as nat) + "s"@,
        secs > 0 && ms % 10 != 0 && ms >= 100 ==> span_text((secs * 1000 + ms) as u64)
            == text::decimal(secs as nat) + "."@ + text::decimal(ms as nat) + "s"@,
        secs > 0 && ms % 10 != 0 && 10 <= ms < 100 ==> span_text((secs * 1000 + ms) as u64)
            == text::decimal(secs as nat) + ".0"@ + text::decimal(ms as nat) + "s"@,
        secs > 0 && ms % 10 != 0 && ms < 10 ==> span_text((secs * 1000 + ms) as u64)
            == text::decimal(secs as nat) + ".00"@ + text::decimal(ms as nat) + "s"@,
        secs > 0 && ms % 10 == 0 && ms % 100 != 0 && ms >= 100 ==> span_text(
            (secs * 1000 + ms) as u64,
        ) == text::decimal(secs as nat) + "."@ + text::decimal((ms / 10) as nat) + "s"@,
        secs > 0 && ms % 10 == 0 && ms < 100 ==> span_text((secs * 1000 + ms) as u64)
            == text::decimal(secs as nat) + ".0"@ + text::decimal((ms / 10) as nat) + "s"@,
{
}

/// Every fault is told with what is known of it.
pub proof fn faults_are_told(s: Seq<char>, code: u32, ms: u64, size: u64, max: u64)
    ensures
        fault_text(NfsFault::ConnectionFailed(s)) == "TCP connection failed: "@ + s,
        fault_text(NfsFault::SessionFailed(s)) == "Session establishment failed: "@ + s,
        fault_text(NfsFault::StaleHandle(s)) == "Stale file handle for "@ + s,
        fault_text(NfsFault::Nfs4Error(code, s)) == "NFS4 error "@ + text::decimal(code as nat)
            + ": "@ + s,
        fault_text(NfsFault::XdrDecode(s)) == "XDR decode error: "@ + s,
        fault_text(NfsFault::RpcError(s)) == "RPC error: "@ + s,
        fault_text(NfsFault::Timeout(ms)) == "Timeout after "@ + span_text(ms),
        fault_text(NfsFault::FileTooLarge(size, max)) == "File too large for bypass: "@
            + text::decimal(size as nat) + " > "@ + text::decimal(max as nat),
{
}

/// An error stands for its own kind and what it holds.
pub proof fn errors_stand_for_themselves(e: NfsError)
    ensures
        e matches NfsError::ConnectionFailed(s) ==> e@ == NfsFault::ConnectionFailed(s@),
        e matches NfsError::SessionFailed(s) ==> e@ == NfsFault::SessionFailed(s@),
        e matches NfsError::StaleHandle { path } ==> e@ == NfsFault::StaleHandle(path@),
        e matches NfsError::Nfs4Error { code, message } ==> e@ == NfsFault::Nfs4Error(
            code,
            message@,
        ),
        e matches NfsError::XdrDecode(s) ==> e@ == NfsFault::XdrDecode(s@),
        e matches NfsError::RpcError(s) ==> e@ == NfsFault::RpcError(s@),
        e matches NfsError::Timeout(ms) ==> e@ == NfsFault::Timeout(ms),
        e matches NfsError::FileTooLarge { size, max } ==> e@ == NfsFault::FileTooLarge(size, max),
        e is KerberosRequired ==> e@ == NfsFault::KerberosRequired,
{
}

} // verus!
