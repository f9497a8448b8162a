//! One session with an NFSv4.2 server, apart from the socket: which message to
//! send next, what a reply means, and the file handles of directories that are
//! known already.

use crate::bytes;
use crate::nfs::mount::NfsBypassInfo;
use crate::nfs::rpc;
use crate::nfs::rpc::{CompoundReply, Nfs4Op, OpResult, StateId, WriteStable};
use crate::nfs::xdr;
use crate::nfs::xdr::XdrEncoder;
use crate::nfs::{NfsError, NfsFault};
use crate::path;
use crate::text;
use dashmap::DashMap;
use vstd::prelude::*;
use vstd::string::StringExecFns;

verus! {

/// `DashMap` of the crate `dashmap`: a hash map, opaque here.
#[verifier::external_type_specification]
#[verifier::external_body]
#[verifier::reject_recursive_types(K)]
#[verifier::reject_recursive_types(V)]
#[verifier::reject_recursive_types(S)]
pub struct ExDashMap<K, V, S>(dashmap::DashMap<K, V, S>);

/// What a map from paths to file handles holds.
pub uninterp spec fn handles_in(m: DashMap<String, Vec<u8>>) -> Map<Seq<char>, Seq<u8>>;

/// No handles at all.
pub open spec fn no_handles() -> Map<Seq<char>, Seq<u8>> {
    Map::empty()
}

/// `DashMap::new`: the map is empty.
#[verifier::external_body]
fn map_new() -> (m: DashMap<String, Vec<u8>>)
    ensures
        handles_in(m) == no_handles(),
{
    DashMap::new()
}

/// `DashMap::get`: the value under a key, copied out, where there is one.
#[verifier::external_body]
fn map_get(m: &DashMap<String, Vec<u8>>, key: &str) -> (res: Option<Vec<u8>>)
    ensures
        match res {
            Some(v) => handles_in(*m).contains_key(key@) && handles_in(*m)[key@] == v@,
            None => !handles_in(*m).contains_key(key@),
        },
{
    match m.get(key) {
        Some(entry) => Some(entry.value().clone()),
        None => None,
    }
}

/// `DashMap::insert`: puts a value under a key, in place of any before it.
#[verifier::external_body]
fn map_insert(m: &mut DashMap<String, Vec<u8>>, key: String, value: Vec<u8>)
    ensures
        handles_in(*final(m)) == handles_in(*old(m)).insert(key@, value@),
{
    m.insert(key, value);
}

/// `DashMap::remove`: takes a key and its value out, where it is there.
#[verifier::external_body]
fn map_remove(m: &mut DashMap<String, Vec<u8>>, key: &str)
    ensures
        handles_in(*final(m)) == handles_in(*old(m)).remove(key@),
{
    m.remove(key);
}

/// `DashMap::clear`: takes everything out.
#[verifier::external_body]
fn map_clear(m: &mut DashMap<String, Vec<u8>>)
    ensures
        handles_in(*final(m)) == no_handles(),
{
    m.clear();
}

/// The status of a server that still waits for clients to reclaim their state.
pub const NFS4ERR_GRACE: u32 = 10013;

/// How often a write is tried while the server is in its grace period.
pub const WRITE_ATTEMPTS: u32 = 3;

/// The pause between two attempts, in milliseconds.
pub const GRACE_PAUSE_MS: u64 = 500;

/// The longest fragment of a reply that is taken.
pub const MAX_FRAGMENT: usize = 16 * 1024 * 1024 + 4096;

/// The eight bytes of a result that opens with operation `op` and status OK.
pub open spec fn success_mark(op: u8) -> Seq<u8> {
    seq![0u8, 0, 0, op, 0, 0, 0, 0]
}

/// The first position from `i` on where `mark` stands; the length of `data`
/// where there is none.
pub open spec fn find_mark(data: Seq<u8>, mark: Seq<u8>, i: int) -> int
    decreases data.len() - i,
{
    if i < 0 || i + mark.len() > data.len() {
        data.len() as int
    } else if data.subrange(i, i + mark.len()) == mark || i >= data.len() {
        i
    } else {
        find_mark(data, mark, i + 1)
    }
}

/// The `len` bytes behind the first `mark`, where all of them are there.
pub open spec fn behind_mark(data: Seq<u8>, mark: Seq<u8>, len: int) -> Option<Seq<u8>> {
    let p = find_mark(data, mark, 0);
    if p + mark.len() + len <= data.len() {
        Some(data.subrange(p + mark.len(), p + mark.len() + len))
    } else {
        None
    }
}

fn find_success(data: &[u8], op: u8) -> (p: usize)
    ensures
        p == find_mark(data@, success_mark(op), 0),
        p <= data@.len(),
        p < data@.len() ==> p + 8 <= data@.len(),
{
    let mark: [u8; 8] = [0, 0, 0, op, 0, 0, 0, 0];
    assert(mark@ =~= success_mark(op));
    assert(data.len() == data@.len());
    if data.len() < 8 {
        return data.len();
    }
    let last: usize = data.len() - 8;
    let mut i: usize = 0;
    while i <= last
        invariant
            last == data@.len() - 8,
            i <= last + 1,
            mark@ == success_mark(op),
            find_mark(data@, success_mark(op), 0) == find_mark(data@, success_mark(op), i as int),
            data@.len() <= usize::MAX,
        decreases last + 1 - i,
    {
        let window = vstd::slice::slice_subrange(data, i, i + 8);
        if bytes::same_bytes(window, mark.as_slice()) {
            return i;
        }
        i = i + 1;
    }
    data.len()
}

/// Takes the client number out of the reply to EXCHANGE_ID: the eight bytes
/// behind the first successful result of it.
pub fn extract_exchange_id_client_id(data: &[u8]) -> (res: Result<u64, NfsError>)
    ensures
        match behind_mark(data@, success_mark(rpc::OP_EXCHANGE_ID as u8), 8) {
            Some(s) => res is Ok && res->Ok_0 == bytes::be64_value(s),
            None => res is Err && res->Err_0@ == NfsFault::SessionFailed(
                "cannot parse client_id from EXCHANGE_ID reply"@,
            ),
        },
{
    let p: usize = find_success(data, rpc::OP_EXCHANGE_ID as u8);
    if p < data.len() && data.len() - p >= 16 {
        return Ok(bytes::get_be64(data, p + 8));
    }
    Err(NfsError::SessionFailed("cannot parse client_id from EXCHANGE_ID reply".to_owned()))
}

fn sixteen(s: &[u8]) -> (out: [u8; 16])
    requires
        s@.len() == 16,
    ensures
        out@ == s@,
{
    let out = [
        s[0],
        s[1],
        s[2],
        s[3],
        s[4],
        s[5],
        s[6],
        s[7],
        s[8],
        s[9],
        s[10],
        s[11],
        s[12],
        s[13],
        s[14],
        s[15],
    ];
    assert(out@ =~= s@);
    out
}

/// Takes the session number out of the reply to CREATE_SESSION: the sixteen
/// bytes behind the first successful result of it.
pub fn extract_session_id(data: &[u8]) -> (res: Result<[u8; 16], NfsError>)
    ensures
        match behind_mark(data@, success_mark(rpc::OP_CREATE_SESSION as u8), 16) {
            Some(s) => res is Ok && res->Ok_0@ == s,
            None => res is Err && res->Err_0@ == NfsFault::SessionFailed(
                "cannot parse session_id from CREATE_SESSION reply"@,
            ),
        },
{
    let p: usize = find_success(data, rpc::OP_CREATE_SESSION as u8);
    if p < data.len() && data.len() - p >= 24 {
        let s = vstd::slice::slice_subrange(data, p + 8, p + 24);
        return Ok(sixteen(s));
    }
    Err(NfsError::SessionFailed("cannot parse session_id from CREATE_SESSION reply".to_owned()))
}

/// Reads one reply off a stream, fragment by fragment. The mark of the first
/// fragment stays ahead of the data; those of the others do not.
#[derive(Debug)]
pub struct ReplyReader {
    pub buf: Vec<u8>,
    pub last: bool,
}

impl ReplyReader {
    /// Nothing read yet.
    pub fn new() -> (r: Self)
        ensures
            r.buf@.len() == 0,
            !r.last,
    {
        ReplyReader { buf: Vec::new(), last: false }
    }

    /// Takes the four bytes of a fragment's mark and says how many bytes follow.
    /// A fragment that is too long is refused.
    pub fn on_mark(&mut self, mark: &[u8; 4]) -> (res: Result<usize, NfsError>)
        ensures
            ({
                let m = bytes::be32_value(mark@);
                let length = m & 0x7FFF_FFFF;
                if length > MAX_FRAGMENT {
                    &&& res is Err
                    &&& res->Err_0@ == NfsFault::RpcError(
                        "reply fragment too large: "@ + text::decimal(length as nat) + " bytes"@,
                    )
                    &&& *final(self) == *old(self)
                } else {
                    &&& res is Ok
                    &&& res->Ok_0 == length
                    &&& final(self).last == (m & 0x8000_0000 != 0)
                    &&& final(self).buf@ == (if old(self).buf@.len() == 0 {
                        mark@
                    } else {
                        old(self).buf@
                    })
                }
            }),
    {
        let m: u32 = bytes::get_be32(mark.as_slice(), 0);
        assert(mark@.subrange(0, 4) =~= mark@);
        let length: u32 = m & 0x7FFF_FFFF;
        if length as usize > MAX_FRAGMENT {
            return Err(
                NfsError::RpcError(
                    text::concat3(
                        "reply fragment too large: ",
                        &text::decimal_of(length as u64),
                        " bytes",
                    ),
                ),
            );
        }
        self.last = m & 0x8000_0000 != 0;
        if self.buf.len() == 0 {
            bytes::put_slice(&mut self.buf, mark.as_slice());
            assert(self.buf@ =~= mark@);
        }
        Ok(length as usize)
    }

    /// Takes the data of a fragment.
    pub fn on_data(&mut self, data: &[u8])
        ensures
            final(self).buf@ == old(self).buf@ + data@,
            final(self).last == old(self).last,
    {
        bytes::put_slice(&mut self.buf, data);
    }
}

/// Reading back a message that was framed: its mark announces the whole body as
/// the last fragment.
pub proof fn framed_message_is_one_fragment(body: Seq<u8>)
    requires
        body.len() < 0x8000_0000,
    ensures
        ({
            let m = bytes::be32_value(rpc::framed(body).subrange(0, 4));
            &&& m & 0x8000_0000 != 0
            &&& m & 0x7FFF_FFFF == body.len()
            &&& rpc::framed(body).subrange(4, rpc::framed(body).len() as int) == body
        }),
{
    let n = body.len() as u32;
    let mark = rpc::LAST_FRAGMENT | n;
    bytes::be32_round_trip(mark);
    assert(rpc::framed(body).subrange(0, 4) =~= bytes::be32(mark));
    assert(rpc::framed(body).subrange(4, rpc::framed(body).len() as int) =~= body);
    assert((0x8000_0000u32 | n) & 0x8000_0000 != 0 && (0x8000_0000u32 | n) & 0x7FFF_FFFF == n)
        by (bit_vector)
        requires
            n < 0x8000_0000,
    ;
}

/// What to do after an attempt to write a file.
#[derive(Debug)]
pub enum AfterWrite {
    Done,
    /// Wait and try again.
    Retry,
    Failed(NfsError),
}

/// What to do after attempt number `attempt` (counted from zero) to write a
/// file: only a server in its grace period is tried again, and not for ever.
pub fn after_write(attempt: u32, result: Result<(), NfsError>) -> (next: AfterWrite)
    ensures
        match result {
            Ok(_) => next is Done,
            Err(NfsError::Nfs4Error { code, message }) => if code != NFS4ERR_GRACE {
                next matches AfterWrite::Failed(e) && e@ == result->Err_0@
            } else if attempt + 1 < WRITE_ATTEMPTS {
                next is Retry
            } else {
                next matches AfterWrite::Failed(e) && e@ == NfsFault::Nfs4Error(
                    NFS4ERR_GRACE,
                    "server grace period persists after retries"@,
                )
            },
            Err(f) => next matches AfterWrite::Failed(e) && e@ == f@,
        },
{
    match result {
        Ok(_) => AfterWrite::Done,
        Err(NfsError::Nfs4Error { code, message }) => if code != NFS4ERR_GRACE {
            AfterWrite::Failed(NfsError::Nfs4Error { code, message })
        } else if attempt < WRITE_ATTEMPTS - 1 {
            AfterWrite::Retry
        } else {
            AfterWrite::Failed(
                NfsError::Nfs4Error {
                    code: NFS4ERR_GRACE,
                    message: "server grace period persists after retries".to_owned(),
                },
            )
        },
        Err(f) => AfterWrite::Failed(f),
    }
}

/// The first result from `i` on that is not OK.
pub open spec fn first_failure(results: Seq<rpc::ResultModel>, i: int) -> Option<rpc::ResultModel>
    decreases results.len() - i,
{
    if 0 <= i < results.len() {
        if results[i].status != rpc::NFS4_OK {
            Some(results[i])
        } else {
            first_failure(results, i + 1)
        }
    } else {
        None
    }
}

/// What is wrong with a reply to a write, where something is.
pub open spec fn write_fault(reply: rpc::ReplyModel, filename: Seq<char>) -> Option<NfsFault> {
    let code = reply.status;
    if code == rpc::NFS4_OK {
        match first_failure(reply.results, 0) {
            Some(r) => Some(
                NfsFault::Nfs4Error(
                    r.status,
                    "op "@ + text::decimal(r.op as nat) + " failed: "@ + rpc::error_name(r.status),
                ),
            ),
            None => None,
        }
    } else if code == rpc::NFS4ERR_BADSESSION || code == rpc::NFS4ERR_BADSEQ {
        Some(
            NfsFault::Nfs4Error(
                code,
                "session error: "@ + rpc::error_name(code) + " — needs recovery"@,
            ),
        )
    } else if code == rpc::NFS4ERR_STALE {
        Some(NfsFault::StaleHandle(filename))
    } else {
        Some(NfsFault::Nfs4Error(code, "compound failed: "@ + rpc::error_name(code)))
    }
}

/// What a reply to the write of `filename` means.
pub fn judge_write(reply: &CompoundReply, filename: &str) -> (res: Result<(), NfsError>)
    ensures
        match write_fault(reply@, filename@) {
            Some(f) => res is Err && res->Err_0@ == f,
            None => res is Ok,
        },
{
    let code: u32 = reply.status;
    if code != rpc::NFS4_OK {
        if code == rpc::NFS4ERR_BADSESSION || code == rpc::NFS4ERR_BADSEQ {
            return Err(
                NfsError::Nfs4Error {
                    code,
                    message: text::concat3(
                        "session error: ",
                        rpc::nfs4_error_name(code),
                        " — needs recovery",
                    ),
                },
            );
        }
        if code == rpc::NFS4ERR_STALE {
            return Err(NfsError::StaleHandle { path: filename.to_owned() });
        }
        return Err(
            NfsError::Nfs4Error {
                code,
                message: text::concat2("compound failed: ", rpc::nfs4_error_name(code)),
            },
        );
    }
    let mut i: usize = 0;
    while i < reply.op_results.len()
        invariant
            i <= reply.op_results@.len(),
            first_failure(reply@.results, 0) == first_failure(reply@.results, i as int),
            reply@.status == rpc::NFS4_OK,
        decreases reply.op_results@.len() - i,
    {
        let r = &reply.op_results[i];
        assert(reply@.results[i as int] == r@);
        if r.status != rpc::NFS4_OK {
            let head = text::concat3("op ", &text::decimal_of(r.op as u64), " failed: ");
            return Err(
                NfsError::Nfs4Error {
                    code: r.status,
                    message: text::concat2(&head, rpc::nfs4_error_name(r.status)),
                },
            );
        }
        i = i + 1;
    }
    Ok(())
}

/// The handle in the first GETFH result from `i` on that has one.
pub open spec fn first_handle(results: Seq<rpc::ResultModel>, i: int) -> Option<Seq<u8>>
    decreases results.len() - i,
{
    if 0 <= i < results.len() {
        if results[i].op == rpc::OP_GETFH && results[i].filehandle is Some {
            results[i].filehandle
        } else {
            first_handle(results, i + 1)
        }
    } else {
        None
    }
}

/// The handle in a reply to a lookup of `rel`, or what is wrong with it.
pub open spec fn handle_in(reply: rpc::ReplyModel, rel: Seq<char>) -> Result<Seq<u8>, NfsFault> {
    if reply.status != rpc::NFS4_OK {
        Err(
            NfsFault::Nfs4Error(
                reply.status,
                "LOOKUP for "@ + path::debug_text(rel) + " failed: "@ + rpc::error_name(reply.status),
            ),
        )
    } else {
        match first_handle(reply.results, 0) {
            Some(h) => Ok(h),
            None => Err(
                NfsFault::SessionFailed("GETFH not found in reply for "@ + path::debug_text(rel)),
            ),
        }
    }
}

/// What a reply to the lookup of `rel` says.
pub fn judge_lookup(reply: &CompoundReply, rel: &str) -> (res: Result<Vec<u8>, NfsError>)
    ensures
        match handle_in(reply@, rel@) {
            Ok(h) => res is Ok && res->Ok_0@ == h,
            Err(f) => res is Err && res->Err_0@ == f,
        },
{
    let name = path::debug_of(rel);
    if reply.status != rpc::NFS4_OK {
        let head = text::concat3("LOOKUP for ", &name, " failed: ");
        return Err(
            NfsError::Nfs4Error {
                code: reply.status,
                message: text::concat2(&head, rpc::nfs4_error_name(reply.status)),
            },
        );
    }
    let mut i: usize = 0;
    while i < reply.op_results.len()
        invariant
            i <= reply.op_results@.len(),
            first_handle(reply@.results, 0) == first_handle(reply@.results, i as int),
            reply@.status == rpc::NFS4_OK,
        decreases reply.op_results@.len() - i,
    {
        let r = &reply.op_results[i];
        assert(reply@.results[i as int] == r@);
        if r.op == rpc::OP_GETFH {
            if let Some(h) = &r.filehandle {
                return Ok(bytes::copy_range(h.as_slice(), 0, h.len()));
            }
        }
        i = i + 1;
    }
    Err(NfsError::SessionFailed(text::concat2("GETFH not found in reply for ", &name)))
}

/// Name, size and modification time of a file.
#[derive(Debug)]
pub struct FileStat {
    pub name: String,
    pub size: u64,
    pub mtime_sec: i64,
    pub mtime_nsec: i64,
}

impl View for FileStat {
    type V = (Seq<char>, u64, i64, i64);

    open spec fn view(&self) -> (Seq<char>, u64, i64, i64) {
        (self.name@, self.size, self.mtime_sec, self.mtime_nsec)
    }
}

/// The views of a list of file entries.
pub open spec fn stat_models(v: Seq<FileStat>) -> Seq<(Seq<char>, u64, i64, i64)> {
    Seq::new(v.len(), |i: int| v[i]@)
}

/// The entry of one file, where its GETATTR gave both size and time.
pub open spec fn stat_entry(
    name: Seq<char>,
    r: rpc::ResultModel,
) -> Seq<(Seq<char>, u64, i64, i64)> {
    match (r.size, r.mtime) {
        (Some(size), Some(t)) => if r.status == rpc::NFS4_OK {
            seq![(name, size, t.0, t.1)]
        } else {
            Seq::empty()
        },
        _ => Seq::empty(),
    }
}

/// The entries of the files from the `i`th on. Each file has a LOOKUP and a
/// GETATTR result, behind those of SEQUENCE and PUTFH; a file whose LOOKUP failed
/// has no entry, and nothing follows the end of the results.
pub open spec fn stats_from(
    names: Seq<Seq<char>>,
    results: Seq<rpc::ResultModel>,
    i: int,
) -> Seq<(Seq<char>, u64, i64, i64)>
    decreases names.len() - i,
{
    let k = 2 + 2 * i;
    if !(0 <= i < names.len()) || k >= results.len() {
        Seq::empty()
    } else if results[k].status != rpc::NFS4_OK {
        stats_from(names, results, i + 1)
    } else if k + 1 >= results.len() {
        Seq::empty()
    } else {
        stat_entry(names[i], results[k + 1]) + stats_from(names, results, i + 1)
    }
}

/// What a reply to a query of size and time says of each file asked for.
pub fn judge_stat(reply: &CompoundReply, names: &Vec<String>) -> (out: Vec<FileStat>)
    ensures
        stat_models(out@) == stats_from(text::texts(names@), reply@.results, 0),
{
    let mut out: Vec<FileStat> = Vec::new();
    let ghost t = text::texts(names@);
    let ghost rs = reply@.results;
    let results = &reply.op_results;
    let mut i: usize = 0;
    assert(stat_models(out@) + stats_from(t, rs, 0) =~= stats_from(t, rs, 0));
    while i < names.len()
        invariant_except_break
            stat_models(out@) + stats_from(t, rs, i as int) == stats_from(t, rs, 0),
        invariant
            i <= names@.len(),
            t == text::texts(names@),
            rs == reply@.results,
            *results == reply.op_results,
        ensures
            stat_models(out@) == stats_from(t, rs, 0),
        decreases names@.len() - i,
    {
        assert(t[i as int] == names@[i as int]@);
        let n: usize = results.len();
        if n < 3 || i > (n - 3) / 2 {
            assert(stat_models(out@) + Seq::empty() =~= stat_models(out@));
            break;
        }
        let k: usize = 2 + 2 * i;
        assert(rs[k as int] == results@[k as int]@);
        if results[k].status == rpc::NFS4_OK {
            if k + 1 >= n {
                assert(stat_models(out@) + Seq::empty() =~= stat_models(out@));
                break;
            }
            let r = &results[k + 1];
            assert(rs[k + 1] == r@);
            let ghost before = stat_models(out@);
            if r.status == rpc::NFS4_OK {
                if let Some(size) = r.size {
                    if let Some((sec, nsec)) = r.mtime {
                        out.push(
                            FileStat {
                                name: names[i].clone(),
                                size,
                                mtime_sec: sec,
                                mtime_nsec: nsec,
                            },
                        );
                    }
                }
            }
            proof {
                let e = stat_entry(t[i as int], rs[k + 1]);
                assert(stat_models(out@) =~= before + e);
                assert((before + e) + stats_from(t, rs, i + 1) =~= before + (e + stats_from(
                    t,
                    rs,
                    i + 1,
                )));
            }
        }
        i = i + 1;
        proof {
            if i == names@.len() {
                assert(stat_models(out@) + Seq::empty() =~= stat_models(out@));
            }
        }
    }
    out
}

/// The fault of a step of setting up the session that the server refused.
pub open spec fn session_fault(step: Seq<char>, status: u32) -> NfsFault {
    NfsFault::SessionFailed(
        step + " failed: "@ + rpc::error_name(status) + " ("@ + text::decimal(status as nat) + ")"@,
    )
}

fn session_error(step: &str, status: u32) -> (e: NfsError)
    ensures
        e@ == session_fault(step@, status),
{
    let mut out = text::concat3(step, " failed: ", rpc::nfs4_error_name(status));
    out.append(" (");
    out.append(&text::decimal_of(status as u64));
    out.append(")");
    NfsError::SessionFailed(out)
}

/// Reads a reply to a step of setting up the session and looks at its status.
fn accept_step(data: &[u8], step: &str) -> (res: Result<(), NfsError>)
    requires
        data@.len() <= isize::MAX,
    ensures
        match step_fault(data@, step@) {
            Some(f) => res is Err && res->Err_0@ == f,
            None => res is Ok,
        },
{
    match rpc::parse_compound_reply(data) {
        Ok(reply) => {
            if reply.status != rpc::NFS4_OK {
                return Err(session_error(step, reply.status));
            }
            Ok(())
        },
        Err(e) => Err(e),
    }
}

/// What is wrong with a reply to a step of setting up the session, where it
/// cannot be read or the server refused.
pub open spec fn step_fault(data: Seq<u8>, step: Seq<char>) -> Option<NfsFault> {
    match rpc::reply_of(data) {
        Ok(m) => if m.status != rpc::NFS4_OK {
            Some(session_fault(step, m.status))
        } else {
            None
        },
        Err(f) => Some(f),
    }
}

/// The message that introduces the client to the server.
pub open spec fn exchange_id_message(
    xid: u32,
    uid: u32,
    gid: u32,
    machine: Seq<char>,
    verifier: u64,
    pid: u32,
) -> Seq<u8> {
    let owner = "foxing."@ + machine + "."@ + text::decimal(pid as nat);
    rpc::framed(
        rpc::compound_head(xid, "exid"@, uid, gid, machine, 1) + bytes::be32(rpc::OP_EXCHANGE_ID)
            + bytes::be64(verifier) + xdr::xdr_opaque(vstd::utf8::encode_utf8(owner)) + bytes::be32(
            1,
        ) + bytes::be32(0) + bytes::be32(0),
    )
}

/// What one direction of a session can carry: no header padding, the sizes of
/// requests, responses and cached responses, the numbers of operations and of
/// requests at a time, and no RDMA.
pub open spec fn channel(request: u32, response: u32, cached: u32, ops: u32, slots: u32) -> Seq<u8> {
    bytes::be32(0) + bytes::be32(request) + bytes::be32(response) + bytes::be32(cached)
        + bytes::be32(ops) + bytes::be32(slots) + bytes::be32(0)
}

/// The message that asks for a session: one slot forward, nothing back.
pub open spec fn create_session_message(
    xid: u32,
    uid: u32,
    gid: u32,
    machine: Seq<char>,
    client_id: u64,
) -> Seq<u8> {
    rpc::framed(
        rpc::compound_head(xid, "csess"@, uid, gid, machine, 1) + bytes::be32(
            rpc::OP_CREATE_SESSION,
        ) + bytes::be64(client_id) + bytes::be32(1) + bytes::be32(0) + channel(
            MAX_FRAGMENT as u32,
            0x10_0000,
            4096,
            16,
            1,
        ) + channel(4096, 4096, 0, 2, 0) + bytes::be32(0x4000_0000) + bytes::be32(1) + bytes::be32(
            rpc::AUTH_SYS,
        ) + rpc::sys_cred(uid, gid, machine),
    )
}

/// The operations that every call of a session opens with.
pub open spec fn sequence_of(session_id: Seq<u8>, sequence_id: u32) -> Seq<u8> {
    rpc::sequence_bytes(session_id, sequence_id, 0, 0, false)
}

/// The name under which files are opened.
pub open spec fn open_owner(pid: u32) -> Seq<u8> {
    vstd::utf8::encode_utf8("foxing-"@ + text::decimal(pid as nat))
}

/// LOOKUP for each of the first `n` names.
pub open spec fn lookups(names: Seq<Seq<char>>, n: nat) -> Seq<u8>
    decreases n,
{
    if n == 0 {
        Seq::empty()
    } else {
        lookups(names, (n - 1) as nat) + rpc::lookup_bytes(names[n - 1])
    }
}

/// LOOKUP and GETATTR for each of the first `n` names.
pub open spec fn stat_queries(names: Seq<Seq<char>>, n: nat) -> Seq<u8>
    decreases n,
{
    if n == 0 {
        Seq::empty()
    } else {
        stat_queries(names, (n - 1) as nat) + rpc::lookup_bytes(names[n - 1]) + rpc::getattr_bytes(
            rpc::STAT_REQUEST@,
        )
    }
}

/// Appends one way of a session.
fn encode_channel(
    enc: &mut XdrEncoder,
    request: u32,
    response: u32,
    cached: u32,
    ops: u32,
    slots: u32,
)
    ensures
        final(enc)@ == old(enc)@ + channel(request, response, cached, ops, slots),
{
    let ghost before = enc@;
    enc.encode_u32(0);
    enc.encode_u32(request);
    enc.encode_u32(response);
    enc.encode_u32(cached);
    enc.encode_u32(ops);
    enc.encode_u32(slots);
    enc.encode_u32(0);
    assert(enc@ =~= before + channel(request, response, cached, ops, slots));
}

/// One operation more at the end.
fn push_op(ops: &mut Vec<Nfs4Op>, op: Nfs4Op)
    ensures
        final(ops)@ == old(ops)@.push(op),
        rpc::ops_bytes(final(ops)@, final(ops)@.len()) == rpc::ops_bytes(
            old(ops)@,
            old(ops)@.len(),
        ) + rpc::op_bytes(op),
{
    let ghost before = ops@;
    ops.push(op);
    proof {
        assert(before.subrange(0, before.len() as int) =~= ops@.subrange(0, before.len() as int));
        rpc::ops_bytes_of_prefix(before, ops@, before.len());
    }
}

/// What is known of a session with a server. The socket belongs to the caller,
/// who sends the messages made here and hands in the replies.
#[derive(Debug)]
pub struct NfsCompoundClient {
    pub session_id: [u8; 16],
    pub sequence_id: u32,
    pub client_id: u64,
    pub uid: u32,
    pub gid: u32,
    pub machine: String,
    pub xid_counter: u32,
    pub server_info: NfsBypassInfo,
    /// The handles of directories, by the plain spelling of their paths.
    pub dir_handle_cache: DashMap<String, Vec<u8>>,
}

impl NfsCompoundClient {
    /// The handle of a directory, where it is known.
    pub open spec fn known(self, dir: Seq<char>) -> Option<Seq<u8>> {
        if handles_in(self.dir_handle_cache).contains_key(path::spelled(dir)) {
            Some(handles_in(self.dir_handle_cache)[path::spelled(dir)])
        } else {
            None
        }
    }

    /// Whether a directory lies inside the mount point and is not the mount point
    /// itself.
    pub open spec fn is_inside(self, dir: Seq<char>) -> bool {
        &&& path::is_under(dir, self.server_info.mount_point@)
        &&& path::components(dir).len() > path::components(self.server_info.mount_point@).len()
    }

    /// The directory to ask for next on the way to a directory: of those inside
    /// the mount point that lead to it, the highest below the last known one.
    pub open spec fn step_towards(self, dir: Seq<char>) -> Option<Seq<char>>
        decreases path::components(dir).len(),
    {
        if self.known(dir) is Some {
            None
        } else if path::parent(dir) is Some && self.is_inside(path::parent(dir)->0) {
            proof {
                path::parent_drops_last(dir);
            }
            match self.step_towards(path::parent(dir)->0) {
                Some(q) => Some(q),
                None => Some(dir),
            }
        } else {
            Some(dir)
        }
    }

    /// On the way to a directory, each one is asked for only once the one that
    /// holds it is known: it leads to that directory and is not known yet, and the
    /// directory that holds it, where that is inside the mount point, is.
    pub proof fn steps_go_down(self, dir: Seq<char>)
        ensures
            self.step_towards(dir) is None <==> self.known(dir) is Some,
            self.step_towards(dir) matches Some(q) ==> {
                &&& self.known(q) is None
                &&& path::is_under(dir, q)
                &&& path::parent(q) matches Some(up) ==> self.is_inside(up) ==> self.known(
                    up,
                ) is Some
            },
        decreases path::components(dir).len(),
    {
        let c = path::components(dir);
        assert(c.subrange(0, c.len() as int) =~= c);
        if self.known(dir) is None && path::parent(dir) is Some && self.is_inside(
            path::parent(dir)->0,
        ) {
            path::parent_drops_last(dir);
            let up = path::parent(dir)->0;
            self.steps_go_down(up);
            if let Some(q) = self.step_towards(up) {
                let k = path::components(q).len() as int;
                assert(c.drop_last().subrange(0, k) =~= c.subrange(0, k));
            }
        }
    }

    /// No session yet: both counters at one, no handles.
    pub fn connect(uid: u32, gid: u32, machine: String, info: NfsBypassInfo) -> (c: Self)
        ensures
            c.session_id@ == bytes::zeros(16),
            c.sequence_id == 1,
            c.client_id == 0,
            c.uid == uid,
            c.gid == gid,
            c.machine == machine,
            c.xid_counter == 1,
            c.server_info == info,
            handles_in(c.dir_handle_cache) == no_handles(),
    {
        let session_id = [0u8;16];
        assert(session_id@ =~= bytes::zeros(16));
        NfsCompoundClient {
            session_id,
            sequence_id: 1,
            client_id: 0,
            uid,
            gid,
            machine,
            xid_counter: 1,
            server_info: info,
            dir_handle_cache: map_new(),
        }
    }

    /// The number of the next call.
    fn next_xid(&mut self) -> (xid: u32)
        ensures
            xid == old(self).xid_counter,
            *final(self) == (NfsCompoundClient {
                xid_counter: xid.wrapping_add(1),
                ..*old(self)
            }),
    {
        let xid: u32 = self.xid_counter;
        self.xid_counter = xid.wrapping_add(1);
        xid
    }

    /// The place of the next call in the session.
    fn next_sequence_id(&mut self) -> (id: u32)
        ensures
            id == old(self).sequence_id,
            *final(self) == (NfsCompoundClient {
                sequence_id: id.wrapping_add(1),
                ..*old(self)
            }),
    {
        let id: u32 = self.sequence_id;
        self.sequence_id = id.wrapping_add(1);
        id
    }

    /// The message that introduces the client: `verifier` tells this run of
    /// process `pid` from others.
    pub fn exchange_id_call(&mut self, verifier: u64, pid: u32) -> (msg: Vec<u8>)
        ensures
            msg@ == exchange_id_message(
                old(self).xid_counter,
                old(self).uid,
                old(self).gid,
                old(self).machine@,
                verifier,
                pid,
            ),
            *final(self) == (NfsCompoundClient {
                xid_counter: old(self).xid_counter.wrapping_add(1),
                ..*old(self)
            }),
    {
        let xid: u32 = self.next_xid();
        let mut body = XdrEncoder::new(512);
        rpc::encode_head(&mut body, xid, "exid", self.uid, self.gid, &self.machine, 1);
        body.encode_u32(rpc::OP_EXCHANGE_ID);
        body.encode_u64(verifier);
        let mut owner = text::concat3("foxing.", &self.machine, ".");
        owner.append(&text::decimal_of(pid as u64));
        body.encode_opaque(owner.as_str().as_bytes());
        body.encode_u32(1);
        body.encode_u32(0);
        body.encode_u32(0);
        let out = body.into_bytes();
        rpc::frame(out.as_slice())
    }

    /// Takes the reply to the introduction: the number of the client.
    pub fn accept_exchange_id(&mut self, data: &[u8]) -> (res: Result<(), NfsError>)
        requires
            data@.len() <= isize::MAX,
        ensures
            match (
                step_fault(data@, "EXCHANGE_ID"@),
                behind_mark(data@, success_mark(rpc::OP_EXCHANGE_ID as u8), 8),
            ) {
                (Some(f), _) => res is Err && res->Err_0@ == f && *final(self) == *old(self),
                (None, Some(s)) => res is Ok && *final(self) == (NfsCompoundClient {
                    client_id: bytes::be64_value(s),
                    ..*old(self)
                }),
                (None, None) => res is Err && *final(self) == *old(self) && res->Err_0@
                    == NfsFault::SessionFailed("cannot parse client_id from EXCHANGE_ID reply"@),
            },
    {
        match accept_step(data, "EXCHANGE_ID") {
            Ok(()) => {},
            Err(e) => return Err(e),
        }
        match extract_exchange_id_client_id(data) {
            Ok(id) => {
                self.client_id = id;
                Ok(())
            },
            Err(e) => Err(e),
        }
    }

    /// The message that asks for a session.
    pub fn create_session_call(&mut self) -> (msg: Vec<u8>)
        ensures
            msg@ == create_session_message(
                old(self).xid_counter,
                old(self).uid,
                old(self).gid,
                old(self).machine@,
                old(self).client_id,
            ),
            *final(self) == (NfsCompoundClient {
                xid_counter: old(self).xid_counter.wrapping_add(1),
                ..*old(self)
            }),
    {
        let xid: u32 = self.next_xid();
        let mut body = XdrEncoder::new(512);
        rpc::encode_head(&mut body, xid, "csess", self.uid, self.gid, &self.machine, 1);
        body.encode_u32(rpc::OP_CREATE_SESSION);
        body.encode_u64(self.client_id);
        body.encode_u32(1);
        body.encode_u32(0);
        encode_channel(&mut body, MAX_FRAGMENT as u32, 0x10_0000, 4096, 16, 1);
        encode_channel(&mut body, 4096, 4096, 0, 2, 0);
        body.encode_u32(0x4000_0000);
        body.encode_u32(1);
        body.encode_u32(rpc::AUTH_SYS);
        let ghost before = body@;
        body.encode_u32(0);
        body.encode_string(&self.machine);
        body.encode_u32(self.uid);
        body.encode_u32(self.gid);
        body.encode_u32(1);
        body.encode_u32(self.gid);
        assert(body@ =~= before + rpc::sys_cred(self.uid, self.gid, self.machine@));
        let out = body.into_bytes();
        rpc::frame(out.as_slice())
    }

    /// Takes the reply that grants a session; its calls are counted from one.
    pub fn accept_create_session(&mut self, data: &[u8]) -> (res: Result<(), NfsError>)
        requires
            data@.len() <= isize::MAX,
        ensures
            match (
                step_fault(data@, "CREATE_SESSION"@),
                behind_mark(data@, success_mark(rpc::OP_CREATE_SESSION as u8), 16),
            ) {
                (Some(f), _) => res is Err && res->Err_0@ == f && *final(self) == *old(self),
                (None, Some(s)) => {
                    &&& res is Ok
                    &&& final(self).session_id@ == s
                    &&& *final(self) == (NfsCompoundClient {
                        session_id: final(self).session_id,
                        sequence_id: 1,
                        ..*old(self)
                    })
                },
                (None, None) => res is Err && *final(self) == *old(self) && res->Err_0@
                    == NfsFault::SessionFailed(
                    "cannot parse session_id from CREATE_SESSION reply"@,
                ),
            },
    {
        match accept_step(data, "CREATE_SESSION") {
            Ok(()) => {},
            Err(e) => return Err(e),
        }
        match extract_session_id(data) {
            Ok(id) => {
                self.session_id = id;
                self.sequence_id = 1;
                Ok(())
            },
            Err(e) => Err(e),
        }
    }

    /// A list of operations that opens with the next SEQUENCE of the session.
    fn begin(&mut self) -> (ops: Vec<Nfs4Op>)
        ensures
            ops@.len() == 1,
            rpc::ops_bytes(ops@, 1) == sequence_of(old(self).session_id@, old(self).sequence_id),
            *final(self) == (NfsCompoundClient {
                sequence_id: old(self).sequence_id.wrapping_add(1),
                ..*old(self)
            }),
    {
        let sequence_id: u32 = self.next_sequence_id();
        let mut ops: Vec<Nfs4Op> = Vec::new();
        push_op(
            &mut ops,
            Nfs4Op::Sequence {
                session_id: self.session_id,
                sequence_id,
                slot_id: 0,
                highest_slot_id: 0,
                cache_this: false,
            },
        );
        proof {
            assert(Seq::<u8>::empty() + sequence_of(self.session_id@, sequence_id) =~= sequence_of(
                self.session_id@,
                sequence_id,
            ));
        }
        ops
    }

    /// The head of a call of `count` operations made now.
    pub open spec fn head(self, tag: Seq<char>, count: u32) -> Seq<u8> {
        rpc::compound_head(self.xid_counter, tag, self.uid, self.gid, self.machine@, count)
    }

    /// One call and one place in the session further.
    pub open spec fn advanced(self) -> Self {
        NfsCompoundClient {
            xid_counter: self.xid_counter.wrapping_add(1),
            sequence_id: self.sequence_id.wrapping_add(1),
            ..self
        }
    }

    /// The message that ends the grace period of the session.
    pub fn reclaim_complete_call(&mut self) -> (msg: Vec<u8>)
        ensures
            msg@ == rpc::framed(
                old(self).head("rclm"@, 2) + sequence_of(
                    old(self).session_id@,
                    old(self).sequence_id,
                ) + rpc::reclaim_bytes(),
            ),
            *final(self) == old(self).advanced(),
    {
        let mut ops = self.begin();
        push_op(&mut ops, Nfs4Op::ReclaimComplete);
        let xid: u32 = self.next_xid();
        proof {
            assert(self.head("rclm"@, 2) + rpc::ops_bytes(ops@, 2) =~= self.head("rclm"@, 2)
                + sequence_of(old(self).session_id@, old(self).sequence_id)
                + rpc::reclaim_bytes());
            assert(rpc::compound_head(xid, "rclm"@, self.uid, self.gid, self.machine@, 2)
                + rpc::ops_bytes(ops@, 2) =~= old(self).head("rclm"@, 2) + sequence_of(
                old(self).session_id@,
                old(self).sequence_id,
            ) + rpc::reclaim_bytes());
        }
        rpc::build_compound(xid, "rclm", self.uid, self.gid, &self.machine, ops.as_slice())
    }

    /// Takes the reply to the end of the grace period.
    pub fn accept_reclaim_complete(&self, data: &[u8]) -> (res: Result<(), NfsError>)
        requires
            data@.len() <= isize::MAX,
        ensures
            match step_fault(data@, "RECLAIM_COMPLETE"@) {
                Some(f) => res is Err && res->Err_0@ == f,
                None => res is Ok,
            },
    {
        accept_step(data, "RECLAIM_COMPLETE")
    }

    /// Handles may be stale after the session was lost: all are forgotten.
    pub fn recover_session(&mut self)
        ensures
            handles_in(final(self).dir_handle_cache) == no_handles(),
            *final(self) == (NfsCompoundClient {
                dir_handle_cache: final(self).dir_handle_cache,
                ..*old(self)
            }),
    {
        map_clear(&mut self.dir_handle_cache);
    }

    /// The message that creates a file with its contents in one call: SEQUENCE,
    /// PUTFH of the directory, OPEN, WRITE, SETATTR, CLOSE. OPEN sets the mode;
    /// SETATTR has a place on the wire for the mode alone.
    pub fn write_file(
        &mut self,
        parent_handle: &[u8],
        filename: &str,
        data: &[u8],
        mode: u32,
        uid: u32,
        gid: u32,
        mtime: (i64, i64),
        pid: u32,
    ) -> (msg: Vec<u8>)
        ensures
            msg@ == rpc::framed(
                old(self).head("fxcp"@, 6) + (sequence_of(
                    old(self).session_id@,
                    old(self).sequence_id,
                ) + rpc::putfh_bytes(parent_handle@) + rpc::open_bytes(
                    0,
                    rpc::OPEN4_SHARE_ACCESS_WRITE,
                    rpc::OPEN4_SHARE_DENY_NONE,
                    old(self).client_id,
                    open_owner(pid),
                    filename@,
                    mode,
                ) + rpc::write_bytes(rpc::current_state(), 0, WriteStable::FileSync, data@)
                    + rpc::setattr_bytes(rpc::current_state(), None) + rpc::close_bytes(
                    1,
                    rpc::current_state(),
                )),
            ),
            *final(self) == old(self).advanced(),
    {
        let mut ops = self.begin();
        let xid: u32 = self.next_xid();
        push_op(
            &mut ops,
            Nfs4Op::PutFh { handle: bytes::copy_range(parent_handle, 0, parent_handle.len()) },
        );
        assert(parent_handle@.subrange(0, parent_handle@.len() as int) =~= parent_handle@);
        let owner = text::concat2("foxing-", &text::decimal_of(pid as u64));
        let owner_bytes = owner.as_str().as_bytes();
        let owner_vec: Vec<u8> = bytes::copy_range(owner_bytes, 0, owner_bytes.len());
        assert(owner_vec@ =~= open_owner(pid));
        push_op(
            &mut ops,
            Nfs4Op::Open {
                seqid: 0,
                share_access: rpc::OPEN4_SHARE_ACCESS_WRITE,
                share_deny: rpc::OPEN4_SHARE_DENY_NONE,
                clientid: self.client_id,
                owner: owner_vec,
                filename: filename.to_owned(),
                mode,
            },
        );
        assert(data@.subrange(0, data@.len() as int) =~= data@);
        push_op(
            &mut ops,
            Nfs4Op::Write {
                stateid: StateId::current(),
                offset: 0,
                stable: WriteStable::FileSync,
                data: bytes::copy_range(data, 0, data.len()),
            },
        );
        push_op(
            &mut ops,
            Nfs4Op::SetAttr {
                stateid: StateId::current(),
                mode: None,
                uid: Some(uid),
                gid: Some(gid),
                mtime: Some(mtime),
            },
        );
        push_op(&mut ops, Nfs4Op::Close { seqid: 1, stateid: StateId::current() });
        rpc::build_compound(xid, "fxcp", self.uid, self.gid, &self.machine, ops.as_slice())
    }

    /// Takes the reply to the write of a file.
    pub fn accept_write(&self, data: &[u8], filename: &str) -> (res: Result<(), NfsError>)
        requires
            data@.len() <= isize::MAX,
        ensures
            match rpc::reply_of(data@) {
                Ok(m) => match write_fault(m, filename@) {
                    Some(f) => res is Err && res->Err_0@ == f,
                    None => res is Ok,
                },
                Err(f) => res is Err && res->Err_0@ == f,
            },
    {
        match rpc::parse_compound_reply(data) {
            Ok(reply) => judge_write(&reply, filename),
            Err(e) => Err(e),
        }
    }

    /// The handle of a directory, where it is known. Where it is not, the way to
    /// it is walked: for each directory that `next_lookup` gives, the server is
    /// asked with `lookup_call`, and `accept_lookup` keeps its answer.
    pub fn get_or_resolve_handle(&self, dir: &str) -> (res: Option<Vec<u8>>)
        ensures
            match self.known(dir@) {
                Some(h) => res is Some && res->0@ == h,
                None => res is None,
            },
    {
        let key = path::spelled_of(dir);
        map_get(&self.dir_handle_cache, &key)
    }

    /// The directory whose handle is to be asked for next on the way from the
    /// mount point to `dir`, or none where the handle of `dir` is known. The
    /// handles of the directories on the way are thus kept too.
    pub fn next_lookup(&self, dir: &str) -> (res: Option<String>)
        ensures
            match self.step_towards(dir@) {
                Some(q) => res is Some && res->0@ == q,
                None => res is None,
            },
        decreases path::components(dir@).len(),
    {
        if self.get_or_resolve_handle(dir).is_some() {
            return None;
        }
        if let Some(up) = path::parent_of(dir) {
            proof {
                path::parent_drops_last(dir@);
            }
            let depth: usize = path::components_of(&self.server_info.mount_point).len();
            if path::path_starts_with(&up, &self.server_info.mount_point) && path::components_of(
                &up,
            ).len() > depth {
                if let Some(q) = self.next_lookup(&up) {
                    return Some(q);
                }
            }
        }
        Some(dir.to_owned())
    }

    /// The message that asks for the handle of a directory: from the handle of
    /// the mount point down, name by name.
    pub fn lookup_call(&mut self, dir: &str, mount_handle: &[u8]) -> (msg: Vec<u8>)
        ensures
            ({
                let names = path::names_below(dir@, old(self).server_info.mount_point@);
                msg@ == rpc::framed(
                    old(self).head("lkup"@, (3 + names.len()) as u32) + (sequence_of(
                        old(self).session_id@,
                        old(self).sequence_id,
                    ) + rpc::putfh_bytes(mount_handle@) + lookups(names, names.len())
                        + bytes::be32(rpc::OP_GETFH)),
                )
            }),
            *final(self) == old(self).advanced(),
    {
        let mut ops = self.begin();
        let xid: u32 = self.next_xid();
        push_op(
            &mut ops,
            Nfs4Op::PutFh { handle: bytes::copy_range(mount_handle, 0, mount_handle.len()) },
        );
        assert(mount_handle@.subrange(0, mount_handle@.len() as int) =~= mount_handle@);
        let names = path::names_below_of(dir, &self.server_info.mount_point);
        let ghost t = text::texts(names@);
        let ghost start = rpc::ops_bytes(ops@, ops@.len());
        let mut i: usize = 0;
        assert(start + lookups(t, 0) =~= start);
        while i < names.len()
            invariant
                i <= names@.len(),
                t == text::texts(names@),
                ops@.len() == 2 + i,
                rpc::ops_bytes(ops@, ops@.len()) == start + lookups(t, i as nat),
            decreases names@.len() - i,
        {
            assert(t[i as int] == names@[i as int]@);
            push_op(&mut ops, Nfs4Op::Lookup { name: names[i].clone() });
            assert((start + lookups(t, i as nat)) + rpc::lookup_bytes(t[i as int]) =~= start
                + lookups(t, (i + 1) as nat));
            i = i + 1;
        }
        push_op(&mut ops, Nfs4Op::GetFh);
        rpc::build_compound(xid, "lkup", self.uid, self.gid, &self.machine, ops.as_slice())
    }

    /// Takes the reply to a lookup; a handle that it brings is kept.
    pub fn accept_lookup(&mut self, dir: &str, data: &[u8]) -> (res: Result<Vec<u8>, NfsError>)
        requires
            data@.len() <= isize::MAX,
        ensures
            ({
                let rel = match path::relative(dir@, old(self).server_info.mount_point@) {
                    Some(r) => r,
                    None => ""@,
                };
                match rpc::reply_of(data@) {
                    Ok(m) => match handle_in(m, rel) {
                        Ok(h) => {
                            &&& res is Ok
                            &&& res->Ok_0@ == h
                            &&& handles_in(final(self).dir_handle_cache) == handles_in(
                                old(self).dir_handle_cache,
                            ).insert(path::spelled(dir@), h)
                        },
                        Err(f) => res is Err && res->Err_0@ == f && *final(self) == *old(self),
                    },
                    Err(f) => res is Err && res->Err_0@ == f && *final(self) == *old(self),
                }
            }),
            *final(self) == (NfsCompoundClient {
                dir_handle_cache: final(self).dir_handle_cache,
                ..*old(self)
            }),
    {
        let rel = match path::strip_prefix(dir, &self.server_info.mount_point) {
            Some(r) => r,
            None => "".to_owned(),
        };
        let reply = match rpc::parse_compound_reply(data) {
            Ok(r) => r,
            Err(e) => return Err(e),
        };
        match judge_lookup(&reply, &rel) {
            Ok(h) => {
                let kept: Vec<u8> = bytes::copy_range(h.as_slice(), 0, h.len());
                assert(kept@ =~= h@);
                map_insert(&mut self.dir_handle_cache, path::spelled_of(dir), kept);
                Ok(h)
            },
            Err(e) => Err(e),
        }
    }

    /// Forgets the handle of a directory.
    pub fn invalidate_handle(&mut self, dir: &str)
        ensures
            handles_in(final(self).dir_handle_cache) == handles_in(
                old(self).dir_handle_cache,
            ).remove(path::spelled(dir@)),
            *final(self) == (NfsCompoundClient {
                dir_handle_cache: final(self).dir_handle_cache,
                ..*old(self)
            }),
    {
        let key = path::spelled_of(dir);
        map_remove(&mut self.dir_handle_cache, &key);
    }

    /// The message that asks for size and modification time of files of one
    /// directory: LOOKUP and GETATTR for each.
    pub fn batch_stat(&mut self, dir_handle: &[u8], names: &Vec<String>) -> (msg: Vec<u8>)
        requires
            2 + 2 * names@.len() <= usize::MAX,
        ensures
            msg@ == rpc::framed(
                old(self).head("bstat"@, (2 + 2 * names@.len()) as u32) + (sequence_of(
                    old(self).session_id@,
                    old(self).sequence_id,
                ) + rpc::putfh_bytes(dir_handle@) + stat_queries(
                    text::texts(names@),
                    names@.len(),
                )),
            ),
            *final(self) == old(self).advanced(),
    {
        let mut ops = self.begin();
        let xid: u32 = self.next_xid();
        push_op(
            &mut ops,
            Nfs4Op::PutFh { handle: bytes::copy_range(dir_handle, 0, dir_handle.len()) },
        );
        assert(dir_handle@.subrange(0, dir_handle@.len() as int) =~= dir_handle@);
        let ghost t = text::texts(names@);
        let ghost start = rpc::ops_bytes(ops@, ops@.len());
        let mut i: usize = 0;
        assert(start + stat_queries(t, 0) =~= start);
        while i < names.len()
            invariant
                i <= names@.len(),
                t == text::texts(names@),
                ops@.len() == 2 + 2 * i,
                rpc::ops_bytes(ops@, ops@.len()) == start + stat_queries(t, i as nat),
            decreases names@.len() - i,
        {
            assert(t[i as int] == names@[i as int]@);
            push_op(&mut ops, Nfs4Op::Lookup { name: names[i].clone() });
            push_op(&mut ops, Nfs4Op::GetAttr { attr_request: rpc::STAT_REQUEST });
            assert((start + stat_queries(t, i as nat)) + rpc::lookup_bytes(t[i as int])
                + rpc::getattr_bytes(rpc::STAT_REQUEST@) =~= start + stat_queries(
                t,
                (i + 1) as nat,
            ));
            i = i + 1;
        }
        rpc::build_compound(xid, "bstat", self.uid, self.gid, &self.machine, ops.as_slice())
    }

    /// Takes the reply to a query of size and modification time.
    pub fn accept_stat(&self, data: &[u8], names: &Vec<String>) -> (res: Result<
        Vec<FileStat>,
        NfsError,
    >)
        requires
            data@.len() <= isize::MAX,
        ensures
            match rpc::reply_of(data@) {
                Ok(m) => res is Ok && stat_models(res->Ok_0@) == stats_from(
                    text::texts(names@),
                    m.results,
                    0,
                ),
                Err(f) => res is Err && res->Err_0@ == f,
            },
    {
        match rpc::parse_compound_reply(data) {
            Ok(reply) => Ok(judge_stat(&reply, names)),
            Err(e) => Err(e),
        }
    }
}

/// A handle is kept for the directory, not for one spelling of its path.
pub proof fn handle_is_known_by_every_spelling(c: NfsCompoundClient, a: Seq<char>, b: Seq<char>)
    requires
        path::same_path(a, b),
    ensures
        c.known(a) == c.known(b),
{
    path::one_path_one_spelling(a, b);
}

/// What stands behind a mark is read at the mark's first place in the data.
pub proof fn first_mark_counts(data: Seq<u8>, op: u8, before: Seq<u8>, value: Seq<u8>, rest: Seq<u8>)
    requires
        data == before + seq![0u8, 0, 0, op, 0, 0, 0, 0] + value + rest,
        forall|i: int|
            0 <= i < before.len() ==> #[trigger] data.subrange(i, i + 8) != seq![
                0u8,
                0,
                0,
                op,
                0,
                0,
                0,
                0,
            ],
    ensures
        behind_mark(data, success_mark(op), value.len() as int) == Some(value),
{
    let mark = seq![0u8, 0, 0, op, 0, 0, 0, 0];
    let n = before.len() as int;
    assert(data.subrange(n, n + 8) =~= mark);
    mark_is_found(data, mark, 0, n);
    assert(data.subrange(n + 8, n + 8 + value.len()) =~= value);
}

proof fn mark_is_found(data: Seq<u8>, mark: Seq<u8>, i: int, n: int)
    requires
        mark.len() == 8,
        0 <= i <= n,
        n + 8 <= data.len(),
        data.subrange(n, n + 8) == mark,
        forall|j: int| i <= j < n ==> #[trigger] data.subrange(j, j + 8) != mark,
    ensures
        find_mark(data, mark, i) == n,
    decreases n - i,
{
    if i < n {
        assert(data.subrange(i, i + 8) != mark);
        mark_is_found(data, mark, i + 1, n);
    }
}

/// Where the mark is nowhere, or too little stands behind it, nothing is read.
pub proof fn missing_mark_is_told(data: Seq<u8>, op: u8, len: int)
    requires
        len > 0,
        forall|i: int|
            0 <= i && i + 8 <= data.len() ==> #[trigger] data.subrange(i, i + 8) != seq![
                0u8,
                0,
                0,
                op,
                0,
                0,
                0,
                0,
            ],
    ensures
        behind_mark(data, success_mark(op), len) is None,
{
    mark_is_nowhere(data, seq![0u8, 0, 0, op, 0, 0, 0, 0], 0);
}

proof fn mark_is_nowhere(data: Seq<u8>, mark: Seq<u8>, i: int)
    requires
        mark.len() == 8,
        0 <= i,
        forall|j: int|
            i <= j && j + 8 <= data.len() ==> #[trigger] data.subrange(j, j + 8) != mark,
    ensures
        find_mark(data, mark, i) == data.len(),
    decreases data.len() - i,
{
    if i + 8 <= data.len() {
        assert(data.subrange(i, i + 8) != mark);
        mark_is_nowhere(data, mark, i + 1);
    }
}

/// A write has succeeded exactly where the whole reply and every operation in it did; else
/// the first operation that failed is told, a lost session and a stale handle as such.
pub proof fn write_fails_with_its_first_failure(reply: rpc::ReplyModel, filename: Seq<char>) -> (
    at: int)
    ensures
        ({
            let fault = write_fault(reply, filename);
            let code = reply.status;
            &&& fault is None <==> code == 0 && forall|i: int|
                0 <= i < reply.results.len() ==> (#[trigger] reply.results[i]).status == 0
            &&& code == 0 && fault is Some ==> {
                &&& 0 <= at < reply.results.len()
                &&& reply.results[at].status != 0
                &&& forall|i: int| 0 <= i < at ==> (#[trigger] reply.results[i]).status == 0
                &&& fault == Some(
                    NfsFault::Nfs4Error(
                        reply.results[at].status,
                        "op "@ + text::decimal(reply.results[at].op as nat) + " failed: "@
                            + rpc::error_name(reply.results[at].status),
                    ),
                )
            }
            &&& code == 70 ==> fault == Some(NfsFault::StaleHandle(filename))
            &&& code == 10052 || code == 10026 ==> fault == Some(
                NfsFault::Nfs4Error(
                    code,
                    "session error: "@ + rpc::error_name(code) + " — needs recovery"@,
                ),
            )
            &&& code != 0 && code != 70 && code != 10052 && code != 10026 ==> fault == Some(
                NfsFault::Nfs4Error(code, "compound failed: "@ + rpc::error_name(code)),
            )
        }),
{
    failure_from(reply.results, 0)
}

proof fn failure_from(results: Seq<rpc::ResultModel>, i: int) -> (at: int)
    requires
        0 <= i <= results.len(),
        forall|j: int| 0 <= j < i ==> (#[trigger] results[j]).status == 0,
    ensures
        first_failure(results, i) is None <==> forall|j: int|
            0 <= j < results.len() ==> (#[trigger] results[j]).status == 0,
        first_failure(results, i) matches Some(r) ==> 0 <= at < results.len() && results[at] == r
            && r.status != 0 && forall|j: int| 0 <= j < at ==> (#[trigger] results[j]).status == 0,
    decreases results.len() - i,
{
    if i < results.len() && results[i].status == 0 {
        failure_from(results, i + 1)
    } else {
        i
    }
}

/// A looked-up handle is the one that the reply's first answer to that question holds.
pub proof fn first_handle_counts(results: Seq<rpc::ResultModel>, i: int) -> (at: int)
    requires
        0 <= i <= results.len(),
    ensures
        first_handle(results, i) matches Some(h) ==> i <= at < results.len() && results[at].op == 10
            && results[at].filehandle == Some(h) && forall|j: int|
            i <= j < at ==> (#[trigger] results[j]).op != 10 || results[j].filehandle is None,
        first_handle(results, i) is None <==> forall|j: int|
            i <= j < results.len() ==> (#[trigger] results[j]).op != 10 || results[j].filehandle
                is None,
    decreases results.len() - i,
{
    if i < results.len() && !(results[i].op == 10 && results[i].filehandle is Some) {
        first_handle_counts(results, i + 1)
    } else {
        i
    }
}

/// A lookup gives a handle exactly where the reply succeeded and holds one.
pub proof fn lookup_gives_a_handle(reply: rpc::ReplyModel, rel: Seq<char>)
    ensures
        handle_in(reply, rel) is Ok <==> reply.status == 0 && first_handle(reply.results, 0)
            is Some,
        handle_in(reply, rel) matches Ok(h) ==> first_handle(reply.results, 0) == Some(h),
        reply.status != 0 ==> handle_in(reply, rel) == Err::<Seq<u8>, NfsFault>(
            NfsFault::Nfs4Error(
                reply.status,
                "LOOKUP for "@ + path::debug_text(rel) + " failed: "@ + rpc::error_name(
                    reply.status,
                ),
            ),
        ),
        reply.status == 0 && first_handle(reply.results, 0) is None ==> handle_in(reply, rel)
            == Err::<Seq<u8>, NfsFault>(
            NfsFault::SessionFailed("GETFH not found in reply for "@ + path::debug_text(rel)),
        ),
{
}

/// Where every name was looked up and every attribute read, every name has its entry, in
/// order.
pub proof fn every_name_is_told(
    names: Seq<Seq<char>>,
    results: Seq<rpc::ResultModel>,
    i: int,
)
    requires
        0 <= i <= names.len(),
        results.len() == 2 + 2 * names.len(),
        forall|j: int| 2 <= j < results.len() ==> (#[trigger] results[j]).status == 0,
        forall|j: int|
            0 <= j < names.len() ==> results[3 + 2 * j].size is Some && (#[trigger] results[3 + 2
                * j]).mtime is Some,
    ensures
        stats_from(names, results, i).len() == names.len() - i,
        forall|j: int|
            i <= j < names.len() ==> {
                let e = #[trigger] stats_from(names, results, i)[j - i];
                let r = results[3 + 2 * j];
                let t = r.mtime->0;
                e == (names[j], r.size->0, t.0, t.1)
            },
    decreases names.len() - i,
{
    if i < names.len() {
        every_name_is_told(names, results, i + 1);
        let k = 2 + 2 * i;
        assert(results[k].status == 0);
        assert(results[k + 1].status == 0);
        assert(results[3 + 2 * i].mtime is Some);
        let first = stat_entry(names[i], results[k + 1]);
        let rest = stats_from(names, results, i + 1);
        assert(stats_from(names, results, i) == first + rest);
        assert forall|j: int| i <= j < names.len() implies {
            let e = #[trigger] stats_from(names, results, i)[j - i];
            let r = results[3 + 2 * j];
            let t = r.mtime->0;
            e == (names[j], r.size->0, t.0, t.1)
        } by {
            if j > i {
                assert(rest[j - (i + 1)] == stats_from(names, results, i)[j - i]);
            }
        }
    }
}

/// A name that was not found has no entry, and keeps none of the others from theirs; nor
/// has one whose attributes were not all told.
pub proof fn missing_name_is_left_out(
    names: Seq<Seq<char>>,
    results: Seq<rpc::ResultModel>,
    i: int,
)
    requires
        0 <= i < names.len(),
        3 + 2 * i < results.len(),
    ensures
        ({
            let found = results[2 + 2 * i].status == 0 && results[3 + 2 * i].status == 0
                && results[3 + 2 * i].size is Some && results[3 + 2 * i].mtime is Some;
            let rest = stats_from(names, results, i + 1);
            let all = stats_from(names, results, i);
            &&& !found ==> all == rest
            &&& found ==> all.len() == rest.len() + 1 && all.drop_first() == rest && {
                let t = results[3 + 2 * i].mtime->0;
                all[0] == (names[i], results[3 + 2 * i].size->0, t.0, t.1)
            }
        }),
{
    let rest = stats_from(names, results, i + 1);
    let all = stats_from(names, results, i);
    assert(Seq::<(Seq<char>, u64, i64, i64)>::empty() + rest =~= rest);
    if all.len() == rest.len() + 1 {
        assert(all.drop_first() =~= rest);
    }
}

/// A step of setting up a session has failed exactly where its reply cannot be read or
/// says so, and says which step it was.
pub proof fn failed_step_is_told(data: Seq<u8>, step: Seq<char>)
    ensures
        step_fault(data, step) is None <==> (rpc::reply_of(data) is Ok && rpc::reply_of(
            data,
        )->Ok_0.status == 0),
        rpc::reply_of(data) matches Err(f) ==> step_fault(data, step) == Some(f),
        rpc::reply_of(data) matches Ok(m) ==> m.status != 0 ==> step_fault(data, step) == Some(
            NfsFault::SessionFailed(
                step + " failed: "@ + rpc::error_name(m.status) + " ("@ + text::decimal(
                    m.status as nat,
                ) + ")"@,
            ),
        ),
{
}

/// A session is asked for with room for the largest write in one direction, one slot, and
/// none for calls back.
pub proof fn session_is_asked_for(
    xid: u32,
    uid: u32,
    gid: u32,
    machine: Seq<char>,
    client_id: u64,
    verifier: u64,
    pid: u32,
)
    ensures
        ({
            let fore = seq![0u32, 16_781_312, 1_048_576, 4096, 16, 1, 0];
            let back = seq![0u32, 4096, 4096, 0, 2, 0, 0];
            create_session_message(xid, uid, gid, machine, client_id) == rpc::framed(
                rpc::compound_head(xid, "csess"@, uid, gid, machine, 1) + bytes::be32(43)
                    + bytes::be64(client_id) + bytes::be32(1) + bytes::be32(0) + (bytes::be32(
                    fore[0],
                ) + bytes::be32(fore[1]) + bytes::be32(fore[2]) + bytes::be32(fore[3])
                    + bytes::be32(fore[4]) + bytes::be32(fore[5]) + bytes::be32(fore[6])) + (
                bytes::be32(back[0]) + bytes::be32(back[1]) + bytes::be32(back[2]) + bytes::be32(
                    back[3],
                ) + bytes::be32(back[4]) + bytes::be32(back[5]) + bytes::be32(back[6]))
                    + bytes::be32(0x4000_0000) + bytes::be32(1) + bytes::be32(1) + rpc::sys_cred(
                    uid,
                    gid,
                    machine,
                ),
            )
        }),
        exchange_id_message(xid, uid, gid, machine, verifier, pid) == rpc::framed(
            rpc::compound_head(xid, "exid"@, uid, gid, machine, 1) + bytes::be32(42) + bytes::be64(
                verifier,
            ) + xdr::xdr_opaque(
                vstd::utf8::encode_utf8(
                    "foxing."@ + machine + "."@ + text::decimal(pid as nat),
                ),
            ) + bytes::be32(1) + bytes::be32(0) + bytes::be32(0),
        ),
        open_owner(pid) == vstd::utf8::encode_utf8("foxing-"@ + text::decimal(pid as nat)),
        no_handles() == Map::<Seq<char>, Seq<u8>>::empty(),
{
}

/// A directory is looked up name by name, and of each name the attributes are asked for
/// right behind it.
pub proof fn names_are_asked_for_in_order(names: Seq<Seq<char>>, n: nat)
    requires
        n <= names.len(),
    ensures
        lookups(names, n) == names.take(n as int).map_values(
            |name: Seq<char>| rpc::lookup_bytes(name),
        ).flatten(),
        stat_queries(names, n) == names.take(n as int).map_values(
            |name: Seq<char>|
                rpc::lookup_bytes(name) + rpc::getattr_bytes(seq![0x10u32, 0x20_0000u32]),
        ).flatten(),
{
    lookups_are_flat(names, n, |name: Seq<char>| rpc::lookup_bytes(name));
    queries_are_flat(
        names,
        n,
        |name: Seq<char>|
            rpc::lookup_bytes(name) + rpc::getattr_bytes(seq![0x10u32, 0x20_0000u32]),
    );
}

proof fn lookups_are_flat(names: Seq<Seq<char>>, n: nat, f: spec_fn(Seq<char>) -> Seq<u8>)
    requires
        n <= names.len(),
        forall|name: Seq<char>| #[trigger] f(name) == rpc::lookup_bytes(name),
    ensures
        lookups(names, n) == names.take(n as int).map_values(f).flatten(),
    decreases n,
{
    let m = names.take(n as int).map_values(f);
    m.lemma_flatten_and_flatten_alt_are_equivalent();
    if n > 0 {
        lookups_are_flat(names, (n - 1) as nat, f);
        let before = names.take(n - 1).map_values(f);
        before.lemma_flatten_and_flatten_alt_are_equivalent();
        assert(m.drop_last() =~= before);
        assert(m.last() == f(names[n - 1]));
    } else {
        assert(m =~= Seq::empty());
    }
}

proof fn queries_are_flat(names: Seq<Seq<char>>, n: nat, f: spec_fn(Seq<char>) -> Seq<u8>)
    requires
        n <= names.len(),
        forall|name: Seq<char>| #[trigger]
            f(name) == rpc::lookup_bytes(name) + rpc::getattr_bytes(seq![0x10u32, 0x20_0000u32]),
    ensures
        stat_queries(names, n) == names.take(n as int).map_values(f).flatten(),
    decreases n,
{
    let m = names.take(n as int).map_values(f);
    m.lemma_flatten_and_flatten_alt_are_equivalent();
    if n > 0 {
        queries_are_flat(names, (n - 1) as nat, f);
        let before = names.take(n - 1).map_values(f);
        before.lemma_flatten_and_flatten_alt_are_equivalent();
        assert(m.drop_last() =~= before);
        assert(m.last() == f(names[n - 1]));
        assert(rpc::STAT_REQUEST@ =~= seq![0x10u32, 0x20_0000u32]);
        assert(stat_queries(names, n) =~= stat_queries(names, (n - 1) as nat) + f(names[n - 1]));
    } else {
        assert(m =~= Seq::empty());
    }
}

/// What is known of a directory is what the cache holds of it, and a directory inside the
/// mount has more components than the mount's point, of which the first are its own.
pub proof fn cache_knows_what_it_holds(c: NfsCompoundClient, dir: Seq<char>)
    ensures
        c.known(dir) is Some <==> handles_in(c.dir_handle_cache).contains_key(path::spelled(dir)),
        c.known(dir) matches Some(h) ==> handles_in(c.dir_handle_cache)[path::spelled(dir)] == h,
        c.is_inside(dir) <==> path::components(c.server_info.mount_point@).is_prefix_of(
            path::components(dir),
        ) && path::components(dir) != path::components(c.server_info.mount_point@),
{
    path::under_is_longer(dir, c.server_info.mount_point@);
    let x = path::components(dir);
    let y = path::components(c.server_info.mount_point@);
    if path::is_under(dir, c.server_info.mount_point@) && x.len() == y.len() {
        assert(x.subrange(0, x.len() as int) =~= x);
    }
}

/// The directory to look up next is the directory itself, unless one above it inside the
/// mount is still unknown.
pub proof fn next_step_is_the_highest_unknown(c: NfsCompoundClient, dir: Seq<char>)
    requires
        c.known(dir) is None,
    ensures
        path::parent(dir) is None || !c.is_inside(path::parent(dir)->0) || c.known(
            path::parent(dir)->0,
        ) is Some ==> c.step_towards(dir) == Some(dir),
        path::parent(dir) is Some && c.is_inside(path::parent(dir)->0) && c.known(
            path::parent(dir)->0,
        ) is None ==> c.step_towards(dir) == c.step_towards(path::parent(dir)->0),
{
    if path::parent(dir) is Some {
        c.steps_go_down(path::parent(dir)->0);
    }
}

/// Each call has the next number, and each call in the session the next place in it; all
/// else stays.
pub proof fn calls_are_numbered(c: NfsCompoundClient, tag: Seq<char>, count: u32)
    ensures
        c.advanced().xid_counter == if c.xid_counter == u32::MAX {
            0u32
        } else {
            (c.xid_counter + 1) as u32
        },
        c.advanced().sequence_id == if c.sequence_id == u32::MAX {
            0u32
        } else {
            (c.sequence_id + 1) as u32
        },
        c.advanced().session_id == c.session_id,
        c.advanced().client_id == c.client_id,
        c.advanced().server_info == c.server_info,
        c.advanced().dir_handle_cache == c.dir_handle_cache,
        c.advanced().uid == c.uid && c.advanced().gid == c.gid && c.advanced().machine == c.machine,
        c.head(tag, count) == rpc::compound_head(
            c.xid_counter,
            tag,
            c.uid,
            c.gid,
            c.machine@,
            count,
        ),
        forall|id: Seq<u8>, n: u32| #[trigger]
            sequence_of(id, n) == rpc::sequence_bytes(id, n, 0, 0, false),
{
}

/// What is told of files stands for their own names, sizes and times, each at its place.
pub proof fn stats_keep_their_places(v: Seq<FileStat>)
    ensures
        stat_models(v).len() == v.len(),
        forall|i: int|
            0 <= i < v.len() ==> #[trigger] stat_models(v)[i] == (
                v[i].name@,
                v[i].size,
                v[i].mtime_sec,
                v[i].mtime_nsec,
            ),
{
}

/// A file is written in one compound: in its session, from the handle of its directory, it is
/// opened under its name and with its mode, written whole from its start and safely, and
/// closed again.
pub proof fn file_is_written_in_one_call(
    c: &mut NfsCompoundClient,
    parent: &[u8],
    filename: &str,
    data: &[u8],
    mode: u32,
    uid: u32,
    gid: u32,
    mtime: (i64, i64),
    pid: u32,
    msg: Vec<u8>,
)
    requires
        call_ensures(
            NfsCompoundClient::write_file,
            (c, parent, filename, data, mode, uid, gid, mtime, pid),
            msg,
        ),
    ensures
        ({
            let state = (1u32, bytes::zeros(12));
            msg@ == rpc::framed(
                rpc::compound_head(
                    old(c).xid_counter,
                    "fxcp"@,
                    old(c).uid,
                    old(c).gid,
                    old(c).machine@,
                    6,
                ) + (rpc::sequence_bytes(old(c).session_id@, old(c).sequence_id, 0, 0, false)
                    + rpc::putfh_bytes(parent@) + rpc::open_bytes(
                    0,
                    2,
                    0,
                    old(c).client_id,
                    vstd::utf8::encode_utf8("foxing-"@ + text::decimal(pid as nat)),
                    filename@,
                    mode,
                ) + rpc::write_bytes(state, 0, WriteStable::FileSync, data@) + rpc::setattr_bytes(
                    state,
                    None,
                ) + rpc::close_bytes(1, state)),
            )
        }),
        final(c).session_id == old(c).session_id && final(c).client_id == old(c).client_id,
{
}

/// A write has been accepted exactly where the reply can be read and says that all went well.
pub proof fn accepted_write_went_well(
    c: &NfsCompoundClient,
    data: &[u8],
    filename: &str,
    res: Result<(), NfsError>,
)
    requires
        call_ensures(NfsCompoundClient::accept_write, (c, data, filename), res),
    ensures
        res is Ok <==> rpc::reply_of(data@) is Ok && rpc::reply_of(data@)->Ok_0.status == 0
            && forall|i: int|
            0 <= i < rpc::reply_of(data@)->Ok_0.results.len() ==> (#[trigger] rpc::reply_of(
                data@,
            )->Ok_0.results[i]).status == 0,
{
    if rpc::reply_of(data@) is Ok {
        write_fails_with_its_first_failure(rpc::reply_of(data@)->Ok_0, filename@);
    }
}

/// A handle that was looked up is known from then on, and no other is touched; an
/// invalidated one is not known any more.
pub proof fn found_handle_is_remembered(
    c: &mut NfsCompoundClient,
    dir: &str,
    data: &[u8],
    res: Result<Vec<u8>, NfsError>,
    d: &mut NfsCompoundClient,
    other: Seq<char>,
)
    requires
        call_ensures(NfsCompoundClient::accept_lookup, (c, dir, data), res),
        call_ensures(NfsCompoundClient::invalidate_handle, (d, dir), ()),
    ensures
        res matches Ok(h) ==> final(c).known(dir@) == Some(h@),
        path::spelled(other) != path::spelled(dir@) ==> final(c).known(other) == old(c).known(other),
        res is Err ==> *final(c) == *old(c),
        final(d).known(dir@) is None,
        path::spelled(other) != path::spelled(dir@) ==> final(d).known(other) == old(d).known(other),
{
}

/// A write is tried again only in the grace period, three times in all; any other failure
/// is final.
pub proof fn grace_is_waited_for(attempt: u32, result: Result<(), NfsError>, next: AfterWrite)
    requires
        call_ensures(after_write, (attempt, result), next),
        attempt < u32::MAX,
    ensures
        ({
            let grace = result is Err && result->Err_0 is Nfs4Error && result->Err_0->code == 10013;
            &&& next is Done <==> result is Ok
            &&& next is Retry <==> grace && attempt < 2
            &&& next is Failed <==> result is Err && !(grace && attempt < 2)
            &&& result is Err && !grace ==> next->Failed_0@ == result->Err_0@
        }),
{
}

/// A fragment's mark tells its length and whether it is the last; one that is too long is
/// refused.
pub proof fn marks_tell_fragments(r: &mut ReplyReader, mark: &[u8; 4], res: Result<usize, NfsError>)
    requires
        call_ensures(ReplyReader::on_mark, (r, mark), res),
    ensures
        ({
            let m = bytes::be32_value(mark@);
            let length = m & 0x7FFF_FFFFu32;
            &&& res is Ok <==> length <= 16_781_312
            &&& res matches Ok(n) ==> n == length && (final(r).last <==> m >= 0x8000_0000u32)
            &&& res is Err ==> *final(r) == *old(r)
        }),
{
    let m = bytes::be32_value(mark@);
    assert((m & 0x8000_0000u32 != 0) == (m >= 0x8000_0000u32)) by (bit_vector);
}

} // verus!
