//! NFSv4.2 compound calls and replies on the wire: ONC RPC framing, the
//! operations that create and inspect files, and enough of the replies to tell
//! what became of each operation.

use crate::bytes;
use crate::nfs::xdr;
use crate::nfs::xdr::{XdrDecoder, XdrEncoder, XdrError};
use crate::nfs::{NfsError, NfsFault};
use crate::text;
use vstd::prelude::*;

verus! {

// Operation codes (RFC 8881).
pub const OP_SEQUENCE: u32 = 53;

pub const OP_PUTFH: u32 = 22;

pub const OP_OPEN: u32 = 18;

pub const OP_WRITE: u32 = 38;

pub const OP_SETATTR: u32 = 34;

pub const OP_CLOSE: u32 = 4;

pub const OP_GETATTR: u32 = 9;

pub const OP_EXCHANGE_ID: u32 = 42;

pub const OP_CREATE_SESSION: u32 = 43;

pub const OP_DESTROY_SESSION: u32 = 44;

pub const OP_PUTROOTFH: u32 = 24;

pub const OP_LOOKUP: u32 = 15;

pub const OP_GETFH: u32 = 10;

pub const OP_RECLAIM_COMPLETE: u32 = 58;

// Status codes.
pub const NFS4_OK: u32 = 0;

pub const NFS4ERR_STALE: u32 = 70;

pub const NFS4ERR_NOENT: u32 = 2;

pub const NFS4ERR_EXIST: u32 = 17;

pub const NFS4ERR_ACCESS: u32 = 13;

pub const NFS4ERR_DELAY: u32 = 10008;

pub const NFS4ERR_BADSESSION: u32 = 10052;

pub const NFS4ERR_BADSEQ: u32 = 10026;

pub const NFS4ERR_SEQ_MISORDERED: u32 = 10063;

// ONC RPC.
pub const RPC_VERSION: u32 = 2;

pub const NFS_PROGRAM: u32 = 100003;

pub const NFS_V4: u32 = 4;

pub const NFSPROC4_COMPOUND: u32 = 1;

pub const NFSPROC4_NULL: u32 = 0;

pub const AUTH_SYS: u32 = 1;

pub const AUTH_NONE: u32 = 0;

// OPEN.
pub const OPEN4_SHARE_ACCESS_READ: u32 = 0x00000001;

pub const OPEN4_SHARE_ACCESS_WRITE: u32 = 0x00000002;

pub const OPEN4_SHARE_ACCESS_BOTH: u32 = 0x00000003;

pub const OPEN4_SHARE_DENY_NONE: u32 = 0x00000000;

pub const CLAIM_NULL: u32 = 0;

pub const OPEN4_CREATE: u32 = 1;

pub const OPEN4_NOCREATE: u32 = 0;

pub const CREATEMODE4_UNCHECKED: u32 = 0;

// WRITE.
pub const UNSTABLE4: u32 = 0;

pub const DATA_SYNC4: u32 = 1;

pub const FILE_SYNC4: u32 = 2;

// Positions in the attribute bitmap.
pub const FATTR4_SIZE: u32 = 4;

pub const FATTR4_MODE: u32 = 33;

pub const FATTR4_OWNER: u32 = 36;

pub const FATTR4_OWNER_GROUP: u32 = 37;

pub const FATTR4_TIME_MODIFY_SET: u32 = 52;

pub const FATTR4_TIME_MODIFY: u32 = 53;

// Bitmap words with one attribute in them.
pub const SIZE_WORD0: u32 = 0x10;

pub const MODE_WORD1: u32 = 0x2;

pub const TIME_MODIFY_WORD1: u32 = 0x20_0000;

// RPC reply status.
pub const MSG_ACCEPTED: u32 = 0;

pub const SUCCESS: u32 = 0;

/// The marks of the last fragment of a record, ahead of its length.
pub const LAST_FRAGMENT: u32 = 0x8000_0000;

/// The attributes that a size-and-time query asks for: the size, and the time
/// of the last modification.
pub const STAT_REQUEST: [u32; 2] = [0x10, 0x20_0000];

/// A state identifier: what OPEN hands out, and WRITE, SETATTR and CLOSE use.
#[derive(Debug, Clone, Copy)]
pub struct StateId {
    pub seqid: u32,
    pub other: [u8; 12],
}

impl Default for StateId {
    fn default() -> (s: Self)
        ensures
            s.seqid == 0,
            s.other@ == bytes::zeros(12),
    {
        let s = StateId { seqid: 0, other: [0u8;12] };
        assert(s.other@ =~= bytes::zeros(12));
        s
    }
}

impl StateId {
    /// The "current stateid" special value (RFC 8881): the server takes the state
    /// of the most recent stateful operation (OPEN) in the same compound.
    pub fn current() -> (s: Self)
        ensures
            s.model() == current_state(),
    {
        let s = StateId { seqid: 1, other: [0u8;12] };
        assert(s.other@ =~= current_state().1);
        s
    }

    /// The sequence number and the opaque part.
    pub open spec fn model(self) -> (u32, Seq<u8>) {
        (self.seqid, self.other@)
    }
}

/// The "current stateid": the sequence number one, and zeros for the rest.
pub open spec fn current_state() -> (u32, Seq<u8>) {
    (1, bytes::zeros(12))
}

/// How durable a write is before the server answers.
#[derive(Debug, Clone, Copy, PartialEq, Eq, Structural)]
pub enum WriteStable {
    Unstable,
    DataSync,
    FileSync,
}

/// One operation of a compound call.
#[derive(Debug, Clone)]
pub enum Nfs4Op {
    Sequence {
        session_id: [u8; 16],
        sequence_id: u32,
        slot_id: u32,
        highest_slot_id: u32,
        cache_this: bool,
    },
    PutFh { handle: Vec<u8> },
    PutRootFh,
    Lookup { name: String },
    Open {
        seqid: u32,
        share_access: u32,
        share_deny: u32,
        clientid: u64,
        owner: Vec<u8>,
        filename: String,
        mode: u32,
    },
    Write { stateid: StateId, offset: u64, stable: WriteStable, data: Vec<u8> },
    SetAttr {
        stateid: StateId,
        mode: Option<u32>,
        uid: Option<u32>,
        gid: Option<u32>,
        mtime: Option<(i64, i64)>,
    },
    Close { seqid: u32, stateid: StateId },
    GetAttr { attr_request: [u32; 2] },
    GetFh,
    /// There is no state to reclaim: ends the grace period for this session.
    ReclaimComplete,
}

/// The credentials of a user on a machine, for the AUTH_SYS flavor.
pub open spec fn sys_cred(uid: u32, gid: u32, machine: Seq<char>) -> Seq<u8> {
    bytes::be32(0) + xdr::xdr_opaque(vstd::utf8::encode_utf8(machine)) + bytes::be32(uid)
        + bytes::be32(gid) + bytes::be32(1) + bytes::be32(gid)
}

/// The flavor and the credentials as opaque data.
pub open spec fn auth_sys(uid: u32, gid: u32, machine: Seq<char>) -> Seq<u8> {
    bytes::be32(AUTH_SYS) + xdr::xdr_opaque(sys_cred(uid, gid, machine))
}

/// A state identifier on the wire.
pub open spec fn state_bytes(s: (u32, Seq<u8>)) -> Seq<u8> {
    bytes::be32(s.0) + xdr::xdr_fixed(s.1)
}

/// The number of a stability level.
pub open spec fn stable_code(s: WriteStable) -> u32 {
    match s {
        WriteStable::Unstable => UNSTABLE4,
        WriteStable::DataSync => DATA_SYNC4,
        WriteStable::FileSync => FILE_SYNC4,
    }
}

/// SEQUENCE on the wire.
pub open spec fn sequence_bytes(
    session_id: Seq<u8>,
    sequence_id: u32,
    slot_id: u32,
    highest_slot_id: u32,
    cache_this: bool,
) -> Seq<u8> {
    bytes::be32(OP_SEQUENCE) + xdr::xdr_fixed(session_id) + bytes::be32(sequence_id) + bytes::be32(
        slot_id,
    ) + bytes::be32(highest_slot_id) + bytes::be32(
        if cache_this {
            1u32
        } else {
            0u32
        },
    )
}

/// PUTFH on the wire.
pub open spec fn putfh_bytes(handle: Seq<u8>) -> Seq<u8> {
    bytes::be32(OP_PUTFH) + xdr::xdr_opaque(handle)
}

/// LOOKUP on the wire.
pub open spec fn lookup_bytes(name: Seq<char>) -> Seq<u8> {
    bytes::be32(OP_LOOKUP) + xdr::xdr_opaque(vstd::utf8::encode_utf8(name))
}

/// OPEN on the wire: creates the file unchecked with the low twelve bits of
/// `mode`.
pub open spec fn open_bytes(
    seqid: u32,
    share_access: u32,
    share_deny: u32,
    clientid: u64,
    owner: Seq<u8>,
    filename: Seq<char>,
    mode: u32,
) -> Seq<u8> {
    bytes::be32(OP_OPEN) + bytes::be32(seqid) + bytes::be32(share_access) + bytes::be32(share_deny)
        + bytes::be64(clientid) + xdr::xdr_opaque(owner) + bytes::be32(OPEN4_CREATE) + bytes::be32(
        CREATEMODE4_UNCHECKED,
    ) + bytes::be32(2) + bytes::be32(0) + bytes::be32(MODE_WORD1) + xdr::xdr_opaque(
        bytes::be32(mode & 0o7777),
    ) + bytes::be32(CLAIM_NULL) + xdr::xdr_opaque(vstd::utf8::encode_utf8(filename))
}

/// WRITE on the wire.
pub open spec fn write_bytes(
    state: (u32, Seq<u8>),
    offset: u64,
    stable: WriteStable,
    data: Seq<u8>,
) -> Seq<u8> {
    bytes::be32(OP_WRITE) + state_bytes(state) + bytes::be64(offset) + bytes::be32(
        stable_code(stable),
    ) + xdr::xdr_opaque(data)
}

/// SETATTR on the wire: it carries the mode and nothing else.
pub open spec fn setattr_bytes(state: (u32, Seq<u8>), mode: Option<u32>) -> Seq<u8> {
    bytes::be32(OP_SETATTR) + state_bytes(state) + bytes::be32(2) + bytes::be32(0) + bytes::be32(
        if mode is Some {
            MODE_WORD1
        } else {
            0
        },
    ) + xdr::xdr_opaque(
        match mode {
            Some(m) => bytes::be32(m),
            None => Seq::empty(),
        },
    )
}

/// CLOSE on the wire.
pub open spec fn close_bytes(seqid: u32, state: (u32, Seq<u8>)) -> Seq<u8> {
    bytes::be32(OP_CLOSE) + bytes::be32(seqid) + state_bytes(state)
}

/// GETATTR on the wire.
pub open spec fn getattr_bytes(request: Seq<u32>) -> Seq<u8> {
    bytes::be32(OP_GETATTR) + bytes::be32(2) + bytes::be32(request[0]) + bytes::be32(request[1])
}

/// RECLAIM_COMPLETE on the wire, for all file systems.
pub open spec fn reclaim_bytes() -> Seq<u8> {
    bytes::be32(OP_RECLAIM_COMPLETE) + bytes::be32(0)
}

/// One operation on the wire: its code, then its arguments.
pub open spec fn op_bytes(op: Nfs4Op) -> Seq<u8> {
    match op {
        Nfs4Op::Sequence { session_id, sequence_id, slot_id, highest_slot_id, cache_this } => {
            sequence_bytes(session_id@, sequence_id, slot_id, highest_slot_id, cache_this)
        },
        Nfs4Op::PutFh { handle } => putfh_bytes(handle@),
        Nfs4Op::PutRootFh => bytes::be32(OP_PUTROOTFH),
        Nfs4Op::Lookup { name } => lookup_bytes(name@),
        Nfs4Op::Open { seqid, share_access, share_deny, clientid, owner, filename, mode } => {
            open_bytes(seqid, share_access, share_deny, clientid, owner@, filename@, mode)
        },
        Nfs4Op::Write { stateid, offset, stable, data } => {
            write_bytes(stateid.model(), offset, stable, data@)
        },
        Nfs4Op::SetAttr { stateid, mode, .. } => setattr_bytes(stateid.model(), mode),
        Nfs4Op::Close { seqid, stateid } => close_bytes(seqid, stateid.model()),
        Nfs4Op::GetAttr { attr_request } => getattr_bytes(attr_request@),
        Nfs4Op::GetFh => bytes::be32(OP_GETFH),
        Nfs4Op::ReclaimComplete => reclaim_bytes(),
    }
}

/// The first `n` operations on the wire, one after the other.
pub open spec fn ops_bytes(ops: Seq<Nfs4Op>, n: nat) -> Seq<u8>
    decreases n,
{
    if n == 0 {
        Seq::empty()
    } else {
        ops_bytes(ops, (n - 1) as nat) + op_bytes(ops[n - 1])
    }
}

/// The RPC header of a call of procedure `procedure` of the NFSv4 program.
pub open spec fn call_header(xid: u32, procedure: u32) -> Seq<u8> {
    bytes::be32(xid) + bytes::be32(0) + bytes::be32(RPC_VERSION) + bytes::be32(NFS_PROGRAM)
        + bytes::be32(NFS_V4) + bytes::be32(procedure)
}

/// The head of a compound call: RPC header, credentials, empty verifier, tag,
/// minor version, number of operations.
pub open spec fn compound_head(
    xid: u32,
    tag: Seq<char>,
    uid: u32,
    gid: u32,
    machine: Seq<char>,
    count: u32,
) -> Seq<u8> {
    call_header(xid, NFSPROC4_COMPOUND) + auth_sys(uid, gid, machine) + bytes::be32(AUTH_NONE)
        + bytes::be32(0) + xdr::xdr_opaque(vstd::utf8::encode_utf8(tag)) + bytes::be32(2)
        + bytes::be32(count)
}

/// A message in one fragment: the mark of a last fragment with the length of the
/// body, then the body.
pub open spec fn framed(body: Seq<u8>) -> Seq<u8> {
    bytes::be32(LAST_FRAGMENT | (body.len() as u32)) + body
}

/// Puts a body into one fragment.
pub fn frame(body: &[u8]) -> (msg: Vec<u8>)
    ensures
        msg@ == framed(body@),
{
    let mark: u32 = LAST_FRAGMENT | (body.len() as u32);
    let mut msg: Vec<u8> = Vec::new();
    bytes::put_be32(&mut msg, mark);
    bytes::put_slice(&mut msg, body);
    assert(msg@ =~= framed(body@));
    msg
}

/// Appends AUTH_SYS credentials.
pub fn encode_auth_sys(enc: &mut XdrEncoder, uid: u32, gid: u32, machine: &str)
    ensures
        final(enc)@ == old(enc)@ + auth_sys(uid, gid, machine@),
{
    let ghost before = enc@;
    enc.encode_u32(AUTH_SYS);
    let mut body = XdrEncoder::new(64);
    body.encode_u32(0);
    body.encode_string(machine);
    body.encode_u32(uid);
    body.encode_u32(gid);
    body.encode_u32(1);
    body.encode_u32(gid);
    assert(body@ =~= sys_cred(uid, gid, machine@));
    let cred = body.into_bytes();
    enc.encode_opaque(cred.as_slice());
    assert(enc@ =~= before + auth_sys(uid, gid, machine@));
}

/// Appends the head of a compound call of `count` operations.
pub fn encode_head(
    enc: &mut XdrEncoder,
    xid: u32,
    tag: &str,
    uid: u32,
    gid: u32,
    machine: &str,
    count: u32,
)
    requires
        old(enc)@.len() == 0,
    ensures
        final(enc)@ == compound_head(xid, tag@, uid, gid, machine@, count),
{
    enc.encode_u32(xid);
    enc.encode_u32(0);
    enc.encode_u32(RPC_VERSION);
    enc.encode_u32(NFS_PROGRAM);
    enc.encode_u32(NFS_V4);
    enc.encode_u32(NFSPROC4_COMPOUND);
    assert(enc@ =~= call_header(xid, NFSPROC4_COMPOUND));
    encode_auth_sys(enc, uid, gid, machine);
    enc.encode_u32(AUTH_NONE);
    enc.encode_u32(0);
    enc.encode_string(tag);
    enc.encode_u32(2);
    enc.encode_u32(count);
}

/// Appends a state identifier.
fn encode_state(enc: &mut XdrEncoder, s: &StateId)
    ensures
        final(enc)@ == old(enc)@ + state_bytes(s.model()),
{
    let ghost before = enc@;
    enc.encode_u32(s.seqid);
    enc.encode_opaque_fixed(s.other.as_slice());
    assert(enc@ =~= before + state_bytes(s.model()));
}

/// Appends an OPEN.
fn encode_open(
    enc: &mut XdrEncoder,
    seqid: u32,
    share_access: u32,
    share_deny: u32,
    clientid: u64,
    owner: &[u8],
    filename: &str,
    mode: u32,
)
    ensures
        final(enc)@ == old(enc)@ + open_bytes(
            seqid,
            share_access,
            share_deny,
            clientid,
            owner@,
            filename@,
            mode,
        ),
{
    let ghost before = enc@;
    enc.encode_u32(OP_OPEN);
    enc.encode_u32(seqid);
    enc.encode_u32(share_access);
    enc.encode_u32(share_deny);
    enc.encode_u64(clientid);
    enc.encode_opaque(owner);
    enc.encode_u32(OPEN4_CREATE);
    enc.encode_u32(CREATEMODE4_UNCHECKED);
    enc.encode_u32(2);
    enc.encode_u32(0);
    enc.encode_u32(MODE_WORD1);
    let mut attr = XdrEncoder::new(8);
    attr.encode_u32(mode & 0o7777);
    assert(attr@ =~= bytes::be32(mode & 0o7777));
    let attr_bytes = attr.into_bytes();
    enc.encode_opaque(attr_bytes.as_slice());
    enc.encode_u32(CLAIM_NULL);
    enc.encode_string(filename);
    assert(enc@ =~= before + open_bytes(
        seqid,
        share_access,
        share_deny,
        clientid,
        owner@,
        filename@,
        mode,
    ));
}

/// Appends one operation.
pub fn encode_op(enc: &mut XdrEncoder, op: &Nfs4Op)
    ensures
        final(enc)@ == old(enc)@ + op_bytes(*op),
{
    let ghost before = enc@;
    match op {
        Nfs4Op::Sequence { session_id, sequence_id, slot_id, highest_slot_id, cache_this } => {
            enc.encode_u32(OP_SEQUENCE);
            enc.encode_opaque_fixed(session_id.as_slice());
            enc.encode_u32(*sequence_id);
            enc.encode_u32(*slot_id);
            enc.encode_u32(*highest_slot_id);
            enc.encode_bool(*cache_this);
            assert(enc@ =~= before + op_bytes(*op));
        },
        Nfs4Op::PutFh { handle } => {
            enc.encode_u32(OP_PUTFH);
            enc.encode_opaque(handle.as_slice());
            assert(enc@ =~= before + op_bytes(*op));
        },
        Nfs4Op::PutRootFh => {
            enc.encode_u32(OP_PUTROOTFH);
        },
        Nfs4Op::Lookup { name } => {
            enc.encode_u32(OP_LOOKUP);
            enc.encode_string(name);
            assert(enc@ =~= before + op_bytes(*op));
        },
        Nfs4Op::Open { seqid, share_access, share_deny, clientid, owner, filename, mode } => {
            encode_open(
                enc,
                *seqid,
                *share_access,
                *share_deny,
                *clientid,
                owner.as_slice(),
                filename,
                *mode,
            );
        },
        Nfs4Op::Write { stateid, offset, stable, data } => {
            enc.encode_u32(OP_WRITE);
            encode_state(enc, stateid);
            enc.encode_u64(*offset);
            let code: u32 = match stable {
                WriteStable::Unstable => UNSTABLE4,
                WriteStable::DataSync => DATA_SYNC4,
                WriteStable::FileSync => FILE_SYNC4,
            };
            enc.encode_u32(code);
            enc.encode_opaque(data.as_slice());
            assert(enc@ =~= before + op_bytes(*op));
        },
        Nfs4Op::SetAttr { stateid, mode, .. } => {
            enc.encode_u32(OP_SETATTR);
            encode_state(enc, stateid);
            enc.encode_u32(2);
            enc.encode_u32(0);
            let mut attr = XdrEncoder::new(32);
            match mode {
                Some(m) => {
                    enc.encode_u32(MODE_WORD1);
                    attr.encode_u32(*m);
                    assert(attr@ =~= bytes::be32(*m));
                },
                None => {
                    enc.encode_u32(0);
                },
            }
            let attr_bytes = attr.into_bytes();
            enc.encode_opaque(attr_bytes.as_slice());
            assert(enc@ =~= before + op_bytes(*op));
        },
        Nfs4Op::Close { seqid, stateid } => {
            enc.encode_u32(OP_CLOSE);
            enc.encode_u32(*seqid);
            encode_state(enc, stateid);
            assert(enc@ =~= before + op_bytes(*op));
        },
        Nfs4Op::GetAttr { attr_request } => {
            enc.encode_u32(OP_GETATTR);
            enc.encode_u32(2);
            enc.encode_u32(attr_request[0]);
            enc.encode_u32(attr_request[1]);
            assert(enc@ =~= before + op_bytes(*op));
        },
        Nfs4Op::GetFh => {
            enc.encode_u32(OP_GETFH);
        },
        Nfs4Op::ReclaimComplete => {
            enc.encode_u32(OP_RECLAIM_COMPLETE);
            enc.encode_bool(false);
            assert(enc@ =~= before + op_bytes(*op));
        },
    }
}

/// Operations are put on the wire one by one, whatever follows them.
pub proof fn ops_bytes_of_prefix(a: Seq<Nfs4Op>, b: Seq<Nfs4Op>, n: nat)
    requires
        n <= a.len(),
        n <= b.len(),
        a.subrange(0, n as int) == b.subrange(0, n as int),
    ensures
        ops_bytes(a, n) == ops_bytes(b, n),
    decreases n,
{
    if n > 0 {
        let x = a.subrange(0, n as int);
        let y = b.subrange(0, n as int);
        assert(a[n - 1] == x[n - 1]);
        assert(b[n - 1] == y[n - 1]);
        assert(a.subrange(0, n - 1) =~= a.subrange(0, n as int).subrange(0, n - 1));
        assert(b.subrange(0, n - 1) =~= b.subrange(0, n as int).subrange(0, n - 1));
        ops_bytes_of_prefix(a, b, (n - 1) as nat);
    }
}

/// The whole message of a compound call, ready to be sent.
pub open spec fn compound_message(
    xid: u32,
    tag: Seq<char>,
    uid: u32,
    gid: u32,
    machine: Seq<char>,
    ops: Seq<Nfs4Op>,
) -> Seq<u8> {
    framed(
        compound_head(xid, tag, uid, gid, machine, ops.len() as u32) + ops_bytes(ops, ops.len()),
    )
}

/// Builds the message of an NFSv4.2 COMPOUND call, record mark included.
pub fn build_compound(
    xid: u32,
    tag: &str,
    uid: u32,
    gid: u32,
    machine: &str,
    ops: &[Nfs4Op],
) -> (msg: Vec<u8>)
    ensures
        msg@ == compound_message(xid, tag@, uid, gid, machine@, ops@),
{
    let mut body = XdrEncoder::new(4096);
    encode_head(&mut body, xid, tag, uid, gid, machine, ops.len() as u32);
    let ghost head = body@;
    let mut i: usize = 0;
    assert(head + ops_bytes(ops@, 0) =~= head);
    while i < ops.len()
        invariant
            i <= ops.len(),
            body@ == head + ops_bytes(ops@, i as nat),
        decreases ops.len() - i,
    {
        encode_op(&mut body, &ops[i]);
        proof {
            assert(body@ =~= head + ops_bytes(ops@, (i + 1) as nat));
        }
        i = i + 1;
    }
    let body_bytes = body.into_bytes();
    frame(body_bytes.as_slice())
}

/// The message of a NULL call: header, empty credentials, empty verifier.
pub open spec fn null_message(xid: u32) -> Seq<u8> {
    framed(
        call_header(xid, NFSPROC4_NULL) + bytes::be32(AUTH_NONE) + bytes::be32(0) + bytes::be32(
            AUTH_NONE,
        ) + bytes::be32(0),
    )
}

/// Builds the message of a NULL call, which asks only whether the server is
/// there.
pub fn build_null_call(xid: u32) -> (msg: Vec<u8>)
    ensures
        msg@ == null_message(xid),
{
    let mut body = XdrEncoder::new(64);
    body.encode_u32(xid);
    body.encode_u32(0);
    body.encode_u32(RPC_VERSION);
    body.encode_u32(NFS_PROGRAM);
    body.encode_u32(NFS_V4);
    body.encode_u32(NFSPROC4_NULL);
    assert(body@ =~= call_header(xid, NFSPROC4_NULL));
    body.encode_u32(AUTH_NONE);
    body.encode_u32(0);
    body.encode_u32(AUTH_NONE);
    body.encode_u32(0);
    let body_bytes = body.into_bytes();
    frame(body_bytes.as_slice())
}

/// What became of one operation of a compound call.
#[derive(Debug)]
pub struct OpResult {
    pub op: u32,
    pub status: u32,
    /// For OPEN: the state identifier.
    pub stateid: Option<StateId>,
    /// For GETFH: the file handle.
    pub filehandle: Option<Vec<u8>>,
    /// For GETATTR: the size, where the server gave it.
    pub size: Option<u64>,
    /// For GETATTR: the time of the last modification in seconds and
    /// nanoseconds, where the server gave it.
    pub mtime: Option<(i64, i64)>,
}

/// An `OpResult` as plain values.
pub ghost struct ResultModel {
    pub op: u32,
    pub status: u32,
    pub stateid: Option<(u32, Seq<u8>)>,
    pub filehandle: Option<Seq<u8>>,
    pub size: Option<u64>,
    pub mtime: Option<(i64, i64)>,
}

impl View for OpResult {
    type V = ResultModel;

    open spec fn view(&self) -> ResultModel {
        ResultModel {
            op: self.op,
            status: self.status,
            stateid: match self.stateid {
                Some(s) => Some(s.model()),
                None => None,
            },
            filehandle: match self.filehandle {
                Some(h) => Some(h@),
                None => None,
            },
            size: self.size,
            mtime: self.mtime,
        }
    }
}

/// The reply to a compound call.
#[derive(Debug)]
pub struct CompoundReply {
    pub xid: u32,
    pub status: u32,
    pub tag: Vec<u8>,
    pub op_results: Vec<OpResult>,
}

/// A `CompoundReply` as plain values.
pub ghost struct ReplyModel {
    pub xid: u32,
    pub status: u32,
    pub tag: Seq<u8>,
    pub results: Seq<ResultModel>,
}

/// The views of a list of results.
pub open spec fn result_models(v: Seq<OpResult>) -> Seq<ResultModel> {
    Seq::new(v.len(), |i: int| v[i]@)
}

impl View for CompoundReply {
    type V = ReplyModel;

    open spec fn view(&self) -> ReplyModel {
        ReplyModel {
            xid: self.xid,
            status: self.status,
            tag: self.tag@,
            results: result_models(self.op_results@),
        }
    }
}

/// A result with nothing but its operation and its status.
pub open spec fn bare(op: u32, status: u32) -> ResultModel {
    ResultModel { op, status, stateid: None, filehandle: None, size: None, mtime: None }
}

/// Word `k` of a bitmap of `n` words that stands at `pos`; words beyond its end
/// are zero.
pub open spec fn bitmap_word(d: Seq<u8>, pos: int, n: u32, k: int) -> u32 {
    if k < n {
        match xdr::u32_at(d, pos + 4 * k) {
            Some(w) => w,
            None => 0,
        }
    } else {
        0
    }
}

/// The size among attribute values: they stand in the order of their bits, so
/// it comes first where no attribute with a lower bit is there.
pub open spec fn attr_size(w0: u32, vals: Seq<u8>) -> Option<u64> {
    if w0 & 0x1f == SIZE_WORD0 {
        xdr::u64_at(vals, 0)
    } else {
        None
    }
}

/// The modification time among attribute values, where nothing but the size may
/// stand before it.
pub open spec fn attr_mtime(w0: u32, w1: u32, vals: Seq<u8>) -> Option<(i64, i64)> {
    let p = if w0 == SIZE_WORD0 {
        8int
    } else {
        0
    };
    if (w0 == 0 || w0 == SIZE_WORD0) && w1 & 0x3f_ffff == TIME_MODIFY_WORD1 {
        match (xdr::u64_at(vals, p), xdr::u32_at(vals, p + 8)) {
            (Some(s), Some(n)) => Some((s as i64, n as i64)),
            _ => None,
        }
    } else {
        None
    }
}

/// What stands at some position of a reply.
pub ghost enum Parsed {
    /// The message ends before the result does.
    Cut,
    /// A result, and where the next one starts.
    Next(ResultModel, int),
    /// A result after which the message cannot be followed any further.
    Last(ResultModel),
    /// A result whose extent is unknown.
    Unknown,
}

/// The result at `pos`: operation, status, and for a status of OK what the
/// operation returns.
pub open spec fn result_at(d: Seq<u8>, pos: int) -> Parsed {
    match (xdr::u32_at(d, pos), xdr::u32_at(d, pos + 4)) {
        (Some(op), Some(status)) => if status != NFS4_OK {
            Parsed::Next(bare(op, status), pos + 8)
        } else {
            body_at(d, pos + 8, op)
        },
        _ => Parsed::Cut,
    }
}

/// A result of `n` bytes that are stepped over.
pub open spec fn skipped(d: Seq<u8>, p: int, op: u32, n: int) -> Parsed {
    if p + n <= d.len() {
        Parsed::Next(bare(op, NFS4_OK), p + n)
    } else {
        Parsed::Cut
    }
}

/// What a successful operation `op` returned, its body at `p`.
pub open spec fn body_at(d: Seq<u8>, p: int, op: u32) -> Parsed {
    if op == OP_SEQUENCE {
        skipped(d, p, op, 36)
    } else if op == OP_PUTFH || op == OP_PUTROOTFH || op == OP_LOOKUP || op == OP_RECLAIM_COMPLETE {
        Parsed::Next(bare(op, NFS4_OK), p)
    } else if op == OP_GETFH {
        match xdr::opaque_at(d, p) {
            Some(fh) => Parsed::Next(
                ResultModel { filehandle: Some(fh), ..bare(op, NFS4_OK) },
                p + 4 + fh.len() + xdr::pad_len(fh.len()),
            ),
            None => Parsed::Cut,
        }
    } else if op == OP_OPEN {
        match (xdr::u32_at(d, p), xdr::fixed_at(d, p + 4, 12)) {
            (Some(seqid), Some(other)) => Parsed::Last(
                ResultModel { stateid: Some((seqid, other)), ..bare(op, NFS4_OK) },
            ),
            _ => Parsed::Cut,
        }
    } else if op == OP_WRITE {
        skipped(d, p, op, 16)
    } else if op == OP_SETATTR {
        match xdr::u32_at(d, p) {
            Some(n) => skipped(d, p + 4, op, 4 * n),
            None => Parsed::Cut,
        }
    } else if op == OP_CLOSE {
        skipped(d, p, op, 16)
    } else if op == OP_GETATTR {
        match xdr::u32_at(d, p) {
            Some(n) => {
                let q = p + 4 + 4 * n;
                if q > d.len() {
                    Parsed::Cut
                } else {
                    match xdr::opaque_at(d, q) {
                        Some(vals) => {
                            let w0 = bitmap_word(d, p + 4, n, 0);
                            let w1 = bitmap_word(d, p + 4, n, 1);
                            Parsed::Next(
                                ResultModel {
                                    size: attr_size(w0, vals),
                                    mtime: attr_mtime(w0, w1, vals),
                                    ..bare(op, NFS4_OK)
                                },
                                q + 4 + vals.len() + xdr::pad_len(vals.len()),
                            )
                        },
                        None => Parsed::Cut,
                    }
                }
            },
            None => Parsed::Cut,
        }
    } else {
        Parsed::Unknown
    }
}

/// Up to `n` results from `pos` on. The list ends early after an OPEN, whose
/// result has more to it than is read here, and before an unknown operation.
pub open spec fn results_at(d: Seq<u8>, pos: int, n: nat) -> Option<Seq<ResultModel>>
    decreases n,
{
    if n == 0 {
        Some(Seq::empty())
    } else {
        match result_at(d, pos) {
            Parsed::Cut => None,
            Parsed::Unknown => Some(Seq::empty()),
            Parsed::Last(r) => Some(seq![r]),
            Parsed::Next(r, next) => match results_at(d, next, (n - 1) as nat) {
                Some(rest) => Some(seq![r] + rest),
                None => None,
            },
        }
    }
}

/// `acc` ahead of `rest`.
spec fn ahead(acc: Seq<ResultModel>, rest: Option<Seq<ResultModel>>) -> Option<Seq<ResultModel>> {
    match rest {
        Some(r) => Some(acc + r),
        None => None,
    }
}

pub open spec fn cut_off() -> NfsFault {
    NfsFault::XdrDecode("XDR: unexpected end of data"@)
}

/// What a compound reply without its record mark says, or what is wrong with it.
pub open spec fn reply_in(d: Seq<u8>) -> Result<ReplyModel, NfsFault> {
    match (xdr::u32_at(d, 0), xdr::u32_at(d, 4)) {
        (Some(xid), Some(kind)) => if kind != 1 {
            Err(NfsFault::RpcError("expected REPLY (1), got "@ + text::decimal(kind as nat)))
        } else {
            match xdr::u32_at(d, 8) {
                Some(stat) => if stat != MSG_ACCEPTED {
                    Err(NfsFault::RpcError("RPC rejected: "@ + text::decimal(stat as nat)))
                } else {
                    match xdr::opaque_at(d, 16) {
                        Some(verf) => accepted_in(
                            d,
                            xid,
                            20int + verf.len() + xdr::pad_len(verf.len()),
                        ),
                        None => Err(cut_off()),
                    }
                },
                None => Err(cut_off()),
            }
        },
        _ => Err(cut_off()),
    }
}

/// The reply to call `xid` from its accept status at `p` on.
pub open spec fn accepted_in(d: Seq<u8>, xid: u32, p: int) -> Result<ReplyModel, NfsFault> {
    match xdr::u32_at(d, p) {
        Some(stat) => if stat != SUCCESS {
            Err(NfsFault::RpcError("RPC accept error: "@ + text::decimal(stat as nat)))
        } else {
            match (xdr::u32_at(d, p + 4), xdr::opaque_at(d, p + 8)) {
                (Some(status), Some(tag)) => {
                    let q = p + 12 + tag.len() + xdr::pad_len(tag.len());
                    match xdr::u32_at(d, q) {
                        Some(n) => match results_at(d, q + 4, n as nat) {
                            Some(results) => Ok(ReplyModel { xid, status, tag, results }),
                            None => Err(cut_off()),
                        },
                        None => Err(cut_off()),
                    }
                },
                _ => Err(cut_off()),
            }
        },
        None => Err(cut_off()),
    }
}

/// What a compound reply says, record mark included.
pub open spec fn reply_of(data: Seq<u8>) -> Result<ReplyModel, NfsFault> {
    if data.len() < 4 {
        Err(NfsFault::XdrDecode("reply too short"@))
    } else {
        reply_in(data.subrange(4, data.len() as int))
    }
}

fn xdr_fault(e: XdrError) -> (out: NfsError)
    requires
        e == XdrError::Truncated,
    ensures
        out@ == cut_off(),
{
    NfsError::XdrDecode(e.message())
}

fn bare_result(op: u32, status: u32) -> (r: OpResult)
    ensures
        r@ == bare(op, status),
{
    OpResult { op, status, stateid: None, filehandle: None, size: None, mtime: None }
}

/// Reads the size and the modification time out of attribute values.
fn read_attrs(w0: u32, w1: u32, vals: &[u8]) -> (out: (Option<u64>, Option<(i64, i64)>))
    requires
        vals@.len() <= isize::MAX,
    ensures
        out.0 == attr_size(w0, vals@),
        out.1 == attr_mtime(w0, w1, vals@),
{
    let size: Option<u64> = if w0 & 0x1f == SIZE_WORD0 {
        let mut dec = XdrDecoder::new(vals);
        match dec.decode_u64() {
            Ok(v) => Some(v),
            Err(_) => None,
        }
    } else {
        None
    };
    let mtime: Option<(i64, i64)> = if (w0 == 0 || w0 == SIZE_WORD0) && w1 & 0x3f_ffff
        == TIME_MODIFY_WORD1 {
        let mut dec = XdrDecoder::new(vals);
        let start = if w0 == SIZE_WORD0 {
            dec.skip_raw(8)
        } else {
            Ok(())
        };
        match start {
            Ok(()) => match dec.decode_u64() {
                Ok(s) => match dec.decode_u32() {
                    Ok(n) => Some((s as i64, n as i64)),
                    Err(_) => None,
                },
                Err(_) => None,
            },
            Err(_) => None,
        }
    } else {
        None
    };
    (size, mtime)
}

/// Copies twelve bytes into an array.
fn twelve(s: &[u8]) -> (out: [u8; 12])
    requires
        s@.len() == 12,
    ensures
        out@ == s@,
{
    let out = [s[0], s[1], s[2], s[3], s[4], s[5], s[6], s[7], s[8], s[9], s[10], s[11]];
    assert(out@ =~= s@);
    out
}

/// One step of reading results.
enum Step {
    Next(OpResult),
    Last(OpResult),
    Unknown,
}

/// Reads one result; the decoder is left at the next one.
fn read_result(dec: &mut XdrDecoder<'_>) -> (res: Result<Step, XdrError>)
    requires
        old(dec).wf(),
    ensures
        final(dec).wf(),
        final(dec).bytes() == old(dec).bytes(),
        res matches Err(e) ==> e == XdrError::Truncated,
        match result_at(old(dec).bytes(), old(dec).pos()) {
            Parsed::Cut => res is Err,
            Parsed::Unknown => res matches Ok(Step::Unknown),
            Parsed::Last(r) => res matches Ok(Step::Last(x)) && x@ == r,
            Parsed::Next(r, p) => (res matches Ok(Step::Next(x)) && x@ == r) && final(dec).pos()
                == p,
        },
{
    let ghost d = dec.bytes();
    let ghost pos = dec.pos();
    let op: u32 = match dec.decode_u32() {
        Ok(v) => v,
        Err(e) => return Err(e),
    };
    let status: u32 = match dec.decode_u32() {
        Ok(v) => v,
        Err(e) => return Err(e),
    };
    if status != NFS4_OK {
        return Ok(Step::Next(bare_result(op, status)));
    }
    read_body(dec, op)
}

/// Reads what a successful operation returned.
fn read_body(dec: &mut XdrDecoder<'_>, op: u32) -> (res: Result<Step, XdrError>)
    requires
        old(dec).wf(),
    ensures
        final(dec).wf(),
        final(dec).bytes() == old(dec).bytes(),
        res matches Err(e) ==> e == XdrError::Truncated,
        match body_at(old(dec).bytes(), old(dec).pos(), op) {
            Parsed::Cut => res is Err,
            Parsed::Unknown => res matches Ok(Step::Unknown),
            Parsed::Last(r) => res matches Ok(Step::Last(x)) && x@ == r,
            Parsed::Next(r, p) => (res matches Ok(Step::Next(x)) && x@ == r) && final(dec).pos()
                == p,
        },
{
    let mut result = bare_result(op, NFS4_OK);
    if op == OP_SEQUENCE {
        match dec.skip_raw(36) {
            Ok(()) => {},
            Err(e) => return Err(e),
        }
    } else if op == OP_PUTFH || op == OP_PUTROOTFH || op == OP_LOOKUP || op == OP_RECLAIM_COMPLETE {
    } else if op == OP_GETFH {
        match dec.decode_opaque() {
            Ok(fh) => {
                let handle: Vec<u8> = bytes::copy_range(fh, 0, fh.len());
                assert(handle@ =~= fh@);
                result.filehandle = Some(handle);
            },
            Err(e) => return Err(e),
        }
    } else if op == OP_OPEN {
        let seqid: u32 = match dec.decode_u32() {
            Ok(v) => v,
            Err(e) => return Err(e),
        };
        match dec.decode_opaque_fixed(12) {
            Ok(other) => {
                result.stateid = Some(StateId { seqid, other: twelve(other) });
            },
            Err(e) => return Err(e),
        }
        return Ok(Step::Last(result));
    } else if op == OP_WRITE || op == OP_CLOSE {
        match dec.skip_raw(16) {
            Ok(()) => {},
            Err(e) => return Err(e),
        }
    } else if op == OP_SETATTR {
        match read_bitmap(dec) {
            Ok(_) => {},
            Err(e) => return Err(e),
        }
    } else if op == OP_GETATTR {
        let (w0, w1) = match read_bitmap(dec) {
            Ok(w) => w,
            Err(e) => return Err(e),
        };
        match dec.decode_opaque() {
            Ok(vals) => {
                let (size, mtime) = read_attrs(w0, w1, vals);
                result.size = size;
                result.mtime = mtime;
            },
            Err(e) => return Err(e),
        }
    } else {
        return Ok(Step::Unknown);
    }
    Ok(Step::Next(result))
}

/// Reads an attribute bitmap and gives its first two words.
fn read_bitmap(dec: &mut XdrDecoder<'_>) -> (res: Result<(u32, u32), XdrError>)
    requires
        old(dec).wf(),
    ensures
        final(dec).wf(),
        final(dec).bytes() == old(dec).bytes(),
        res matches Err(e) ==> e == XdrError::Truncated,
        match xdr::u32_at(old(dec).bytes(), old(dec).pos()) {
            Some(n) => {
                let p = old(dec).pos() + 4;
                if p + 4 * n <= old(dec).bytes().len() {
                    &&& res is Ok
                    &&& final(dec).pos() == p + 4 * n
                    &&& res->Ok_0 == (
                        bitmap_word(old(dec).bytes(), p, n, 0),
                        bitmap_word(old(dec).bytes(), p, n, 1),
                    )
                } else {
                    res is Err
                }
            },
            None => res is Err,
        },
{
    let n: u32 = match dec.decode_u32() {
        Ok(v) => v,
        Err(e) => return Err(e),
    };
    if n as usize > dec.remaining() / 4 {
        return Err(XdrError::Truncated);
    }
    let mut w0: u32 = 0;
    let mut w1: u32 = 0;
    let mut left: u32 = n;
    if left > 0 {
        match dec.decode_u32() {
            Ok(v) => w0 = v,
            Err(e) => return Err(e),
        }
        left = left - 1;
    }
    if left > 0 {
        match dec.decode_u32() {
            Ok(v) => w1 = v,
            Err(e) => return Err(e),
        }
        left = left - 1;
    }
    match dec.skip_raw(4 * (left as usize)) {
        Ok(()) => Ok((w0, w1)),
        Err(e) => Err(e),
    }
}

/// Reads up to `count` results.
fn read_results(dec: &mut XdrDecoder<'_>, count: u32) -> (res: Result<Vec<OpResult>, XdrError>)
    requires
        old(dec).wf(),
    ensures
        match results_at(old(dec).bytes(), old(dec).pos(), count as nat) {
            Some(rs) => res is Ok && result_models(res->Ok_0@) == rs,
            None => res is Err && res->Err_0 == XdrError::Truncated,
        },
{
    let ghost d = dec.bytes();
    let ghost total = results_at(d, dec.pos(), count as nat);
    let mut op_results: Vec<OpResult> = Vec::new();
    let mut left: u32 = count;
    assert(ahead(result_models(op_results@), total) == total) by {
        if let Some(r) = total {
            assert(result_models(op_results@) + r =~= r);
        }
    }
    while left > 0
        invariant_except_break
            ahead(result_models(op_results@), results_at(d, dec.pos(), left as nat)) == total,
        invariant
            dec.wf(),
            dec.bytes() == d,
            d == old(dec).bytes(),
            total == results_at(d, old(dec).pos(), count as nat),
        ensures
            total == Some(result_models(op_results@)),
        decreases left,
    {
        let ghost before = result_models(op_results@);
        let step = match read_result(dec) {
            Ok(s) => s,
            Err(e) => return Err(e),
        };
        match step {
            Step::Next(r) => {
                let ghost m = r@;
                op_results.push(r);
                left = left - 1;
                proof {
                    assert(result_models(op_results@) =~= before.push(m));
                    if let Some(tail) = results_at(d, dec.pos(), left as nat) {
                        assert(before + (seq![m] + tail) =~= before.push(m) + tail);
                    }
                }
            },
            Step::Last(r) => {
                let ghost m = r@;
                op_results.push(r);
                assert(result_models(op_results@) =~= before + seq![m]);
                break;
            },
            Step::Unknown => {
                assert(before + Seq::<ResultModel>::empty() =~= before);
                break;
            },
        }
        proof {
            if left == 0 {
                assert(result_models(op_results@) + Seq::<ResultModel>::empty() =~= result_models(
                    op_results@,
                ));
            }
        }
    }
    Ok(op_results)
}

/// Reads a compound reply, record mark included: the status of each operation,
/// the state identifier that OPEN returned, and what GETFH and GETATTR say.
/// Reading stops after an OPEN and before an operation that it does not know.
pub fn parse_compound_reply(data: &[u8]) -> (res: Result<CompoundReply, NfsError>)
    requires
        data@.len() <= isize::MAX,
    ensures
        match reply_of(data@) {
            Ok(m) => res is Ok && res->Ok_0@ == m,
            Err(f) => res is Err && res->Err_0@ == f,
        },
{
    if data.len() < 4 {
        return Err(NfsError::XdrDecode("reply too short".to_owned()));
    }
    let rest = vstd::slice::slice_subrange(data, 4, data.len());
    let ghost d = rest@;
    let mut dec = XdrDecoder::new(rest);
    let xid: u32 = match dec.decode_u32() {
        Ok(v) => v,
        Err(e) => return Err(xdr_fault(e)),
    };
    let kind: u32 = match dec.decode_u32() {
        Ok(v) => v,
        Err(e) => return Err(xdr_fault(e)),
    };
    if kind != 1 {
        return Err(
            NfsError::RpcError(
                text::concat2("expected REPLY (1), got ", &text::decimal_of(kind as u64)),
            ),
        );
    }
    let reply_stat: u32 = match dec.decode_u32() {
        Ok(v) => v,
        Err(e) => return Err(xdr_fault(e)),
    };
    if reply_stat != MSG_ACCEPTED {
        return Err(
            NfsError::RpcError(
                text::concat2("RPC rejected: ", &text::decimal_of(reply_stat as u64)),
            ),
        );
    }
    match dec.decode_u32() {
        Ok(_) => {},
        Err(e) => return Err(xdr_fault(e)),
    }
    match dec.decode_opaque() {
        Ok(_) => {},
        Err(e) => return Err(xdr_fault(e)),
    }
    read_accepted(&mut dec, xid)
}

/// Reads the reply to call `xid` from its accept status on.
fn read_accepted(dec: &mut XdrDecoder<'_>, xid: u32) -> (res: Result<CompoundReply, NfsError>)
    requires
        old(dec).wf(),
    ensures
        match accepted_in(old(dec).bytes(), xid, old(dec).pos()) {
            Ok(m) => res is Ok && res->Ok_0@ == m,
            Err(f) => res is Err && res->Err_0@ == f,
        },
{
    let accept_stat: u32 = match dec.decode_u32() {
        Ok(v) => v,
        Err(e) => return Err(xdr_fault(e)),
    };
    if accept_stat != SUCCESS {
        return Err(
            NfsError::RpcError(
                text::concat2("RPC accept error: ", &text::decimal_of(accept_stat as u64)),
            ),
        );
    }
    let status: u32 = match dec.decode_u32() {
        Ok(v) => v,
        Err(e) => return Err(xdr_fault(e)),
    };
    let tag: Vec<u8> = match dec.decode_opaque() {
        Ok(t) => {
            let tag: Vec<u8> = bytes::copy_range(t, 0, t.len());
            assert(tag@ =~= t@);
            tag
        },
        Err(e) => return Err(xdr_fault(e)),
    };
    let count: u32 = match dec.decode_u32() {
        Ok(v) => v,
        Err(e) => return Err(xdr_fault(e)),
    };
    let op_results = match read_results(dec, count) {
        Ok(v) => v,
        Err(e) => return Err(xdr_fault(e)),
    };
    Ok(CompoundReply { xid, status, tag, op_results })
}

/// The name of a status code.
pub open spec fn error_name(code: u32) -> Seq<char> {
    if code == NFS4_OK {
        "NFS4_OK"@
    } else if code == 1 {
        "NFS4ERR_PERM"@
    } else if code == NFS4ERR_NOENT {
        "NFS4ERR_NOENT"@
    } else if code == NFS4ERR_STALE {
        "NFS4ERR_STALE"@
    } else if code == NFS4ERR_EXIST {
        "NFS4ERR_EXIST"@
    } else if code == NFS4ERR_ACCESS {
        "NFS4ERR_ACCESS"@
    } else if code == NFS4ERR_DELAY {
        "NFS4ERR_DELAY"@
    } else if code == 10013 {
        "NFS4ERR_GRACE"@
    } else if code == 10015 {
        "NFS4ERR_SHARE_DENIED"@
    } else if code == 10016 {
        "NFS4ERR_WRONGSEC"@
    } else if code == NFS4ERR_BADSESSION {
        "NFS4ERR_BADSESSION"@
    } else if code == NFS4ERR_BADSEQ {
        "NFS4ERR_BADSEQ"@
    } else if code == NFS4ERR_SEQ_MISORDERED {
        "NFS4ERR_SEQ_MISORDERED"@
    } else {
        "NFS4ERR_UNKNOWN"@
    }
}

/// The name of a status code.
pub fn nfs4_error_name(code: u32) -> (name: &'static str)
    ensures
        name@ == error_name(code),
{
    match code {
        NFS4_OK => "NFS4_OK",
        1 => "NFS4ERR_PERM",
        NFS4ERR_NOENT => "NFS4ERR_NOENT",
        NFS4ERR_STALE => "NFS4ERR_STALE",
        NFS4ERR_EXIST => "NFS4ERR_EXIST",
        NFS4ERR_ACCESS => "NFS4ERR_ACCESS",
        NFS4ERR_DELAY => "NFS4ERR_DELAY",
        10013 => "NFS4ERR_GRACE",
        10015 => "NFS4ERR_SHARE_DENIED",
        10016 => "NFS4ERR_WRONGSEC",
        NFS4ERR_BADSESSION => "NFS4ERR_BADSESSION",
        NFS4ERR_BADSEQ => "NFS4ERR_BADSEQ",
        NFS4ERR_SEQ_MISORDERED => "NFS4ERR_SEQ_MISORDERED",
        _ => "NFS4ERR_UNKNOWN",
    }
}

/// The parts of a message one after the other.
pub open spec fn joined(parts: Seq<Seq<u8>>) -> Seq<u8>
    decreases parts.len(),
{
    if parts.len() == 0 {
        Seq::empty()
    } else {
        parts[0] + joined(parts.subrange(1, parts.len() as int))
    }
}

/// `part` is one complete result and says `r`.
pub open spec fn encodes(part: Seq<u8>, r: ResultModel) -> bool {
    result_at(part, 0) == Parsed::Next(r, part.len() as int)
}

/// What is read at a place within a part does not depend on what stands around
/// the part.
proof fn numbers_are_local(before: Seq<u8>, part: Seq<u8>, after: Seq<u8>, k: int)
    requires
        0 <= k,
    ensures
        k + 4 <= part.len() ==> xdr::u32_at(before + part + after, before.len() + k) == xdr::u32_at(
            part,
            k,
        ),
        xdr::opaque_at(part, k) is Some ==> xdr::opaque_at(before + part + after, before.len() + k)
            == xdr::opaque_at(part, k),
{
    let all = before + part + after;
    let b = before.len();
    if k + 4 <= part.len() {
        assert(all.subrange(b + k, b + k + 4) =~= part.subrange(k, k + 4));
    }
    if let Some(s) = xdr::opaque_at(part, k) {
        assert(all.subrange(b + k + 4, b + k + 4 + s.len()) =~= part.subrange(k + 4, k + 4 + s.len()));
    }
}

proof fn words_are_local(before: Seq<u8>, part: Seq<u8>, after: Seq<u8>, k: int, n: u32, i: int)
    requires
        0 <= k,
        0 <= i,
        k + 4 * n <= part.len(),
    ensures
        bitmap_word(before + part + after, before.len() + k, n, i) == bitmap_word(part, k, n, i),
{
    if i < n {
        numbers_are_local(before, part, after, k + 4 * i);
    }
}

/// A complete result reads the same wherever it stands in a reply.
pub proof fn result_is_local(before: Seq<u8>, part: Seq<u8>, after: Seq<u8>, r: ResultModel)
    requires
        encodes(part, r),
    ensures
        result_at(before + part + after, before.len() as int) == Parsed::Next(
            r,
            (before + part).len() as int,
        ),
{
    let all = before + part + after;
    numbers_are_local(before, part, after, 0);
    numbers_are_local(before, part, after, 4);
    numbers_are_local(before, part, after, 8);
    if let Some(n) = xdr::u32_at(part, 8) {
        if 12 + 4 * n <= part.len() {
            words_are_local(before, part, after, 12, n, 0);
            words_are_local(before, part, after, 12, n, 1);
            numbers_are_local(before, part, after, 12 + 4 * n);
        }
    }
}

/// Complete results in a row are all read, in their order.
pub proof fn results_read_in_order(before: Seq<u8>, parts: Seq<Seq<u8>>, models: Seq<ResultModel>)
    requires
        parts.len() == models.len(),
        forall|i: int| 0 <= i < parts.len() ==> encodes(#[trigger] parts[i], models[i]),
    ensures
        results_at(before + joined(parts), before.len() as int, parts.len()) == Some(models),
    decreases parts.len(),
{
    if parts.len() == 0 {
        assert(models =~= Seq::<ResultModel>::empty());
    } else {
        let tail = parts.subrange(1, parts.len() as int);
        let rest = models.subrange(1, models.len() as int);
        assert forall|i: int| 0 <= i < tail.len() implies encodes(#[trigger] tail[i], rest[i]) by {
            assert(encodes(parts[i + 1], models[i + 1]));
        }
        results_read_in_order(before + parts[0], tail, rest);
        result_is_local(before, parts[0], joined(tail), models[0]);
        assert(before + joined(parts) =~= before + parts[0] + joined(tail));
        assert(models =~= seq![models[0]] + rest);
    }
}

/// A successful reply to call `xid` as a server writes it, without its record
/// mark.
pub open spec fn reply_bytes(xid: u32, status: u32, tag: Seq<u8>, parts: Seq<Seq<u8>>) -> Seq<u8> {
    bytes::be32(xid) + bytes::be32(1) + bytes::be32(MSG_ACCEPTED) + bytes::be32(AUTH_NONE)
        + xdr::xdr_opaque(Seq::empty()) + bytes::be32(SUCCESS) + bytes::be32(status)
        + xdr::xdr_opaque(tag) + bytes::be32(parts.len() as u32) + joined(parts)
}

/// What a server writes is what the reader of replies says: the call that is
/// answered, the overall status, the tag and each result in its order.
pub proof fn reply_round_trip(
    xid: u32,
    status: u32,
    tag: Seq<u8>,
    parts: Seq<Seq<u8>>,
    models: Seq<ResultModel>,
)
    requires
        tag.len() <= u32::MAX,
        parts.len() <= u32::MAX,
        parts.len() == models.len(),
        forall|i: int| 0 <= i < parts.len() ==> encodes(#[trigger] parts[i], models[i]),
    ensures
        reply_in(reply_bytes(xid, status, tag, parts)) == Ok::<ReplyModel, NfsFault>(
            ReplyModel { xid, status, tag, results: models },
        ),
{
    let all = reply_bytes(xid, status, tag, parts);
    let none = Seq::<u8>::empty();
    let n = parts.len() as u32;
    let p1 = bytes::be32(xid);
    let p2 = p1 + bytes::be32(1);
    let p3 = p2 + bytes::be32(MSG_ACCEPTED);
    let p4 = p3 + bytes::be32(AUTH_NONE);
    let p5 = p4 + xdr::xdr_opaque(none);
    let p6 = p5 + bytes::be32(SUCCESS);
    let p7 = p6 + bytes::be32(status);
    let p8 = p7 + xdr::xdr_opaque(tag);
    let p9 = p8 + bytes::be32(n);
    bytes::be32_round_trip(xid);
    bytes::be32_round_trip(1);
    bytes::be32_round_trip(0);
    bytes::be32_round_trip(status);
    bytes::be32_round_trip(n);
    assert(xdr::u32_at(all, 0) == Some(xid)) by {
        reads_number(none, xid, all);
    }
    assert(xdr::u32_at(all, 4) == Some(1u32)) by {
        reads_number(p1, 1, all);
    }
    assert(xdr::u32_at(all, 8) == Some(MSG_ACCEPTED)) by {
        reads_number(p2, MSG_ACCEPTED, all);
    }
    assert(xdr::opaque_at(all, 16) == Some(none) && p5.len() == 20) by {
        let after = all.subrange(p5.len() as int, all.len() as int);
        assert(all =~= p4 + xdr::xdr_opaque(none) + after);
        xdr::opaque_round_trip(p4, none, after);
    }
    assert(xdr::u32_at(all, 20) == Some(SUCCESS)) by {
        reads_number(p5, SUCCESS, all);
    }
    assert(xdr::u32_at(all, 24) == Some(status)) by {
        reads_number(p6, status, all);
    }
    assert(xdr::opaque_at(all, 28) == Some(tag) && p8.len() == 32 + tag.len() + xdr::pad_len(
        tag.len(),
    )) by {
        let after = all.subrange(p8.len() as int, all.len() as int);
        assert(all =~= p7 + xdr::xdr_opaque(tag) + after);
        xdr::opaque_round_trip(p7, tag, after);
    }
    assert(xdr::u32_at(all, p8.len() as int) == Some(n)) by {
        reads_number(p8, n, all);
    }
    results_read_in_order(p9, parts, models);
    assert(all =~= p9 + joined(parts));
}

/// The number that follows `before` in `all`.
proof fn reads_number(before: Seq<u8>, v: u32, all: Seq<u8>)
    requires
        (before + bytes::be32(v)).len() <= all.len(),
        all.subrange(0, (before + bytes::be32(v)).len() as int) =~= before + bytes::be32(v),
    ensures
        xdr::u32_at(all, before.len() as int) == Some(v),
{
    let head = before + bytes::be32(v);
    let after = all.subrange(head.len() as int, all.len() as int);
    assert(all =~= head + after) by {
        assert(all =~= all.subrange(0, head.len() as int) + after);
    }
    xdr::u32_round_trip(before, v, after);
}

proof fn op_is_aligned(op: Nfs4Op)
    ensures
        op_bytes(op).len() % 4 == 0,
{
    let none = Seq::<u8>::empty();
    assert forall|v: u32| #[trigger] bytes::be32(v).len() == 4 by {
        bytes::be32_round_trip(v);
    }
    assert forall|v: u64| #[trigger] bytes::be64(v).len() == 8 by {
        bytes::be64_round_trip(v);
    }
    assert forall|d: Seq<u8>| #[trigger] xdr::xdr_fixed(d).len() % 4 == 0 by {
        xdr::encoding_is_aligned(none, d);
        assert(none + xdr::xdr_fixed(d) =~= xdr::xdr_fixed(d));
    }
    assert forall|d: Seq<u8>| #[trigger] xdr::xdr_opaque(d).len() % 4 == 0 by {
        xdr::encoding_is_aligned(none, d);
        assert(none + xdr::xdr_opaque(d) =~= xdr::xdr_opaque(d));
    }
}

/// The operations of a call take a whole number of four-byte units.
pub proof fn operations_are_aligned(ops: Seq<Nfs4Op>, n: nat)
    requires
        n <= ops.len(),
    ensures
        ops_bytes(ops, n).len() % 4 == 0,
    decreases n,
{
    if n > 0 {
        operations_are_aligned(ops, (n - 1) as nat);
        op_is_aligned(ops[n - 1]);
    }
}

/// The bytes that some data takes up behind its length: as many as it has, and up to the
/// next multiple of four.
pub open spec fn xdr_room(data: Seq<u8>) -> int {
    (data.len() + 3) as int / 4 * 4
}

proof fn opaque_is_sized(data: Seq<u8>)
    ensures
        xdr::xdr_opaque(data).len() == 4 + xdr_room(data),
        data.len() + xdr::pad_len(data.len()) == xdr_room(data),
{
    bytes::be32_round_trip(data.len() as u32);
}

proof fn opaque_stands_at(b: Seq<u8>, p: int, data: Seq<u8>)
    requires
        data.len() <= u32::MAX,
        0 <= p <= p + 4 + xdr_room(data) <= b.len(),
        b.subrange(p, p + 4 + xdr_room(data)) =~= xdr::xdr_opaque(data),
    ensures
        xdr::opaque_at(b, p) == Some(data),
{
    let before = b.subrange(0, p);
    let after = b.subrange(p + 4 + xdr_room(data), b.len() as int);
    xdr::opaque_round_trip(before, data, after);
    assert(b =~= before + b.subrange(p, p + 4 + xdr_room(data)) + after);
}

/// A credential tells who asks, and on which machine.
pub proof fn credential_reads_back(uid: u32, gid: u32, machine: Seq<char>)
    requires
        vstd::utf8::encode_utf8(machine).len() <= u32::MAX,
    ensures
        ({
            let b = sys_cred(uid, gid, machine);
            &&& xdr::u32_at(b, 0int) == Some(0u32)
            &&& xdr::opaque_at(b, 4int) == Some(vstd::utf8::encode_utf8(machine))
            &&& xdr::u32_at(b, 8 + xdr_room(vstd::utf8::encode_utf8(machine))) == Some(uid)
            &&& xdr::u32_at(b, 12 + xdr_room(vstd::utf8::encode_utf8(machine))) == Some(gid)
            &&& xdr::u32_at(b, 16 + xdr_room(vstd::utf8::encode_utf8(machine))) == Some(1u32)
            &&& xdr::u32_at(b, 20 + xdr_room(vstd::utf8::encode_utf8(machine))) == Some(gid)
            &&& b.len() == 24 + xdr_room(vstd::utf8::encode_utf8(machine))
        }),
{
    let b = sys_cred(uid, gid, machine);
    bytes::be32_round_trip(0u32);
    opaque_is_sized(vstd::utf8::encode_utf8(machine));
    bytes::be32_round_trip(uid);
    bytes::be32_round_trip(gid);
    bytes::be32_round_trip(1u32);
    bytes::be32_round_trip(gid);
    assert(b.subrange(0int, 0int + 4) =~= bytes::be32(0u32));
    opaque_stands_at(b, 4int, vstd::utf8::encode_utf8(machine));
    assert(b.subrange(8 + xdr_room(vstd::utf8::encode_utf8(machine)), 8 + xdr_room(vstd::utf8::encode_utf8(machine)) + 4) =~= bytes::be32(uid));
    assert(b.subrange(12 + xdr_room(vstd::utf8::encode_utf8(machine)), 12 + xdr_room(vstd::utf8::encode_utf8(machine)) + 4) =~= bytes::be32(gid));
    assert(b.subrange(16 + xdr_room(vstd::utf8::encode_utf8(machine)), 16 + xdr_room(vstd::utf8::encode_utf8(machine)) + 4) =~= bytes::be32(1u32));
    assert(b.subrange(20 + xdr_room(vstd::utf8::encode_utf8(machine)), 20 + xdr_room(vstd::utf8::encode_utf8(machine)) + 4) =~= bytes::be32(gid));
}

/// A sequence operation carries the session, the place in its slot and the slots in use.
pub proof fn sequence_reads_back(session_id: Seq<u8>, sequence_id: u32, slot_id: u32, highest_slot_id: u32, cache_this: bool)
    requires
        session_id.len() == 16,
    ensures
        ({
            let b = sequence_bytes(session_id, sequence_id, slot_id, highest_slot_id, cache_this);
            &&& xdr::u32_at(b, 0int) == Some(53u32)
            &&& xdr::fixed_at(b, 4int, 16) == Some(session_id)
            &&& xdr::u32_at(b, 20int) == Some(sequence_id)
            &&& xdr::u32_at(b, 24int) == Some(slot_id)
            &&& xdr::u32_at(b, 28int) == Some(highest_slot_id)
            &&& xdr::u32_at(b, 32int) == Some(if cache_this { 1u32 } else { 0u32 })
            &&& b.len() == 36int
        }),
{
    let b = sequence_bytes(session_id, sequence_id, slot_id, highest_slot_id, cache_this);
    bytes::be32_round_trip(53u32);
    assert(xdr::xdr_fixed(session_id) =~= session_id);
    bytes::be32_round_trip(sequence_id);
    bytes::be32_round_trip(slot_id);
    bytes::be32_round_trip(highest_slot_id);
    bytes::be32_round_trip(if cache_this { 1u32 } else { 0u32 });
    assert(b.subrange(0int, 0int + 4) =~= bytes::be32(53u32));
    assert(b.subrange(4int, 4int + 16) =~= session_id);
    assert(b.subrange(20int, 20int + 4) =~= bytes::be32(sequence_id));
    assert(b.subrange(24int, 24int + 4) =~= bytes::be32(slot_id));
    assert(b.subrange(28int, 28int + 4) =~= bytes::be32(highest_slot_id));
    assert(b.subrange(32int, 32int + 4) =~= bytes::be32(if cache_this { 1u32 } else { 0u32 }));
}

/// An operation on a handle carries the handle whole.
pub proof fn handle_reads_back(handle: Seq<u8>)
    requires
        handle.len() <= u32::MAX,
    ensures
        ({
            let b = putfh_bytes(handle);
            &&& xdr::u32_at(b, 0int) == Some(22u32)
            &&& xdr::opaque_at(b, 4int) == Some(handle)
            &&& b.len() == 8 + xdr_room(handle)
        }),
{
    let b = putfh_bytes(handle);
    bytes::be32_round_trip(22u32);
    opaque_is_sized(handle);
    assert(b.subrange(0int, 0int + 4) =~= bytes::be32(22u32));
    opaque_stands_at(b, 4int, handle);
}

/// An operation on a name carries the bytes of the name.
pub proof fn name_reads_back(name: Seq<char>)
    requires
        vstd::utf8::encode_utf8(name).len() <= u32::MAX,
    ensures
        ({
            let b = lookup_bytes(name);
            &&& xdr::u32_at(b, 0int) == Some(15u32)
            &&& xdr::opaque_at(b, 4int) == Some(vstd::utf8::encode_utf8(name))
            &&& b.len() == 8 + xdr_room(vstd::utf8::encode_utf8(name))
        }),
{
    let b = lookup_bytes(name);
    bytes::be32_round_trip(15u32);
    opaque_is_sized(vstd::utf8::encode_utf8(name));
    assert(b.subrange(0int, 0int + 4) =~= bytes::be32(15u32));
    opaque_stands_at(b, 4int, vstd::utf8::encode_utf8(name));
}

/// Opening creates the file where it is missing, with the permissions asked for and no other
/// bits of the mode, under the name given.
pub proof fn open_reads_back(seqid: u32, access: u32, deny: u32, clientid: u64, owner: Seq<u8>, filename: Seq<char>, mode: u32)
    requires
        owner.len() <= u32::MAX,
        vstd::utf8::encode_utf8(filename).len() <= u32::MAX,
    ensures
        ({
            let bits = bytes::be32(mode & 0xfffu32);
            let b = open_bytes(seqid, access, deny, clientid, owner, filename, mode);
            &&& xdr::u32_at(b, 0int) == Some(18u32)
            &&& xdr::u32_at(b, 4int) == Some(seqid)
            &&& xdr::u32_at(b, 8int) == Some(access)
            &&& xdr::u32_at(b, 12int) == Some(deny)
            &&& xdr::u64_at(b, 16int) == Some(clientid)
            &&& xdr::opaque_at(b, 24int) == Some(owner)
            &&& xdr::u32_at(b, 28 + xdr_room(owner)) == Some(1u32)
            &&& xdr::u32_at(b, 32 + xdr_room(owner)) == Some(0u32)
            &&& xdr::u32_at(b, 36 + xdr_room(owner)) == Some(2u32)
            &&& xdr::u32_at(b, 40 + xdr_room(owner)) == Some(0u32)
            &&& xdr::u32_at(b, 44 + xdr_room(owner)) == Some(2u32)
            &&& xdr::opaque_at(b, 48 + xdr_room(owner)) == Some(bits)
            &&& xdr::u32_at(b, 52 + xdr_room(owner) + xdr_room(bits)) == Some(0u32)
            &&& xdr::opaque_at(b, 56 + xdr_room(owner) + xdr_room(bits)) == Some(vstd::utf8::encode_utf8(filename))
            &&& b.len() == 60 + xdr_room(owner) + xdr_room(bits) + xdr_room(vstd::utf8::encode_utf8(filename))
        }),
{
    let bits = bytes::be32(mode & 0xfffu32);
    let b = open_bytes(seqid, access, deny, clientid, owner, filename, mode);
    bytes::be32_round_trip(mode & 0xfffu32);
    bytes::be32_round_trip(18u32);
    bytes::be32_round_trip(seqid);
    bytes::be32_round_trip(access);
    bytes::be32_round_trip(deny);
    bytes::be64_round_trip(clientid);
    opaque_is_sized(owner);
    bytes::be32_round_trip(1u32);
    bytes::be32_round_trip(0u32);
    bytes::be32_round_trip(2u32);
    bytes::be32_round_trip(0u32);
    bytes::be32_round_trip(2u32);
    opaque_is_sized(bits);
    bytes::be32_round_trip(0u32);
    opaque_is_sized(vstd::utf8::encode_utf8(filename));
    assert(b.subrange(0int, 0int + 4) =~= bytes::be32(18u32));
    assert(b.subrange(4int, 4int + 4) =~= bytes::be32(seqid));
    assert(b.subrange(8int, 8int + 4) =~= bytes::be32(access));
    assert(b.subrange(12int, 12int + 4) =~= bytes::be32(deny));
    assert(b.subrange(16int, 16int + 8) =~= bytes::be64(clientid));
    opaque_stands_at(b, 24int, owner);
    assert(b.subrange(28 + xdr_room(owner), 28 + xdr_room(owner) + 4) =~= bytes::be32(1u32));
    assert(b.subrange(32 + xdr_room(owner), 32 + xdr_room(owner) + 4) =~= bytes::be32(0u32));
    assert(b.subrange(36 + xdr_room(owner), 36 + xdr_room(owner) + 4) =~= bytes::be32(2u32));
    assert(b.subrange(40 + xdr_room(owner), 40 + xdr_room(owner) + 4) =~= bytes::be32(0u32));
    assert(b.subrange(44 + xdr_room(owner), 44 + xdr_room(owner) + 4) =~= bytes::be32(2u32));
    opaque_stands_at(b, 48 + xdr_room(owner), bits);
    assert(b.subrange(52 + xdr_room(owner) + xdr_room(bits), 52 + xdr_room(owner) + xdr_room(bits) + 4) =~= bytes::be32(0u32));
    opaque_stands_at(b, 56 + xdr_room(owner) + xdr_room(bits), vstd::utf8::encode_utf8(filename));
}

/// A write carries the state, the place in the file, how safe it is to be and the data
/// whole.
pub proof fn write_reads_back(seqid: u32, other: Seq<u8>, offset: u64, stable: WriteStable, data: Seq<u8>)
    requires
        other.len() == 12,
        data.len() <= u32::MAX,
    ensures
        ({
            let safety = match stable {
                WriteStable::Unstable => 0u32,
                WriteStable::DataSync => 1u32,
                WriteStable::FileSync => 2u32,
            };
            let b = write_bytes((seqid, other), offset, stable, data);
            &&& xdr::u32_at(b, 0int) == Some(38u32)
            &&& xdr::u32_at(b, 4int) == Some(seqid)
            &&& xdr::fixed_at(b, 8int, 12) == Some(other)
            &&& xdr::u64_at(b, 20int) == Some(offset)
            &&& xdr::u32_at(b, 28int) == Some(safety)
            &&& xdr::opaque_at(b, 32int) == Some(data)
            &&& b.len() == 36 + xdr_room(data)
        }),
{
    let safety = match stable {
                WriteStable::Unstable => 0u32,
                WriteStable::DataSync => 1u32,
                WriteStable::FileSync => 2u32,
            };
    let b = write_bytes((seqid, other), offset, stable, data);
    bytes::be32_round_trip(38u32);
    bytes::be32_round_trip(seqid);
    assert(xdr::xdr_fixed(other) =~= other);
    bytes::be64_round_trip(offset);
    bytes::be32_round_trip(safety);
    opaque_is_sized(data);
    assert(b.subrange(0int, 0int + 4) =~= bytes::be32(38u32));
    assert(b.subrange(4int, 4int + 4) =~= bytes::be32(seqid));
    assert(b.subrange(8int, 8int + 12) =~= other);
    assert(b.subrange(20int, 20int + 8) =~= bytes::be64(offset));
    assert(b.subrange(28int, 28int + 4) =~= bytes::be32(safety));
    opaque_stands_at(b, 32int, data);
}

/// Setting attributes sets the mode, where one is given, and nothing else.
pub proof fn mode_reads_back(seqid: u32, other: Seq<u8>, mode: Option<u32>)
    requires
        other.len() == 12,
    ensures
        ({
            let values = if mode is Some {
                bytes::be32(mode->0)
            } else {
                Seq::empty()
            };
            let b = setattr_bytes((seqid, other), mode);
            &&& xdr::u32_at(b, 0int) == Some(34u32)
            &&& xdr::u32_at(b, 4int) == Some(seqid)
            &&& xdr::fixed_at(b, 8int, 12) == Some(other)
            &&& xdr::u32_at(b, 20int) == Some(2u32)
            &&& xdr::u32_at(b, 24int) == Some(0u32)
            &&& xdr::u32_at(b, 28int) == Some(if mode is Some { 2u32 } else { 0u32 })
            &&& xdr::opaque_at(b, 32int) == Some(values)
            &&& b.len() == 36 + xdr_room(values)
        }),
{
    let values = if mode is Some {
                bytes::be32(mode->0)
            } else {
                Seq::empty()
            };
    let b = setattr_bytes((seqid, other), mode);
    bytes::be32_round_trip(mode->0);
    bytes::be32_round_trip(34u32);
    bytes::be32_round_trip(seqid);
    assert(xdr::xdr_fixed(other) =~= other);
    bytes::be32_round_trip(2u32);
    bytes::be32_round_trip(0u32);
    bytes::be32_round_trip(if mode is Some { 2u32 } else { 0u32 });
    opaque_is_sized(values);
    assert(b.subrange(0int, 0int + 4) =~= bytes::be32(34u32));
    assert(b.subrange(4int, 4int + 4) =~= bytes::be32(seqid));
    assert(b.subrange(8int, 8int + 12) =~= other);
    assert(b.subrange(20int, 20int + 4) =~= bytes::be32(2u32));
    assert(b.subrange(24int, 24int + 4) =~= bytes::be32(0u32));
    assert(b.subrange(28int, 28int + 4) =~= bytes::be32(if mode is Some { 2u32 } else { 0u32 }));
    opaque_stands_at(b, 32int, values);
}

/// Closing carries the state that opening gave.
pub proof fn close_reads_back(seqid: u32, state: u32, other: Seq<u8>)
    requires
        other.len() == 12,
    ensures
        ({
            let b = close_bytes(seqid, (state, other));
            &&& xdr::u32_at(b, 0int) == Some(4u32)
            &&& xdr::u32_at(b, 4int) == Some(seqid)
            &&& xdr::u32_at(b, 8int) == Some(state)
            &&& xdr::fixed_at(b, 12int, 12) == Some(other)
            &&& b.len() == 24int
        }),
{
    let b = close_bytes(seqid, (state, other));
    bytes::be32_round_trip(4u32);
    bytes::be32_round_trip(seqid);
    bytes::be32_round_trip(state);
    assert(xdr::xdr_fixed(other) =~= other);
    assert(b.subrange(0int, 0int + 4) =~= bytes::be32(4u32));
    assert(b.subrange(4int, 4int + 4) =~= bytes::be32(seqid));
    assert(b.subrange(8int, 8int + 4) =~= bytes::be32(state));
    assert(b.subrange(12int, 12int + 12) =~= other);
}

/// Asking for attributes names them in two words.
pub proof fn request_reads_back(request: Seq<u32>)
    requires
        request.len() == 2,
    ensures
        ({
            let b = getattr_bytes(request);
            &&& xdr::u32_at(b, 0int) == Some(9u32)
            &&& xdr::u32_at(b, 4int) == Some(2u32)
            &&& xdr::u32_at(b, 8int) == Some(request[0])
            &&& xdr::u32_at(b, 12int) == Some(request[1])
            &&& b.len() == 16int
        }),
{
    let b = getattr_bytes(request);
    bytes::be32_round_trip(9u32);
    bytes::be32_round_trip(2u32);
    bytes::be32_round_trip(request[0]);
    bytes::be32_round_trip(request[1]);
    assert(b.subrange(0int, 0int + 4) =~= bytes::be32(9u32));
    assert(b.subrange(4int, 4int + 4) =~= bytes::be32(2u32));
    assert(b.subrange(8int, 8int + 4) =~= bytes::be32(request[0]));
    assert(b.subrange(12int, 12int + 4) =~= bytes::be32(request[1]));
}

/// A call names itself, the protocol and the procedure.
pub proof fn header_reads_back(xid: u32, procedure: u32)
    ensures
        ({
            let b = call_header(xid, procedure);
            &&& xdr::u32_at(b, 0int) == Some(xid)
            &&& xdr::u32_at(b, 4int) == Some(0u32)
            &&& xdr::u32_at(b, 8int) == Some(2u32)
            &&& xdr::u32_at(b, 12int) == Some(100003u32)
            &&& xdr::u32_at(b, 16int) == Some(4u32)
            &&& xdr::u32_at(b, 20int) == Some(procedure)
            &&& b.len() == 24int
        }),
{
    let b = call_header(xid, procedure);
    bytes::be32_round_trip(xid);
    bytes::be32_round_trip(0u32);
    bytes::be32_round_trip(2u32);
    bytes::be32_round_trip(100003u32);
    bytes::be32_round_trip(4u32);
    bytes::be32_round_trip(procedure);
    assert(b.subrange(0int, 0int + 4) =~= bytes::be32(xid));
    assert(b.subrange(4int, 4int + 4) =~= bytes::be32(0u32));
    assert(b.subrange(8int, 8int + 4) =~= bytes::be32(2u32));
    assert(b.subrange(12int, 12int + 4) =~= bytes::be32(100003u32));
    assert(b.subrange(16int, 16int + 4) =~= bytes::be32(4u32));
    assert(b.subrange(20int, 20int + 4) =~= bytes::be32(procedure));
}

/// A compound starts with a call of it, the credential, no verifier, its tag, the minor
/// version and the number of its operations.
pub proof fn compound_reads_back(
    xid: u32,
    tag: Seq<char>,
    uid: u32,
    gid: u32,
    machine: Seq<char>,
    count: u32,
)
    ensures
        compound_head(xid, tag, uid, gid, machine, count) == call_header(xid, 1) + bytes::be32(1)
            + xdr::xdr_opaque(sys_cred(uid, gid, machine)) + bytes::be32(0) + bytes::be32(0)
            + xdr::xdr_opaque(vstd::utf8::encode_utf8(tag)) + bytes::be32(2) + bytes::be32(count),
        null_message(xid) == framed(
            call_header(xid, 0) + bytes::be32(0) + bytes::be32(0) + bytes::be32(0) + bytes::be32(0),
        ),
        current_state() == (1u32, bytes::zeros(12)),
        reclaim_bytes() == bytes::be32(58) + bytes::be32(0),
{
    assert(compound_head(xid, tag, uid, gid, machine, count) =~= call_header(xid, 1) + bytes::be32(
        1,
    ) + xdr::xdr_opaque(sys_cred(uid, gid, machine)) + bytes::be32(0) + bytes::be32(0)
        + xdr::xdr_opaque(vstd::utf8::encode_utf8(tag)) + bytes::be32(2) + bytes::be32(count));
}

/// A message is one last fragment: its length with the topmost bit set, and then itself.
pub proof fn message_is_one_fragment(body: Seq<u8>)
    requires
        body.len() < 0x8000_0000,
    ensures
        framed(body).len() == body.len() + 4,
        xdr::u32_at(framed(body), 0) == Some((0x8000_0000 + body.len()) as u32),
        framed(body).subrange(4, framed(body).len() as int) == body,
{
    let n = body.len() as u32;
    assert(n < 0x8000_0000u32 ==> 0x8000_0000u32 | n == 0x8000_0000u32 + n) by (bit_vector);
    bytes::be32_round_trip(0x8000_0000u32 | n);
    let b = framed(body);
    assert(b.subrange(0, 4) =~= bytes::be32(0x8000_0000u32 | n));
    assert(b.subrange(4, b.len() as int) =~= body);
}

/// Each operation is written by its own number and what it carries, and a compound is all
/// of its operations in order, as many as it says.
pub proof fn operations_are_written_in_order(ops: Seq<Nfs4Op>, n: nat, i: int)
    requires
        n <= ops.len(),
        0 <= i < ops.len(),
    ensures
        ops_bytes(ops, n) == ops.take(n as int).map_values(|op: Nfs4Op| op_bytes(op)).flatten(),
        ops[i] matches Nfs4Op::Sequence {
            session_id,
            sequence_id,
            slot_id,
            highest_slot_id,
            cache_this,
        } ==> op_bytes(ops[i]) == sequence_bytes(
            session_id@,
            sequence_id,
            slot_id,
            highest_slot_id,
            cache_this,
        ),
        ops[i] matches Nfs4Op::PutFh { handle } ==> op_bytes(ops[i]) == putfh_bytes(handle@),
        ops[i] is PutRootFh ==> op_bytes(ops[i]) == bytes::be32(24),
        ops[i] matches Nfs4Op::Lookup { name } ==> op_bytes(ops[i]) == lookup_bytes(name@),
        ops[i] matches Nfs4Op::Open {
            seqid,
            share_access,
            share_deny,
            clientid,
            owner,
            filename,
            mode,
        } ==> op_bytes(ops[i]) == open_bytes(
            seqid,
            share_access,
            share_deny,
            clientid,
            owner@,
            filename@,
            mode,
        ),
        ops[i] matches Nfs4Op::Write { stateid, offset, stable, data } ==> op_bytes(ops[i])
            == write_bytes((stateid.seqid, stateid.other@), offset, stable, data@),
        ops[i] matches Nfs4Op::SetAttr { stateid, mode, .. } ==> op_bytes(ops[i]) == setattr_bytes(
            (stateid.seqid, stateid.other@),
            mode,
        ),
        ops[i] matches Nfs4Op::Close { seqid, stateid } ==> op_bytes(ops[i]) == close_bytes(
            seqid,
            (stateid.seqid, stateid.other@),
        ),
        ops[i] matches Nfs4Op::GetAttr { attr_request } ==> op_bytes(ops[i]) == getattr_bytes(
            attr_request@,
        ),
        ops[i] is GetFh ==> op_bytes(ops[i]) == bytes::be32(10),
        ops[i] is ReclaimComplete ==> op_bytes(ops[i]) == bytes::be32(58) + bytes::be32(0),
{
    operations_are_flat(ops, n, |op: Nfs4Op| op_bytes(op));
}

proof fn operations_are_flat(ops: Seq<Nfs4Op>, n: nat, f: spec_fn(Nfs4Op) -> Seq<u8>)
    requires
        n <= ops.len(),
        forall|op: Nfs4Op| #[trigger] f(op) == op_bytes(op),
    ensures
        ops_bytes(ops, n) == ops.take(n as int).map_values(f).flatten(),
    decreases n,
{
    let m = ops.take(n as int).map_values(f);
    m.lemma_flatten_and_flatten_alt_are_equivalent();
    if n > 0 {
        operations_are_flat(ops, (n - 1) as nat, f);
        let before = ops.take(n - 1).map_values(f);
        before.lemma_flatten_and_flatten_alt_are_equivalent();
        assert(m.drop_last() =~= before);
        assert(m.last() == op_bytes(ops[n - 1]));
    } else {
        assert(m =~= Seq::empty());
    }
}

/// A compound's message is its head, with the number of its operations, and all of them.
pub proof fn compound_is_head_and_operations(
    xid: u32,
    tag: Seq<char>,
    uid: u32,
    gid: u32,
    machine: Seq<char>,
    ops: Seq<Nfs4Op>,
)
    requires
        compound_head(xid, tag, uid, gid, machine, ops.len() as u32).len() + ops_bytes(
            ops,
            ops.len(),
        ).len() < 0x8000_0000,
    ensures
        ({
            let m = compound_message(xid, tag, uid, gid, machine, ops);
            m.subrange(4, m.len() as int) == compound_head(
                xid,
                tag,
                uid,
                gid,
                machine,
                ops.len() as u32,
            ) + ops.map_values(|op: Nfs4Op| op_bytes(op)).flatten()
        }),
{
    let body = compound_head(xid, tag, uid, gid, machine, ops.len() as u32) + ops_bytes(
        ops,
        ops.len(),
    );
    message_is_one_fragment(body);
    operations_are_flat(ops, ops.len(), |op: Nfs4Op| op_bytes(op));
    assert(ops.take(ops.len() as int) =~= ops);
}

/// A result with an error says no more than that.
pub proof fn failed_result_is_bare(op: u32, status: u32, rest: Seq<u8>)
    requires
        status != 0,
    ensures
        result_at(bytes::be32(op) + bytes::be32(status) + rest, 0) == Parsed::Next(
            ResultModel { op, status, stateid: None, filehandle: None, size: None, mtime: None },
            8,
        ),
{
    result_head(op, status, rest);
}

proof fn result_head(op: u32, status: u32, rest: Seq<u8>)
    ensures
        ({
            let d = bytes::be32(op) + bytes::be32(status) + rest;
            &&& d.len() == 8 + rest.len()
            &&& xdr::u32_at(d, 0) == Some(op)
            &&& xdr::u32_at(d, 4) == Some(status)
            &&& d.subrange(8, d.len() as int) == rest
        }),
{
    let d = bytes::be32(op) + bytes::be32(status) + rest;
    bytes::be32_round_trip(op);
    bytes::be32_round_trip(status);
    assert(d.subrange(0, 4) =~= bytes::be32(op));
    assert(d.subrange(4, 8) =~= bytes::be32(status));
    assert(d.subrange(8, d.len() as int) =~= rest);
}

/// The result of an operation that has nothing to say is passed over by its size: none for
/// those that set a handle, sixteen bytes for a write or a close, and the slot's state for
/// a sequence.
pub proof fn quiet_results_are_passed(op: u32, rest: Seq<u8>)
    requires
        op == 53 || op == 38 || op == 4 || op == 22 || op == 24 || op == 15 || op == 58,
    ensures
        ({
            let n: int = if op == 53 {
                36
            } else if op == 38 || op == 4 {
                16
            } else {
                0
            };
            result_at(bytes::be32(op) + bytes::be32(0) + rest, 0) == if rest.len() < n {
                Parsed::Cut
            } else {
                Parsed::Next(
                    ResultModel {
                        op,
                        status: 0,
                        stateid: None,
                        filehandle: None,
                        size: None,
                        mtime: None,
                    },
                    8 + n,
                )
            }
        }),
{
    result_head(op, 0, rest);
}

/// A handle that was asked for is read whole.
pub proof fn handle_is_read(fh: Seq<u8>, rest: Seq<u8>)
    requires
        fh.len() <= u32::MAX,
    ensures
        result_at(bytes::be32(10) + bytes::be32(0) + (xdr::xdr_opaque(fh) + rest), 0)
            == Parsed::Next(
            ResultModel {
                op: 10,
                status: 0,
                stateid: None,
                filehandle: Some(fh),
                size: None,
                mtime: None,
            },
            12 + xdr_room(fh),
        ),
{
    let body = xdr::xdr_opaque(fh) + rest;
    let d = bytes::be32(10) + bytes::be32(0) + body;
    result_head(10, 0, body);
    opaque_is_sized(fh);
    assert(d.subrange(8, 12 + xdr_room(fh)) =~= xdr::xdr_opaque(fh));
    opaque_stands_at(d, 8, fh);
}

/// Opening gives a state, and what follows it is not read.
pub proof fn state_is_read(seqid: u32, other: Seq<u8>, rest: Seq<u8>)
    requires
        other.len() == 12,
    ensures
        result_at(bytes::be32(18) + bytes::be32(0) + (bytes::be32(seqid) + other + rest), 0)
            == Parsed::Last(
            ResultModel {
                op: 18,
                status: 0,
                stateid: Some((seqid, other)),
                filehandle: None,
                size: None,
                mtime: None,
            },
        ),
{
    let body = bytes::be32(seqid) + other + rest;
    let d = bytes::be32(18) + bytes::be32(0) + body;
    result_head(18, 0, body);
    bytes::be32_round_trip(seqid);
    assert(d.subrange(8, 12) =~= bytes::be32(seqid));
    assert(d.subrange(12, 24) =~= other);
}

/// The attributes that were asked for are read in the order of their numbers: the size,
/// then the time.
pub proof fn attributes_are_read(size: u64, secs: i64, nanos: u32, rest: Seq<u8>)
    ensures
        ({
            let vals = bytes::be64(size) + bytes::be64(secs as u64) + bytes::be32(nanos);
            let body = bytes::be32(2) + bytes::be32(0x10) + bytes::be32(0x20_0000)
                + xdr::xdr_opaque(vals) + rest;
            result_at(bytes::be32(9) + bytes::be32(0) + body, 0) == Parsed::Next(
                ResultModel {
                    op: 9,
                    status: 0,
                    stateid: None,
                    filehandle: None,
                    size: Some(size),
                    mtime: Some((secs, nanos as i64)),
                },
                44,
            )
        }),
        attr_size(0, bytes::be64(size)) is None,
        attr_size(0x10, bytes::be64(size)) == Some(size),
        attr_mtime(0, 0x20_0000, bytes::be64(secs as u64) + bytes::be32(nanos)) == Some(
            (secs, nanos as i64),
        ),
        attr_mtime(0x10, 0, bytes::be64(size)) is None,
{
    let vals = bytes::be64(size) + bytes::be64(secs as u64) + bytes::be32(nanos);
    let body = bytes::be32(2) + bytes::be32(0x10) + bytes::be32(0x20_0000) + xdr::xdr_opaque(vals)
        + rest;
    let d = bytes::be32(9) + bytes::be32(0) + body;
    result_head(9, 0, body);
    bytes::be32_round_trip(2);
    bytes::be32_round_trip(0x10);
    bytes::be32_round_trip(0x20_0000);
    bytes::be64_round_trip(size);
    bytes::be64_round_trip(secs as u64);
    bytes::be32_round_trip(nanos);
    bytes::i64_bits_round_trip(secs);
    opaque_is_sized(vals);
    assert(d.subrange(8, 12) =~= bytes::be32(2));
    assert(d.subrange(12, 16) =~= bytes::be32(0x10));
    assert(d.subrange(16, 20) =~= bytes::be32(0x20_0000));
    assert(d.subrange(20, 24 + xdr_room(vals)) =~= xdr::xdr_opaque(vals));
    opaque_stands_at(d, 20, vals);
    assert(vals.subrange(0, 8) =~= bytes::be64(size));
    assert(vals.subrange(8, 16) =~= bytes::be64(secs as u64));
    assert(vals.subrange(16, 20) =~= bytes::be32(nanos));
    let lone = bytes::be64(secs as u64) + bytes::be32(nanos);
    assert(lone.subrange(0, 8) =~= bytes::be64(secs as u64));
    assert(lone.subrange(8, 12) =~= bytes::be32(nanos));
    assert(bytes::be64(size).subrange(0, 8) =~= bytes::be64(size));
    assert(0x10u32 & 0x1fu32 == 0x10u32 && 0u32 & 0x1fu32 == 0u32 && 0x20_0000u32 & 0x3f_ffffu32
        == 0x20_0000u32 && 0u32 & 0x3f_ffffu32 == 0u32) by (bit_vector);
}

/// After attributes were set, the words that say which are passed over.
pub proof fn set_attributes_are_passed(n: u32, rest: Seq<u8>)
    ensures
        result_at(bytes::be32(34) + bytes::be32(0) + (bytes::be32(n) + rest), 0) == if rest.len()
            < 4 * n {
            Parsed::Cut
        } else {
            Parsed::Next(
                ResultModel {
                    op: 34,
                    status: 0,
                    stateid: None,
                    filehandle: None,
                    size: None,
                    mtime: None,
                },
                12 + 4 * n,
            )
        },
{
    let body = bytes::be32(n) + rest;
    let d = bytes::be32(34) + bytes::be32(0) + body;
    result_head(34, 0, body);
    bytes::be32_round_trip(n);
    assert(d.subrange(8, 12) =~= bytes::be32(n));
}

/// What is no reply, was rejected or was not carried out is an error that says so.
pub proof fn refused_call_is_an_error(xid: u32, kind: u32, stat: u32, rest: Seq<u8>)
    ensures
        kind != 1 ==> reply_in(bytes::be32(xid) + bytes::be32(kind) + rest) == Err::<
            ReplyModel,
            NfsFault,
        >(NfsFault::RpcError("expected REPLY (1), got "@ + text::decimal(kind as nat))),
        stat != 0 ==> reply_in(bytes::be32(xid) + bytes::be32(1) + (bytes::be32(stat) + rest))
            == Err::<ReplyModel, NfsFault>(
            NfsFault::RpcError("RPC rejected: "@ + text::decimal(stat as nat)),
        ),
        reply_of(Seq::empty()) == Err::<ReplyModel, NfsFault>(
            NfsFault::XdrDecode("reply too short"@),
        ),
{
    result_head(xid, kind, rest);
    bytes::be32_round_trip(stat);
    let body = bytes::be32(stat) + rest;
    let d = bytes::be32(xid) + bytes::be32(1) + body;
    result_head(xid, 1, body);
    assert(d.subrange(8, 12) =~= bytes::be32(stat));
}

/// A call that was accepted and failed is an error that says so.
pub proof fn failed_call_is_an_error(xid: u32, stat: u32, rest: Seq<u8>)
    requires
        stat != 0,
    ensures
        reply_in(
            bytes::be32(xid) + bytes::be32(1) + (bytes::be32(0) + bytes::be32(0) + bytes::be32(0)
                + bytes::be32(stat) + rest),
        ) == Err::<ReplyModel, NfsFault>(
            NfsFault::RpcError("RPC accept error: "@ + text::decimal(stat as nat)),
        ),
{
    bytes::be32_round_trip(stat);
    bytes::be32_round_trip(0);
    let accepted = bytes::be32(0) + bytes::be32(0) + bytes::be32(0) + bytes::be32(stat) + rest;
    let e = bytes::be32(xid) + bytes::be32(1) + accepted;
    result_head(xid, 1, accepted);
    assert(e.subrange(8, 12) =~= bytes::be32(0));
    assert(e.subrange(16, 20) =~= bytes::be32(0));
    assert(e.subrange(20, 24) =~= bytes::be32(stat));
    let none = Seq::<u8>::empty();
    assert(e.subrange(20, 20) =~= none);
    assert(xdr::u32_at(e, 8) == Some(0u32));
    assert(xdr::u32_at(e, 16) == Some(0u32));
    assert(xdr::opaque_at(e, 16) == Some(none));
    assert(xdr::u32_at(e, 20) == Some(stat));
    assert(accepted_in(e, xid, 20) == Err::<ReplyModel, NfsFault>(
        NfsFault::RpcError("RPC accept error: "@ + text::decimal(stat as nat)),
    ));
}

/// The codes of the protocol's errors have their names.
pub proof fn codes_have_names(code: u32)
    ensures
        ({
            let name = error_name(code);
            &&& code == 0 ==> name == "NFS4_OK"@
            &&& code == 1 ==> name == "NFS4ERR_PERM"@
            &&& code == 2 ==> name == "NFS4ERR_NOENT"@
            &&& code == 13 ==> name == "NFS4ERR_ACCESS"@
            &&& code == 17 ==> name == "NFS4ERR_EXIST"@
            &&& code == 70 ==> name == "NFS4ERR_STALE"@
            &&& code == 10008 ==> name == "NFS4ERR_DELAY"@
            &&& code == 10013 ==> name == "NFS4ERR_GRACE"@
            &&& code == 10015 ==> name == "NFS4ERR_SHARE_DENIED"@
            &&& code == 10016 ==> name == "NFS4ERR_WRONGSEC"@
            &&& code == 10026 ==> name == "NFS4ERR_BADSEQ"@
            &&& code == 10052 ==> name == "NFS4ERR_BADSESSION"@
            &&& code == 10063 ==> name == "NFS4ERR_SEQ_MISORDERED"@
            &&& ![0u32, 1, 2, 13, 17, 70, 10008, 10013, 10015, 10016, 10026, 10052, 10063]@.contains(
                code,
            ) ==> name == "NFS4ERR_UNKNOWN"@
        }),
{
}

/// A reply stands for what it holds: its number, its status, its tag and every result at
/// its place.
pub proof fn replies_stand_for_themselves(r: CompoundReply)
    ensures
        r@.xid == r.xid,
        r@.status == r.status,
        r@.tag == r.tag@,
        r@.results.len() == r.op_results@.len(),
        forall|i: int|
            0 <= i < r.op_results@.len() ==> {
                let m = #[trigger] r@.results[i];
                let x = r.op_results@[i];
                &&& m.op == x.op && m.status == x.status && m.size == x.size && m.mtime == x.mtime
                &&& m.stateid is Some <==> x.stateid is Some
                &&& x.stateid matches Some(s) ==> m.stateid == Some((s.seqid, s.other@))
                &&& m.filehandle is Some <==> x.filehandle is Some
                &&& x.filehandle matches Some(h) ==> m.filehandle == Some(h@)
            },
        cut_off() == NfsFault::XdrDecode("XDR: unexpected end of data"@),
{
}

/// A reply is read behind the mark of its fragment, and there is none without one.
pub proof fn reply_stands_behind_its_mark(data: Seq<u8>)
    ensures
        data.len() < 4 ==> reply_of(data) == Err::<ReplyModel, NfsFault>(
            NfsFault::XdrDecode("reply too short"@),
        ),
        data.len() >= 4 ==> reply_of(data) == reply_in(data.subrange(4, data.len() as int)),
{
}

} // verus!
