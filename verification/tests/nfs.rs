use fxcp_core::nfs::client::{
    after_write, extract_exchange_id_client_id, extract_session_id, judge_lookup, judge_stat,
    judge_write, AfterWrite, NfsCompoundClient, ReplyReader, MAX_FRAGMENT,
};
use fxcp_core::nfs::mount::{
    get_mount_id, is_v42, probe_nfs_bypass, requires_kerberos, resolve_nfs_handle, server_port,
    split_source, wire_handle, NfsBypassInfo,
};
use fxcp_core::nfs::pool::{bypass_wanted, next_pool_step, write_file_with_pool, PoolStep};
use fxcp_core::nfs::rpc::{
    build_compound, build_null_call, encode_auth_sys, encode_op, frame, nfs4_error_name,
    parse_compound_reply, CompoundReply, Nfs4Op, OpResult, StateId, WriteStable, NFS4ERR_BADSESSION,
    NFS4ERR_STALE, OP_GETATTR, OP_GETFH, OP_LOOKUP, OP_OPEN, OP_PUTFH, OP_SEQUENCE, OP_WRITE,
};
use fxcp_core::nfs::xdr::{XdrDecoder, XdrEncoder, XdrError};
use fxcp_core::nfs::{NfsError, NFS_BYPASS_MAX_SIZE};

#[test]
fn test_u32_roundtrip() {
    let mut enc = XdrEncoder::new(64);
    enc.encode_u32(0);
    enc.encode_u32(1);
    enc.encode_u32(0xDEADBEEF);
    enc.encode_u32(u32::MAX);

    let bytes = enc.into_bytes();
    let mut dec = XdrDecoder::new(&bytes);
    assert_eq!(dec.decode_u32().unwrap(), 0);
    assert_eq!(dec.decode_u32().unwrap(), 1);
    assert_eq!(dec.decode_u32().unwrap(), 0xDEADBEEF);
    assert_eq!(dec.decode_u32().unwrap(), u32::MAX);
    assert_eq!(dec.remaining(), 0);
}

#[test]
fn test_u64_roundtrip() {
    let mut enc = XdrEncoder::new(64);
    enc.encode_u64(0x0102030405060708);
    let bytes = enc.into_bytes();
    let mut dec = XdrDecoder::new(&bytes);
    assert_eq!(dec.decode_u64().unwrap(), 0x0102030405060708);
}

#[test]
fn test_opaque_roundtrip() {
    let mut enc = XdrEncoder::new(64);
    enc.encode_opaque(b"hello");
    enc.encode_opaque(b"test");
    enc.encode_opaque(b"x");
    enc.encode_opaque(b"");

    let bytes = enc.into_bytes();
    assert_eq!(bytes.len(), 4 + 8 + 4 + 4 + 4 + 4 + 4);

    let mut dec = XdrDecoder::new(&bytes);
    assert_eq!(dec.decode_opaque().unwrap(), b"hello");
    assert_eq!(dec.decode_opaque().unwrap(), b"test");
    assert_eq!(dec.decode_opaque().unwrap(), b"x");
    assert_eq!(dec.decode_opaque().unwrap(), b"");
    assert_eq!(dec.remaining(), 0);
}

#[test]
fn test_string_roundtrip() {
    let mut enc = XdrEncoder::new(64);
    enc.encode_string("foxing");
    let bytes = enc.into_bytes();
    let mut dec = XdrDecoder::new(&bytes);
    let s = dec.decode_opaque().unwrap();
    assert_eq!(std::str::from_utf8(s).unwrap(), "foxing");
}

#[test]
fn test_bool_encode() {
    let mut enc = XdrEncoder::new(16);
    enc.encode_bool(true);
    enc.encode_bool(false);
    let bytes = enc.into_bytes();
    assert_eq!(&bytes, &[0, 0, 0, 1, 0, 0, 0, 0]);
}

#[test]
fn test_decoder_truncated() {
    let data = [0u8; 3];
    let mut dec = XdrDecoder::new(&data);
    assert!(matches!(dec.decode_u32(), Err(XdrError::Truncated)));
}

#[test]
fn test_padding_alignment() {
    let mut enc = XdrEncoder::new(16);
    enc.encode_opaque(&[0xFF]);
    let bytes = enc.into_bytes();
    assert_eq!(bytes.len(), 8);
    assert_eq!(&bytes, &[0, 0, 0, 1, 0xFF, 0, 0, 0]);
}

#[test]
fn numbers_and_fixed_bytes_on_the_wire() {
    let mut enc = XdrEncoder::new(0);
    assert!(enc.is_empty());
    enc.encode_i32(-2);
    enc.encode_i64(-3);
    enc.encode_opaque_fixed(b"abcde");
    assert_eq!(enc.len(), 20);
    assert_eq!(
        enc.as_bytes(),
        &[255, 255, 255, 254, 255, 255, 255, 255, 255, 255, 255, 253, 97, 98, 99, 100, 101, 0, 0, 0]
    );
    let bytes = enc.into_bytes();
    let mut dec = XdrDecoder::new(&bytes);
    assert_eq!(dec.decode_i32().unwrap(), -2);
    assert_eq!(dec.decode_u64().unwrap(), (-3i64) as u64);
    assert_eq!(dec.decode_opaque_fixed(5).unwrap(), b"abcde");
    assert_eq!(dec.position(), 20);
    assert!(dec.skip(1).is_err());
    let mut dec = XdrDecoder::new(&bytes);
    dec.skip(5).unwrap();
    assert_eq!(dec.position(), 8);
    dec.skip_raw(3).unwrap();
    assert_eq!(dec.position(), 11);
    assert_eq!(XdrError::Truncated.message(), "XDR: unexpected end of data");
}

#[test]
fn test_parse_nfs_source() {
    let (server, export) = split_source("server.example.com:/vol/data").unwrap();
    assert_eq!(server, "server.example.com");
    assert_eq!(export, "/vol/data");
}

#[test]
fn test_kerberos_detection() {
    let opts = "rw,vers=4.2,sec=krb5p,rsize=1048576";
    assert!(requires_kerberos(opts));
}

#[test]
fn test_v42_detection() {
    assert!(is_v42("vers=4.2,rsize=1048576"));
    assert!(is_v42("nfsvers=4.2"));
    assert!(!is_v42("vers=4.1,rsize=1048576"));
}

#[test]
fn test_port_extraction() {
    let port = server_port("rw,vers=4.2,port=2050,rsize=1048576");
    assert_eq!(port, 2050);

    let port2 = server_port("rw,vers=4.2,rsize=1048576");
    assert_eq!(port2, 2049);
}

const TABLE: &str = "\
22 1 0:20 / / rw - ext4 /dev/sda1 rw
36 35 0:52 / /mnt/nas rw,relatime shared:1 - nfs4 nas.local:/vol/data rw,vers=4.2,port=2050
37 36 0:53 / /mnt/nas/deep rw,relatime shared:2 - nfs4 deep.local:/export rw,vers=4.2,sec=krb5
38 35 0:54 / /mnt/old rw,relatime shared:3 - nfs old.local:/vol rw,vers=4.1
";

#[test]
fn mounts_are_probed() {
    let info = probe_nfs_bypass("/mnt/nas/dir", TABLE).unwrap();
    assert_eq!(info.server, "nas.local");
    assert_eq!(info.port, 2050);
    assert_eq!(info.export_path, "/vol/data");
    assert_eq!(info.mount_point, "/mnt/nas");
    assert!(info.v42_confirmed);
    assert!(probe_nfs_bypass("/mnt/nas/deep/x", TABLE).is_none());
    assert!(probe_nfs_bypass("/mnt/old", TABLE).is_none());
    assert!(probe_nfs_bypass("/home", TABLE).is_none());
    assert_eq!(get_mount_id("/mnt/nas/dir", TABLE), Some(36));
    assert_eq!(get_mount_id("/mnt/nas/deep", TABLE), Some(37));
}

#[test]
fn handles_lose_the_kernels_header() {
    let mut raw = vec![7u8; 14];
    raw.extend_from_slice(&[1, 2, 0, 3, 0, 0]);
    assert_eq!(wire_handle(&raw, 2), vec![1, 2, 0, 3]);
    assert_eq!(wire_handle(&raw, 1), raw);
    assert_eq!(wire_handle(&raw[..14], 5), vec![7u8; 14]);
    let mut buffer = [0u8; 128];
    buffer[..20].copy_from_slice(&raw);
    assert_eq!(resolve_nfs_handle(20, 2, &buffer), Some(vec![1, 2, 0, 3]));
    assert_eq!(resolve_nfs_handle(129, 2, &buffer), None);
}

fn be(words: &[u32]) -> Vec<u8> {
    words.iter().flat_map(|w| w.to_be_bytes()).collect()
}

#[test]
fn null_call_on_the_wire() {
    let msg = build_null_call(9);
    assert_eq!(msg[..4], [0x80, 0, 0, 40]);
    assert_eq!(msg[4..], be(&[9, 0, 2, 100003, 4, 0, 0, 0, 0, 0])[..]);
}

#[test]
fn compound_on_the_wire() {
    let msg = build_compound(7, "tag", 1000, 100, "m", &[Nfs4Op::PutRootFh, Nfs4Op::GetFh]);
    let mut body = be(&[7, 0, 2, 100003, 4, 1]);
    body.extend(be(&[1, 28, 0, 1]));
    body.extend_from_slice(b"m\0\0\0");
    body.extend(be(&[1000, 100, 1, 100]));
    body.extend(be(&[0, 0, 3]));
    body.extend_from_slice(b"tag\0");
    body.extend(be(&[2, 2, 24, 10]));
    assert_eq!(msg, frame(&body));
    assert_eq!(msg[..4], [0x80, 0, 0, body.len() as u8]);
    let mut enc = XdrEncoder::new(0);
    encode_auth_sys(&mut enc, 1000, 100, "m");
    assert_eq!(enc.as_bytes(), &body[24..60]);
}

fn op_on_wire(op: Nfs4Op) -> Vec<u8> {
    let mut enc = XdrEncoder::new(0);
    encode_op(&mut enc, &op);
    enc.into_bytes()
}

#[test]
fn operations_on_the_wire() {
    assert_eq!(
        op_on_wire(Nfs4Op::Sequence {
            session_id: [3; 16],
            sequence_id: 5,
            slot_id: 0,
            highest_slot_id: 1,
            cache_this: true,
        }),
        be(&[53, 0x03030303, 0x03030303, 0x03030303, 0x03030303, 5, 0, 1, 1])
    );
    assert_eq!(op_on_wire(Nfs4Op::PutFh { handle: vec![1, 2] }), be(&[22, 2, 0x01020000]));
    assert_eq!(op_on_wire(Nfs4Op::Lookup { name: "ab".to_string() }), be(&[15, 2, 0x61620000]));
    assert_eq!(
        op_on_wire(Nfs4Op::Open {
            seqid: 1,
            share_access: 2,
            share_deny: 0,
            clientid: 9,
            owner: vec![1],
            filename: "f".to_string(),
            mode: 0o100644,
        }),
        be(&[18, 1, 2, 0, 0, 9, 1, 0x01000000, 1, 0, 2, 0, 2, 4, 0o644, 0, 1, 0x66000000])
    );
    assert_eq!(
        op_on_wire(Nfs4Op::Write {
            stateid: StateId::current(),
            offset: 4096,
            stable: WriteStable::FileSync,
            data: vec![0xAA],
        }),
        be(&[38, 1, 0, 0, 0, 0, 4096, 2, 1, 0xAA000000])
    );
    assert_eq!(
        op_on_wire(Nfs4Op::SetAttr {
            stateid: StateId { seqid: 4, other: [0; 12] },
            mode: Some(0o600),
            uid: None,
            gid: None,
            mtime: None,
        }),
        be(&[34, 4, 0, 0, 0, 2, 0, 2, 4, 0o600])
    );
    assert_eq!(
        op_on_wire(Nfs4Op::Close { seqid: 8, stateid: StateId::default() }),
        be(&[4, 8, 0, 0, 0, 0])
    );
    assert_eq!(op_on_wire(Nfs4Op::GetAttr { attr_request: [16, 32] }), be(&[9, 2, 16, 32]));
    assert_eq!(op_on_wire(Nfs4Op::ReclaimComplete), be(&[58, 0]));
}

fn reply(status: u32, results: &[Vec<u8>]) -> Vec<u8> {
    let mut body = be(&[7, 1, 0, 0, 0, 0, status, 0, results.len() as u32]);
    for r in results {
        body.extend_from_slice(r);
    }
    frame(&body)
}

#[test]
fn replies_are_read() {
    let mut sequence = be(&[OP_SEQUENCE, 0]);
    sequence.extend_from_slice(&[0; 36]);
    let data = reply(
        0,
        &[sequence, be(&[OP_PUTFH, 0]), be(&[OP_LOOKUP, 2]), be(&[OP_GETFH, 0, 3, 0x01020300])],
    );
    let r = parse_compound_reply(&data).unwrap();
    assert_eq!(r.xid, 7);
    assert_eq!(r.status, 0);
    let seen: Vec<(u32, u32)> = r.op_results.iter().map(|x| (x.op, x.status)).collect();
    assert_eq!(seen, vec![(53, 0), (22, 0), (15, 2), (10, 0)]);
    assert_eq!(r.op_results[3].filehandle, Some(vec![1, 2, 3]));

    let open = be(&[OP_OPEN, 0, 6, 1, 2, 3, 99]);
    let r = parse_compound_reply(&reply(0, &[open, be(&[OP_PUTFH, 0])])).unwrap();
    assert_eq!(r.op_results.len(), 1);
    let s = r.op_results[0].stateid.as_ref().unwrap();
    assert_eq!((s.seqid, s.other[3], s.other[11]), (6, 1, 3));

    let unknown = parse_compound_reply(&reply(0, &[be(&[999, 0]), be(&[OP_PUTFH, 0])])).unwrap();
    assert!(unknown.op_results.is_empty());
}

#[test]
fn attributes_are_read() {
    let mut getattr = be(&[OP_GETATTR, 0, 2, 0x10, 0x20_0000, 20]);
    getattr.extend_from_slice(&4096u64.to_be_bytes());
    getattr.extend_from_slice(&1700000000i64.to_be_bytes());
    getattr.extend_from_slice(&25u32.to_be_bytes());
    let data = reply(0, &[be(&[OP_PUTFH, 0]), be(&[OP_PUTFH, 0]), be(&[OP_LOOKUP, 0]), getattr]);
    let r = parse_compound_reply(&data).unwrap();
    assert_eq!(r.op_results[3].size, Some(4096));
    assert_eq!(r.op_results[3].mtime, Some((1700000000, 25)));
    let names = vec!["a".to_string(), "b".to_string()];
    let stats = judge_stat(&r, &names);
    assert_eq!(stats.len(), 1);
    assert_eq!(stats[0].name, "a");
    assert_eq!((stats[0].size, stats[0].mtime_sec, stats[0].mtime_nsec), (4096, 1700000000, 25));
}

fn text(e: NfsError) -> String {
    e.message()
}

#[test]
fn reply_errors() {
    assert_eq!(text(parse_compound_reply(&[1, 2]).unwrap_err()), "XDR decode error: reply too short");
    assert_eq!(
        text(parse_compound_reply(&frame(&be(&[7, 0]))).unwrap_err()),
        "RPC error: expected REPLY (1), got 0"
    );
    assert_eq!(
        text(parse_compound_reply(&frame(&be(&[7, 1, 1]))).unwrap_err()),
        "RPC error: RPC rejected: 1"
    );
    assert_eq!(
        text(parse_compound_reply(&frame(&be(&[7, 1, 0, 0, 0, 5]))).unwrap_err()),
        "RPC error: RPC accept error: 5"
    );
    assert_eq!(
        text(parse_compound_reply(&frame(&be(&[7, 1, 0, 0, 0, 0, 0]))).unwrap_err()),
        "XDR decode error: XDR: unexpected end of data"
    );
}

#[test]
fn errors_have_sentences() {
    assert_eq!(text(NfsError::ConnectionFailed("x".to_string())), "TCP connection failed: x");
    assert_eq!(text(NfsError::SessionFailed("x".to_string())), "Session establishment failed: x");
    assert_eq!(text(NfsError::StaleHandle { path: "p".to_string() }), "Stale file handle for p");
    assert_eq!(text(NfsError::Timeout(1500)), "Timeout after 1.5s");
    assert_eq!(text(NfsError::Timeout(250)), "Timeout after 250ms");
    assert_eq!(
        text(NfsError::FileTooLarge { size: 9, max: 5 }),
        "File too large for bypass: 9 > 5"
    );
    assert_eq!(text(NfsError::KerberosRequired), "Kerberos auth required — bypass unavailable");
    assert_eq!(nfs4_error_name(2), "NFS4ERR_NOENT");
    assert_eq!(nfs4_error_name(10013), "NFS4ERR_GRACE");
    assert_eq!(nfs4_error_name(4711), "NFS4ERR_UNKNOWN");
}

fn compound(status: u32, results: Vec<OpResult>) -> CompoundReply {
    CompoundReply { xid: 1, status, tag: vec![], op_results: results }
}

fn result(op: u32, status: u32) -> OpResult {
    OpResult { op, status, stateid: None, filehandle: None, size: None, mtime: None }
}

#[test]
fn writes_are_judged() {
    assert!(judge_write(&compound(0, vec![result(OP_WRITE, 0)]), "f").is_ok());
    assert_eq!(
        text(judge_write(&compound(0, vec![result(OP_WRITE, 13)]), "f").unwrap_err()),
        "NFS4 error 13: op 38 failed: NFS4ERR_ACCESS"
    );
    assert_eq!(
        text(judge_write(&compound(NFS4ERR_STALE, vec![]), "f").unwrap_err()),
        "Stale file handle for f"
    );
    assert_eq!(
        text(judge_write(&compound(NFS4ERR_BADSESSION, vec![]), "f").unwrap_err()),
        "NFS4 error 10052: session error: NFS4ERR_BADSESSION — needs recovery"
    );
    assert_eq!(
        text(judge_write(&compound(2, vec![]), "f").unwrap_err()),
        "NFS4 error 2: compound failed: NFS4ERR_NOENT"
    );
}

#[test]
fn writes_are_tried_again_in_grace() {
    let grace = || Err(NfsError::Nfs4Error { code: 10013, message: "x".to_string() });
    assert!(matches!(after_write(0, grace()), AfterWrite::Retry));
    assert!(matches!(after_write(1, grace()), AfterWrite::Retry));
    match after_write(2, grace()) {
        AfterWrite::Failed(e) => {
            assert_eq!(text(e), "NFS4 error 10013: server grace period persists after retries")
        }
        _ => panic!(),
    }
    assert!(matches!(after_write(0, Ok(())), AfterWrite::Done));
    assert!(matches!(after_write(0, Err(NfsError::Timeout(1))), AfterWrite::Failed(_)));
}

#[test]
fn lookups_are_judged() {
    let mut found = result(OP_GETFH, 0);
    found.filehandle = Some(vec![5, 6]);
    assert_eq!(judge_lookup(&compound(0, vec![found]), "d").unwrap(), vec![5, 6]);
    assert_eq!(
        text(judge_lookup(&compound(2, vec![]), "a/b").unwrap_err()),
        "NFS4 error 2: LOOKUP for \"a/b\" failed: NFS4ERR_NOENT"
    );
    assert_eq!(
        text(judge_lookup(&compound(0, vec![]), "a\tb").unwrap_err()),
        "Session establishment failed: GETFH not found in reply for \"a\\tb\""
    );
}

#[test]
fn session_numbers_are_found() {
    let mut data = vec![9, 9];
    data.extend(be(&[42, 0, 1, 2]));
    assert_eq!(extract_exchange_id_client_id(&data).unwrap(), 0x1_0000_0002);
    assert!(extract_exchange_id_client_id(&data[..10]).is_err());
    let mut data = be(&[43, 0]);
    data.extend(1..=16u8);
    let want: Vec<u8> = (1..=16).collect();
    assert_eq!(extract_session_id(&data).unwrap().to_vec(), want);
    assert_eq!(
        text(extract_session_id(&[]).unwrap_err()),
        "Session establishment failed: cannot parse session_id from CREATE_SESSION reply"
    );
}

#[test]
fn fragments_are_joined() {
    let mut r = ReplyReader::new();
    assert_eq!(r.on_mark(&[0, 0, 0, 2]).unwrap(), 2);
    assert!(!r.last);
    r.on_data(&[1, 2]);
    assert_eq!(r.on_mark(&[0x80, 0, 0, 1]).unwrap(), 1);
    assert!(r.last);
    r.on_data(&[3]);
    assert_eq!(r.buf, vec![0, 0, 0, 2, 1, 2, 3]);
    let long = (MAX_FRAGMENT as u32 + 1).to_be_bytes();
    assert_eq!(
        text(r.on_mark(&long).unwrap_err()),
        "RPC error: reply fragment too large: 16781313 bytes"
    );
}

fn client() -> NfsCompoundClient {
    let info = NfsBypassInfo {
        server: "nas".to_string(),
        port: 2049,
        export_path: "/vol".to_string(),
        mount_point: "/mnt/nas".to_string(),
        v42_confirmed: true,
    };
    NfsCompoundClient::connect(0, 0, "m".to_string(), info)
}

#[test]
fn directories_are_looked_up_once() {
    let mut c = client();
    assert_eq!(c.get_or_resolve_handle("/mnt/nas/a/b"), None);
    let msg = c.lookup_call("/mnt/nas/a/b", &[1]);
    let tail = be(&[22, 1, 0x01000000, 15, 1, 0x61000000, 15, 1, 0x62000000, 10]);
    assert_eq!(msg[msg.len() - tail.len()..], tail[..]);
    assert_eq!(c.sequence_id, 2);
    let mut sequence = be(&[OP_SEQUENCE, 0]);
    sequence.extend_from_slice(&[0; 36]);
    let data = reply(0, &[sequence, be(&[OP_GETFH, 0, 1, 0x09000000])]);
    assert_eq!(c.accept_lookup("/mnt/nas/a/b", &data).unwrap(), vec![9]);
    assert_eq!(c.get_or_resolve_handle("/mnt/nas//a/./b/"), Some(vec![9]));
    assert_eq!(c.get_or_resolve_handle("/mnt/nas/a"), None);
    c.invalidate_handle("/mnt/nas/a/b");
    assert_eq!(c.get_or_resolve_handle("/mnt/nas/a/b"), None);
    c.accept_lookup("/mnt/nas/a/b", &data).unwrap();
    c.recover_session();
    assert_eq!(c.get_or_resolve_handle("/mnt/nas/a/b"), None);
}

#[test]
fn directories_on_the_way_are_kept() {
    let mut c = client();
    let mut sequence = be(&[OP_SEQUENCE, 0]);
    sequence.extend_from_slice(&[0; 36]);
    let mut asked = Vec::new();
    while let Some(step) = c.next_lookup("/mnt/nas/a/b/c") {
        let handle = (asked.len() as u32 + 1) << 24;
        let data = reply(0, &[sequence.clone(), be(&[OP_GETFH, 0, 1, handle])]);
        c.accept_lookup(&step, &data).unwrap();
        asked.push(step);
    }
    assert_eq!(asked, vec!["/mnt/nas/a", "/mnt/nas/a/b", "/mnt/nas/a/b/c"]);
    assert_eq!(c.get_or_resolve_handle("/mnt/nas/a"), Some(vec![1]));
    assert_eq!(c.get_or_resolve_handle("/mnt/nas/a/b"), Some(vec![2]));
    assert_eq!(c.get_or_resolve_handle("/mnt/nas/a/b/c"), Some(vec![3]));
    assert_eq!(c.next_lookup("/mnt/nas/a/d"), Some("/mnt/nas/a/d".to_string()));
    assert_eq!(c.next_lookup("/mnt/nas"), Some("/mnt/nas".to_string()));
    assert_eq!(c.next_lookup("/elsewhere/x"), Some("/elsewhere/x".to_string()));
}

#[test]
fn writing_relies_on_the_current_state() {
    let mut c = client();
    let msg = c.write_file(&[7], "f", &[0xAA], 0o644, 1000, 1000, (5, 6), 42);
    let tail = be(&[
        38, 1, 0, 0, 0, 0, 0, 2, 1, 0xAA000000, 34, 1, 0, 0, 0, 2, 0, 0, 0, 4, 1, 1, 0, 0, 0,
    ]);
    assert_eq!(msg[msg.len() - tail.len()..], tail[..]);
}

#[test]
fn sessions_are_set_up() {
    let mut c = client();
    let msg = c.exchange_id_call(77, 12);
    assert_eq!(msg[4..8], [0, 0, 0, 1]);
    assert_eq!(c.xid_counter, 2);
    let mut result = be(&[42, 0]);
    result.extend_from_slice(&5u64.to_be_bytes());
    c.accept_exchange_id(&reply(0, &[result])).unwrap();
    assert_eq!(c.client_id, 5);
    let _ = c.create_session_call();
    let mut result = be(&[43, 0]);
    result.extend_from_slice(&[4; 16]);
    c.accept_create_session(&reply(0, &[result])).unwrap();
    assert_eq!(c.session_id, [4; 16]);
    let _ = c.reclaim_complete_call();
    assert!(c.accept_reclaim_complete(&reply(0, &[])).is_ok());
    assert_eq!(
        text(c.accept_reclaim_complete(&reply(10008, &[])).unwrap_err()),
        "Session establishment failed: RECLAIM_COMPLETE failed: NFS4ERR_DELAY (10008)"
    );
}

#[test]
fn files_are_written_and_asked_for() {
    let mut c = client();
    let msg = c.write_file(&[1], "f", b"data", 0o644, 1, 2, (3, 4), 99);
    assert_eq!(msg[..4], ((msg.len() - 4) as u32 | 0x8000_0000).to_be_bytes());
    assert_eq!(c.xid_counter, 2);
    assert_eq!(c.sequence_id, 2);
    assert!(c.accept_write(&reply(0, &[]), "f").is_ok());
    assert!(c.accept_write(&reply(NFS4ERR_STALE, &[]), "f").is_err());
    let names = vec!["a".to_string()];
    let msg = c.batch_stat(&[1], &names);
    let tail = be(&[15, 1, 0x61000000, 9, 2, 0x10, 0x20_0000]);
    assert!(msg.windows(tail.len()).any(|w| w == &tail[..]));
    assert!(c.accept_stat(&reply(0, &[]), &names).unwrap().is_empty());
}

#[test]
fn pool_writes_settle() {
    assert_eq!(write_file_with_pool(false, 1), PoolStep::LeaveIt);
    assert_eq!(write_file_with_pool(true, NFS_BYPASS_MAX_SIZE as usize + 1), PoolStep::LeaveIt);
    let mut step = write_file_with_pool(true, 1);
    assert_eq!(step, PoolStep::Resolve { again: false });
    let path = [true, false, true, true, true];
    for fine in path {
        step = next_pool_step(step, fine);
    }
    assert_eq!(step, PoolStep::Written);
    assert_eq!(next_pool_step(PoolStep::Write { again: true }, false), PoolStep::LeaveIt);
    assert_eq!(next_pool_step(PoolStep::Recover, false), PoolStep::LeaveIt);
    assert!(bypass_wanted(&None));
    assert!(bypass_wanted(&Some("1".to_string())));
    assert!(!bypass_wanted(&Some("0".to_string())));
}
