//! COMPOUND replies of NFSv4.1.

use bytes::{Buf, Bytes};
use nfs_rs::nfs41::compound::OpNum;
use nfs_rs::nfs41::response::{skip_op_result, CompoundResponse};
use nfs_rs::nfs41::Nfs4ErrorCode;
use nfs_rs::xdr::{xdr_string, xdr_u32, xdr_var_bytes};

//  CompoundResponse decode tests 

#[test]
fn compound_response_decode_simple_ok() {
    // Build a minimal COMPOUND4res: status=0 + tag="" + 1 op (PUTROOTFH OK)
    let mut buf = Vec::new();
    xdr_u32(&mut buf, 0); // status NFS4_OK
    xdr_string(&mut buf, ""); // tag
    xdr_u32(&mut buf, 1); // 1 result op
    xdr_u32(&mut buf, OpNum::PutRootFh.number()); // opcode
    xdr_u32(&mut buf, 0); // NFS4_OK (void result)

    let resp = CompoundResponse::decode(Bytes::from(buf)).unwrap();
    assert!(matches!(resp.status, Nfs4ErrorCode::NFS4_OK));
    assert_eq!(resp.results.len(), 1);
    assert_eq!(resp.results[0].opcode, OpNum::PutRootFh.number());
}

#[test]
fn compound_response_decode_with_sequence() {
    let mut buf = Vec::new();
    xdr_u32(&mut buf, 0); // NFS4_OK
    xdr_string(&mut buf, "test");
    xdr_u32(&mut buf, 2); // 2 ops

    // SEQUENCE result
    xdr_u32(&mut buf, OpNum::Sequence.number());
    xdr_u32(&mut buf, 0); // NFS4_OK
    buf.extend_from_slice(&[0u8; 16]); // session_id
    xdr_u32(&mut buf, 1); // sequence_id
    xdr_u32(&mut buf, 0); // slot_id
    xdr_u32(&mut buf, 3); // highest_slot_id
    xdr_u32(&mut buf, 3); // target_highest_slot_id
    xdr_u32(&mut buf, 0); // status_flags

    // PUTROOTFH result
    xdr_u32(&mut buf, OpNum::PutRootFh.number());
    xdr_u32(&mut buf, 0);

    let resp = CompoundResponse::decode(Bytes::from(buf)).unwrap();
    assert_eq!(resp.tag, "test");
    assert_eq!(resp.results.len(), 2);
    resp.op_ok(0).unwrap(); // SEQUENCE
    resp.op_ok(1).unwrap(); // PUTROOTFH
}

#[test]
fn compound_response_decode_error_status() {
    let mut buf = Vec::new();
    xdr_u32(&mut buf, 2); // NFS4ERR_NOENT
    xdr_string(&mut buf, "");
    xdr_u32(&mut buf, 0); // 0 ops

    let resp = CompoundResponse::decode(Bytes::from(buf)).unwrap();
    assert!(matches!(resp.status, Nfs4ErrorCode::NFS4ERR_NOENT));
    assert!(resp.check_status().is_err());
}

#[test]
fn compound_response_op_ok_out_of_bounds() {
    let mut buf = Vec::new();
    xdr_u32(&mut buf, 0);
    xdr_string(&mut buf, "");
    xdr_u32(&mut buf, 0); // 0 ops

    let resp = CompoundResponse::decode(Bytes::from(buf)).unwrap();
    assert!(resp.op_ok(0).is_err()); // no ops
}

#[test]
fn compound_response_decode_getfh_ok() {
    let mut buf = Vec::new();
    xdr_u32(&mut buf, 0); // NFS4_OK
    xdr_string(&mut buf, "");
    xdr_u32(&mut buf, 1); // 1 op
    // GETFH result
    xdr_u32(&mut buf, OpNum::GetFh.number());
    xdr_u32(&mut buf, 0); // NFS4_OK
    xdr_var_bytes(&mut buf, &[0xDE, 0xAD]); // fh

    let resp = CompoundResponse::decode(Bytes::from(buf)).unwrap();
    let op = resp.op_ok(0).unwrap();
    let mut data = op.data.clone();
    // Should have the fh opaque
    let len = data.get_u32() as usize;
    assert_eq!(len, 2);
}

#[test]
fn compound_response_decode_truncated() {
    let buf = vec![0u8; 2]; // too short
    assert!(CompoundResponse::decode(Bytes::from(buf)).is_err());
}

/// LOCK4denied with an owner of one byte.
fn lock_denied() -> Vec<u8> {
    let mut denied = vec![0u8; 28];
    xdr_var_bytes(&mut denied, &[0x78]);
    denied
}

#[test]
fn a_denied_lock_is_skipped_with_the_lock_in_its_way() {
    let mut buf = Bytes::from(lock_denied());
    assert_eq!(buf.len(), 36);
    skip_op_result(OpNum::Lock.number(), 10010, &mut buf).unwrap();
    assert!(buf.is_empty());

    // Another failure of LOCK has no data.
    let mut buf = Bytes::from(lock_denied());
    skip_op_result(OpNum::Lock.number(), 10012, &mut buf).unwrap();
    assert_eq!(buf.len(), 36);
}

#[test]
fn the_result_behind_a_denied_lock_is_read() {
    let mut buf = Vec::new();
    xdr_u32(&mut buf, 10010);
    xdr_string(&mut buf, "");
    xdr_u32(&mut buf, 2);
    xdr_u32(&mut buf, OpNum::Lock.number());
    xdr_u32(&mut buf, 10010);
    buf.extend_from_slice(&lock_denied());
    xdr_u32(&mut buf, OpNum::GetFh.number());
    xdr_u32(&mut buf, 0);
    xdr_var_bytes(&mut buf, b"fh");

    let resp = CompoundResponse::decode(Bytes::from(buf)).unwrap();
    assert_eq!(resp.results.len(), 2);
    assert!(matches!(resp.results[0].status, Nfs4ErrorCode::NFS4ERR_DENIED));
    assert_eq!(resp.results[0].data, lock_denied());
    assert_eq!(resp.results[1].opcode, OpNum::GetFh.number());
    assert_eq!(resp.op_ok(1).unwrap().data, [0u8, 0, 0, 2, b'f', b'h', 0, 0].as_slice());
}

#[test]
fn void_results_have_no_data() {
    let mut buf = Vec::new();
    xdr_u32(&mut buf, 0);
    xdr_string(&mut buf, "");
    xdr_u32(&mut buf, 2);
    for _ in 0..2 {
        xdr_u32(&mut buf, OpNum::PutRootFh.number());
        xdr_u32(&mut buf, 0);
    }
    let resp = CompoundResponse::decode(Bytes::from(buf)).unwrap();
    assert_eq!(resp.tag, "");
    assert_eq!(resp.results.len(), 2);
    for result in &resp.results {
        assert_eq!(result.opcode, 24);
        assert!(matches!(result.status, Nfs4ErrorCode::NFS4_OK));
        assert!(result.data.is_empty());
    }
}

#[test]
fn an_unknown_operation_leaves_the_buffer() {
    let mut buf = Bytes::from_static(b"some bytes");
    assert!(skip_op_result(9999, 0, &mut buf).is_err());
    assert_eq!(buf, Bytes::from_static(b"some bytes"));
    skip_op_result(9999, 22, &mut buf).unwrap();
    assert_eq!(buf, Bytes::from_static(b"some bytes"));
}
