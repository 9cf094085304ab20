//! Callbacks of NFSv4.0.

use bytes::Bytes;
use nfs_rs::error::NfsError;
use nfs_rs::net::{IpAddr, SocketAddr};
use nfs_rs::nfs40::callback::{
    accepts_peer, callback_server, record_marker, CallbackState, CallbackStats, DelegationGrant,
    DelegationKind, RecallNotification, RecordReader, CB_PROGRAM, MAX_CALLBACK_OPERATIONS, MAX_CALLBACK_RECORD,
};
use nfs_rs::nfs40::compound::decode_delegreturn_response;
use nfs_rs::nfs40::settlement::{finish_return, flush_request, return_request};
use nfs_rs::nfs41::Nfs4ErrorCode;
use tokio::sync::mpsc::{channel, Receiver};

fn service() -> (CallbackState, Receiver<RecallNotification>) {
    let (recall_tx, recalls) = channel(64);
    (CallbackState::new(recall_tx), recalls)
}

fn cb_null_call(xid: u32) -> Vec<u32> {
    vec![xid, 0, 2, CB_PROGRAM, 1, 0, 0, 0, 0, 0]
}

fn encoded(words: &[u32]) -> Vec<u8> {
    let mut call = Vec::new();
    for word in words {
        call.extend_from_slice(&word.to_be_bytes());
    }
    call
}

fn round_trip(state: &mut CallbackState, words: &[u32]) -> Vec<u32> {
    let reply = state.handle_rpc_call(&encoded(words)).unwrap();
    reply
        .chunks_exact(4)
        .map(|word| u32::from_be_bytes(word.try_into().unwrap()))
        .collect()
}

fn grant(kind: DelegationKind, stateid: [u8; 16], recall: bool) -> DelegationGrant {
    DelegationGrant {
        kind,
        stateid,
        recall,
    }
}

fn recall_call(xid: u32, stateid: u8, fh: &[u8; 4], length: u32) -> Vec<u32> {
    let mut call = cb_null_call(xid);
    call[5] = 1;
    call.extend_from_slice(&[0, 0, 1, 1, 4]);
    call.extend_from_slice(&[u32::from_be_bytes([stateid; 4]); 4]);
    call.extend_from_slice(&[0, length, u32::from_be_bytes(*fh)]);
    call
}

fn compound_response(tag: &[u8], opcode: u32, data: &[u8]) -> Vec<u8> {
    let mut body = Vec::new();
    body.extend_from_slice(&0u32.to_be_bytes());
    body.extend_from_slice(&(tag.len() as u32).to_be_bytes());
    body.extend_from_slice(tag);
    body.resize(body.len().next_multiple_of(4), 0);
    body.extend_from_slice(&2u32.to_be_bytes());
    body.extend_from_slice(&22u32.to_be_bytes());
    body.extend_from_slice(&0u32.to_be_bytes());
    body.extend_from_slice(&opcode.to_be_bytes());
    body.extend_from_slice(&0u32.to_be_bytes());
    body.extend_from_slice(data);
    body
}

fn compound_error(tag: &[u8], status: u32) -> Vec<u8> {
    let mut body = Vec::new();
    body.extend_from_slice(&status.to_be_bytes());
    body.extend_from_slice(&(tag.len() as u32).to_be_bytes());
    body.extend_from_slice(tag);
    body.resize(body.len().next_multiple_of(4), 0);
    body.extend_from_slice(&0u32.to_be_bytes());
    body
}

#[test]
fn rfc7531_cb_null_golden_vector_round_trips() {
    let (mut state, _recalls) = service();
    let call = [0x1020_3040, 0, 2, CB_PROGRAM, 1, 0, 0, 0, 0, 0];
    let words = round_trip(&mut state, &call);
    assert_eq!(words, [0x1020_3040, 1, 0, 0, 0, 0]);
}

#[test]
fn cb_null_reports_precise_rpc_header_failures() {
    let (mut state, _recalls) = service();
    for (index, value, expected) in [
        (2, 3, vec![7, 1, 1, 0, 2, 2]),
        (3, CB_PROGRAM + 1, vec![7, 1, 0, 0, 0, 1]),
        (4, 2, vec![7, 1, 0, 0, 0, 2, 1, 1]),
        (5, 2, vec![7, 1, 0, 0, 0, 3]),
    ] {
        let mut call = cb_null_call(7);
        call[index] = value;
        assert_eq!(round_trip(&mut state, &call), expected);
    }
}

#[test]
fn callback_auth_failures_are_denied_without_poisoning_the_connection() {
    let (mut state, _recalls) = service();

    let mut unsupported = cb_null_call(13);
    unsupported[6] = 1;
    assert_eq!(round_trip(&mut state, &unsupported), [13, 1, 1, 1, 1]);
    let mut malformed = cb_null_call(14);
    malformed[7] = 4;
    assert_eq!(round_trip(&mut state, &malformed), [14, 1, 1, 1, 1]);
    assert_eq!(
        round_trip(&mut state, &cb_null_call(15)),
        [15, 1, 0, 0, 0, 0]
    );

    let auth_sys = vec![
        16,
        0,
        2,
        CB_PROGRAM,
        1,
        0,
        1,
        28,
        9, // stamp
        3, // machine-name length
        u32::from_be_bytes(*b"fas\0"),
        0, // uid
        0, // gid
        1, // auxiliary group count
        0, // group
        0, // AUTH_NONE verifier
        0,
    ];
    assert_eq!(round_trip(&mut state, &auth_sys), [16, 1, 0, 0, 0, 0]);

    let mut ontap_auth_sys = auth_sys.clone();
    ontap_auth_sys.splice(15..17, [1, 4, 1]);
    ontap_auth_sys[0] = 17;
    assert_eq!(round_trip(&mut state, &ontap_auth_sys), [17, 1, 0, 0, 0, 0]);

    let minimal_ontap_auth_sys = vec![18, 0, 2, CB_PROGRAM, 1, 0, 1, 20, 9, 0, 0, 0, 0, 0, 0];
    assert_eq!(
        round_trip(&mut state, &minimal_ontap_auth_sys),
        [18, 1, 0, 0, 0, 0]
    );

    let mut excessive_groups = auth_sys;
    excessive_groups[13] = 17;
    assert_eq!(
        round_trip(&mut state, &excessive_groups),
        [16, 1, 1, 1, 1]
    );
}

#[test]
fn rfc7531_cb_compound_golden_vector_and_minor_version_rejection() {
    let (mut state, _recalls) = service();
    let golden = [
        11,
        0,
        2,
        CB_PROGRAM,
        1,
        1,
        0,
        0,
        0,
        0,
        3,
        u32::from_be_bytes(*b"tag\0"),
        0,
        1,
        0,
    ];
    assert_eq!(
        round_trip(&mut state, &golden),
        [11, 1, 0, 0, 0, 0, 0, 3, u32::from_be_bytes(*b"tag\0"), 0]
    );
    for (minor, expected_status) in [(1, 10021)] {
        let mut call = cb_null_call(11 + minor);
        call[5] = 1;
        call.extend_from_slice(&[3, u32::from_be_bytes(*b"tag\0"), minor, 1, 0]);
        let reply = round_trip(&mut state, &call);
        assert_eq!(&reply[..6], &[11 + minor, 1, 0, 0, 0, 0]);
        assert_eq!(reply[6], expected_status);
        assert_eq!(reply[7], 3);
        assert_eq!(reply[8], u32::from_be_bytes(*b"tag\0"));
        assert_eq!(reply[9], 0);
    }
}

#[test]
fn cb_compound_bounds_operations_and_reports_the_illegal_opcode() {
    let (mut state, _recalls) = service();

    let mut excessive = cb_null_call(17);
    excessive[5] = 1;
    excessive.extend_from_slice(&[0, 0, 1, MAX_CALLBACK_OPERATIONS + 1]);
    assert_eq!(
        round_trip(&mut state, &excessive),
        [17, 1, 0, 0, 0, 0, 10018, 0, 0]
    );

    let mut illegal = cb_null_call(18);
    illegal[5] = 1;
    illegal.extend_from_slice(&[0, 0, 1, 1, 99]);
    assert_eq!(
        round_trip(&mut state, &illegal),
        [18, 1, 0, 0, 0, 0, 10044, 0, 1, 99, 10044]
    );
}

#[test]
fn rfc7531_cb_getattr_golden_vector_rejects_a_missing_delegation() {
    let (mut state, _recalls) = service();
    let call = [
        19,
        0,
        2,
        CB_PROGRAM,
        1,
        1,
        0,
        0,
        0,
        0,
        0, // empty tag
        0, // minor version
        1, // callback ident
        1, // operation count
        3, // OP_CB_GETATTR
        2, // filehandle length
        u32::from_be_bytes(*b"fh\0\0"),
        1,    // bitmap word count
        0x18, // change + size
    ];
    assert_eq!(
        round_trip(&mut state, &call),
        [19, 1, 0, 0, 0, 0, 10001, 0, 1, 3, 10001]
    );
}

#[test]
fn rfc7531_cb_recall_golden_vector_rejects_a_missing_delegation() {
    let (mut state, _recalls) = service();
    let call = [
        23,
        0,
        2,
        CB_PROGRAM,
        1,
        1,
        0,
        0,
        0,
        0,
        0, // empty tag
        0, // minor version
        1, // callback ident
        1, // operation count
        4, // OP_CB_RECALL
        0x0102_0304,
        0x0506_0708,
        0x090a_0b0c,
        0x0d0e_0f10,
        0, // truncate
        2, // filehandle length
        u32::from_be_bytes(*b"fh\0\0"),
    ];
    assert_eq!(
        round_trip(&mut state, &call),
        [23, 1, 0, 0, 0, 0, 10001, 0, 1, 4, 10001]
    );
}

#[test]
fn cb_compound_rejects_the_wrong_callback_ident_before_side_effects() {
    let (mut state, mut recalls) = service();
    state.register_delegation(
        Bytes::from_static(b"fh"),
        grant(DelegationKind::Read, [0x44; 16], false),
        7,
        None,
    );
    let mut call = cb_null_call(27);
    call[5] = 1;
    call.extend_from_slice(&[0, 0, 2, 1, 4]);
    call.extend_from_slice(&[0x4444_4444; 4]);
    call.extend_from_slice(&[0, 2, u32::from_be_bytes(*b"fh\0\0")]);

    assert_eq!(
        round_trip(&mut state, &call),
        [27, 1, 0, 0, 0, 0, 10001, 0, 0]
    );
    assert!(recalls.try_recv().is_err());
    assert_eq!(
        state.stats(),
        CallbackStats {
            grants_received: 1,
            recalls_received: 0,
            returns_completed: 0,
            returns_failed: 0,
        }
    );
}

#[test]
fn cb_getattr_returns_cached_change_and_size_for_a_write_delegation() {
    let (mut state, _recalls) = service();
    state.register_delegation(
        Bytes::from_static(b"fh"),
        grant(DelegationKind::Write, [0x44; 16], false),
        7,
        Some((0x0102_0304_0506_0708, 0x1112_1314_1516_1718)),
    );
    let mut call = cb_null_call(29);
    call[5] = 1;
    call.extend_from_slice(&[0, 0, 1, 1, 3, 2, u32::from_be_bytes(*b"fh\0\0"), 1, 0x18]);
    assert_eq!(
        round_trip(&mut state, &call),
        [
            29,
            1,
            0,
            0,
            0,
            0, // RPC accepted
            0,
            0,
            1, // CB_COMPOUND success, empty tag, one result
            3,
            0, // CB_GETATTR success
            1,
            0x18,
            16, // fattr bitmap and value length
            0x0102_0304,
            0x0506_0708,
            0x1112_1314,
            0x1516_1718,
        ]
    );
    assert!(state.mark_attributes_unknown(b"fh"));
    assert_eq!(
        round_trip(&mut state, &call),
        [29, 1, 0, 0, 0, 0, 10008, 0, 1, 3, 10008]
    );
    state.publish_attributes(b"fh", 9, 10);
    let refreshed = round_trip(&mut state, &call);
    assert_eq!(&refreshed[14..], &[0, 9, 0, 10]);
}

#[test]
fn duplicate_cb_recall_is_acknowledged_and_queued_once() {
    let (mut state, mut recalls) = service();
    state.register_delegation(
        Bytes::from_static(b"fh"),
        grant(DelegationKind::Read, [0x44; 16], false),
        7,
        None,
    );
    let call = recall_call(31, 0x44, b"fh\0\0", 2);
    let expected = [31, 1, 0, 0, 0, 0, 0, 0, 1, 4, 0];
    assert_eq!(round_trip(&mut state, &call), expected);
    assert_eq!(round_trip(&mut state, &call), expected);

    let recall = recalls.try_recv().unwrap();
    assert_eq!(recall.fh, Bytes::from_static(b"fh"));
    assert_eq!(recall.stateid, [0x44; 16]);
    assert_eq!(recall.generation, 7);
    assert!(recalls.try_recv().is_err());
    assert_eq!(
        state.stats(),
        CallbackStats {
            grants_received: 1,
            recalls_received: 1,
            returns_completed: 0,
            returns_failed: 0,
        }
    );
}

#[test]
fn delegation_granted_with_recall_is_queued_immediately() {
    let (mut state, mut recalls) = service();
    state.register_delegation(
        Bytes::from_static(b"fh"),
        grant(DelegationKind::Write, [0x62; 16], true),
        3,
        Some((4, 5)),
    );

    let recall = recalls.try_recv().unwrap();
    assert_eq!(recall.fh, Bytes::from_static(b"fh"));
    assert_eq!(recall.stateid, [0x62; 16]);
    assert!(recall.flush);
    assert_eq!(state.stats().recalls_received, 1);
}

#[test]
fn shutdown_cleanup_queues_every_unrecalled_delegation() {
    let (mut state, mut recalls) = service();
    for (fh, kind, stateid) in [
        (b"read".as_slice(), DelegationKind::Read, [0x31; 16]),
        (b"write".as_slice(), DelegationKind::Write, [0x32; 16]),
    ] {
        state.register_delegation(Bytes::copy_from_slice(fh), grant(kind, stateid, false), 8, None);
    }

    let mut returned: Vec<Bytes> = state
        .return_all_delegations()
        .into_iter()
        .map(|notification| notification.fh)
        .collect();
    returned.sort();
    assert_eq!(
        returned,
        [Bytes::from_static(b"read"), Bytes::from_static(b"write")]
    );
    assert!(recalls.try_recv().is_err());
    assert_eq!(state.stats().recalls_received, 0);
    assert!(state.return_all_delegations().is_empty());
}

#[test]
fn full_recall_queue_delays_without_consuming_the_recall() {
    let (mut state, mut recalls) = service();
    for index in 0u8..=64 {
        state.register_delegation(
            Bytes::from(vec![index]),
            grant(DelegationKind::Read, [index; 16], false),
            7,
            None,
        );
        let call = recall_call(u32::from(index) + 100, index, &[index, 0, 0, 0], 1);
        let reply = round_trip(&mut state, &call);
        if index < 64 {
            assert_eq!(reply[6], 0);
        } else {
            assert_eq!(reply, [164, 1, 0, 0, 0, 0, 10008, 0, 1, 4, 10008]);
        }
    }
    assert_eq!(state.stats().recalls_received, 64);

    recalls.try_recv().unwrap();
    let retry = recall_call(200, 64, &[64, 0, 0, 0], 1);
    assert_eq!(round_trip(&mut state, &retry)[6], 0);
    assert_eq!(state.stats().recalls_received, 65);
}

#[test]
fn recall_racing_open_publication_delays_then_queues_once() {
    let (mut state, mut recalls) = service();
    state.begin_open_publication();
    let call = recall_call(35, 0x77, b"fh\0\0", 2);
    assert_eq!(
        round_trip(&mut state, &call),
        [35, 1, 0, 0, 0, 0, 10008, 0, 1, 4, 10008]
    );
    state.register_delegation(
        Bytes::from_static(b"fh"),
        grant(DelegationKind::Read, [0x77; 16], false),
        11,
        None,
    );
    state.end_open_publication();
    assert_eq!(
        round_trip(&mut state, &call),
        [35, 1, 0, 0, 0, 0, 0, 0, 1, 4, 0]
    );
    assert!(recalls.try_recv().is_ok());
    assert!(recalls.try_recv().is_err());
}

#[test]
fn recovery_generation_invalidates_old_delegation_callbacks() {
    let (mut state, _recalls) = service();
    state.register_delegation(
        Bytes::from_static(b"fh"),
        grant(DelegationKind::Read, [0x33; 16], false),
        4,
        None,
    );
    state.invalidate_delegations(5);
    let call = recall_call(43, 0x33, b"fh\0\0", 2);
    assert_eq!(
        round_trip(&mut state, &call),
        [43, 1, 0, 0, 0, 0, 10001, 0, 1, 4, 10001]
    );
}

#[test]
fn lost_callback_reply_retries_but_returns_the_delegation_exactly_once() {
    let (mut state, mut recalls) = service();
    state.register_delegation(
        Bytes::from_static(b"fh"),
        grant(DelegationKind::Write, [0x55; 16], false),
        9,
        Some((1, 2)),
    );
    let call = recall_call(37, 0x55, b"fh\0\0", 2);
    let expected = [37, 1, 0, 0, 0, 0, 0, 0, 1, 4, 0];
    let lost = state.handle_rpc_call(&encoded(&call)).unwrap();
    assert_eq!(round_trip(&mut state, &call), expected);
    assert_eq!(state.handle_rpc_call(&encoded(&call)).unwrap(), lost);

    let recall = recalls.try_recv().unwrap();
    assert!(recalls.try_recv().is_err());
    assert!(state.is_current(&recall));
    let commit = flush_request(&recall).unwrap().encode_body();
    assert!(commit.windows(4).any(|word| word == 5u32.to_be_bytes()));
    let delegreturn = return_request(&recall).encode_body();
    assert!(delegreturn.windows(4).any(|word| word == 8u32.to_be_bytes()));
    let result = finish_return(Bytes::from(compound_response(b"delegreturn", 8, &[])));
    assert!(result.is_ok());
    state.settle(&recall, result.is_ok());
    assert_eq!(
        state.stats(),
        CallbackStats {
            grants_received: 1,
            recalls_received: 1,
            returns_completed: 1,
            returns_failed: 0,
        }
    );
    assert!(state.healthy());
    assert!(!state.is_current(&recall));
}

#[test]
fn revoked_delegation_is_discarded_without_retrying_the_return() {
    let revoked = compound_error(b"delegreturn", Nfs4ErrorCode::NFS4ERR_ADMIN_REVOKED.code());
    assert!(matches!(
        decode_delegreturn_response(Bytes::from(revoked.clone())),
        Err(NfsError::Nfs4(Nfs4ErrorCode::NFS4ERR_ADMIN_REVOKED))
    ));
    let (mut state, mut recalls) = service();
    state.register_delegation(
        Bytes::from_static(b"revoked"),
        grant(DelegationKind::Read, [0x73; 16], true),
        12,
        None,
    );
    let recall = recalls.try_recv().unwrap();
    assert!(flush_request(&recall).is_none());
    let result = finish_return(Bytes::from(revoked));
    assert!(result.is_ok());
    state.settle(&recall, true);
    assert_eq!(
        state.stats(),
        CallbackStats {
            grants_received: 1,
            recalls_received: 1,
            returns_completed: 1,
            returns_failed: 0,
        }
    );
    assert!(!state.is_current(&RecallNotification {
        fh: Bytes::from_static(b"revoked"),
        stateid: [0x73; 16],
        generation: 12,
        flush: false,
    }));
}

#[test]
fn failed_return_can_be_recalled_again() {
    let (mut state, mut recalls) = service();
    state.register_delegation(
        Bytes::from_static(b"fh"),
        grant(DelegationKind::Read, [0x21; 16], true),
        2,
        None,
    );
    let recall = recalls.try_recv().unwrap();
    let denied = compound_error(b"delegreturn", 10008);
    assert!(finish_return(Bytes::from(denied)).is_err());
    state.settle(&recall, false);
    assert!(!state.healthy());
    assert_eq!(state.stats().returns_failed, 1);
    assert!(state.is_current(&recall));
    let call = recall_call(50, 0x21, b"fh\0\0", 2);
    assert_eq!(
        round_trip(&mut state, &call),
        [50, 1, 0, 0, 0, 0, 0, 0, 1, 4, 0]
    );
    assert!(recalls.try_recv().is_ok());
    state.settle(&recall, true);
    assert!(state.healthy());
}

#[test]
fn recall_of_another_stateid_is_refused() {
    let (mut state, mut recalls) = service();
    state.register_delegation(
        Bytes::from_static(b"fh"),
        grant(DelegationKind::Read, [0x21; 16], false),
        2,
        None,
    );
    let call = recall_call(51, 0x22, b"fh\0\0", 2);
    assert_eq!(
        round_trip(&mut state, &call),
        [51, 1, 0, 0, 0, 0, 10025, 0, 1, 4, 10025]
    );
    assert!(recalls.try_recv().is_err());
}

#[test]
fn attributes_of_a_read_delegation_are_not_kept() {
    let (mut state, _recalls) = service();
    state.register_delegation(
        Bytes::from_static(b"fh"),
        grant(DelegationKind::Read, [0x21; 16], false),
        2,
        None,
    );
    assert!(!state.mark_attributes_unknown(b"fh"));
    assert!(!state.mark_attributes_unknown(b"other"));
}

#[test]
fn malformed_calls_are_not_answered() {
    let (mut state, _recalls) = service();
    let short = encoded(&[1, 0, 2]);
    assert!(state
        .handle_rpc_call(&short)
        .unwrap_err()
        .to_string()
        .contains("invalid length"));
    let mut reply = cb_null_call(1);
    reply[1] = 1;
    assert!(state
        .handle_rpc_call(&encoded(&reply))
        .unwrap_err()
        .to_string()
        .contains("not a CALL"));
}

#[test]
fn records_are_put_together_from_fragments() {
    let mut reader = RecordReader::new();
    assert!(reader.at_boundary());
    assert_eq!(reader.fragment(3).unwrap(), 3);
    assert!(reader.accept(3, b"one").is_none());
    assert!(!reader.at_boundary());
    assert_eq!(reader.fragment(0x8000_0003).unwrap(), 3);
    assert_eq!(reader.accept(0x8000_0003, b"two").unwrap(), b"onetwo");
    assert!(reader.at_boundary());
    assert!(reader
        .fragment(0x8000_0000 | (MAX_CALLBACK_RECORD as u32 + 1))
        .is_err());
    assert_eq!(record_marker(b"onetwo"), 0x8000_0006);
}

#[test]
fn callbacks_need_an_ipv4_server() {
    let v4 = SocketAddr::new(IpAddr::V4([127, 0, 0, 1]), 2049);
    assert_eq!(callback_server(v4).unwrap(), [127, 0, 0, 1]);
    let v6 = SocketAddr::new(IpAddr::V6([0; 16]), 2049);
    assert!(accepts_peer([127, 0, 0, 1], IpAddr::V4([127, 0, 0, 1])));
    assert!(!accepts_peer([127, 0, 0, 1], IpAddr::V4([127, 0, 0, 2])));
    assert!(!accepts_peer([127, 0, 0, 1], IpAddr::V6([0; 16])));
    assert!(matches!(
        callback_server(v6),
        Err(NfsError::InvalidInput(_))
    ));
}
