//! Callbacks of NFSv4.1.

use bytes::Bytes;
use nfs_rs::channel::Outbox;
use nfs_rs::nfs41::callback::{
    handle_cb_rpc, write_opaque, CallbackState, RecallNotification, CB_PROGRAM, CB_RECALL,
    CB_SEQUENCE, MAX_CB_OPS,
    MAX_REFERRING_LISTS, NFS4ERR_BADSESSION, NFS4ERR_BADSLOT, NFS4ERR_BADXDR, NFS4ERR_DELAY,
    NFS4ERR_MINOR_VERS_MISMATCH, NFS4ERR_OP_ILLEGAL, NFS4ERR_OP_NOT_IN_SESSION,
    NFS4ERR_SEQ_FALSE_RETRY, NFS4ERR_SEQ_MISORDERED, NFS4_OK,
};
use tokio::sync::mpsc;

fn be(value: u32) -> [u8; 4] {
    value.to_be_bytes()
}

fn frame(
    xid: u32,
    session: [u8; 16],
    sequence: u32,
    slot: u32,
    tag: &[u8],
    recall: Option<u8>,
) -> Bytes {
    let mut value = Vec::new();
    for word in [xid, 0, 2, CB_PROGRAM, 1, 1, 0, 0, 0, 0] {
        value.extend_from_slice(&be(word));
    }
    write_opaque(&mut value, tag);
    value.extend_from_slice(&be(1));
    value.extend_from_slice(&be(0));
    value.extend_from_slice(&be(if recall.is_some() { 2 } else { 1 }));
    value.extend_from_slice(&be(CB_SEQUENCE));
    value.extend_from_slice(&session);
    value.extend_from_slice(&be(sequence));
    value.extend_from_slice(&be(slot));
    value.extend_from_slice(&be(slot));
    value.extend_from_slice(&be(1));
    value.extend_from_slice(&be(0));
    if let Some(marker) = recall {
        value.extend_from_slice(&be(CB_RECALL));
        value.extend_from_slice(&[marker; 16]);
        value.extend_from_slice(&be(0));
        write_opaque(&mut value, &[marker]);
    }
    value.into()
}

fn u32_at(value: &[u8], offset: usize) -> u32 {
    u32::from_be_bytes(value[offset..offset + 4].try_into().unwrap())
}

#[test]
fn scripted_callback_reply_loss_replays_cached_body_and_executes_recall_once() {
    let session = [7; 16];
    let mut state = CallbackState::new(session, 1, 1);
    let (tx, mut rx) = mpsc::channel(4);
    let mut recalls = Outbox::new(tx);
    let first = handle_cb_rpc(frame(1, session, 1, 0, b"tag", Some(9)), &mut state, &mut recalls)
        .unwrap();
    let replay = handle_cb_rpc(frame(2, session, 1, 0, b"tag", Some(9)), &mut state, &mut recalls)
        .unwrap();
    assert_eq!(&first[24..], &replay[24..]);
    assert!(rx.try_recv().is_ok());
    assert!(rx.try_recv().is_err());
}

#[test]
fn false_retry_misorder_session_and_slot_errors_have_no_side_effect() {
    let session = [7; 16];
    let mut state = CallbackState::new(session, 1, 1);
    let (tx, mut rx) = mpsc::channel(8);
    let mut recalls = Outbox::new(tx);
    let _ = handle_cb_rpc(frame(1, session, 1, 0, b"a", Some(1)), &mut state, &mut recalls);
    assert!(rx.try_recv().is_ok());
    for (request, expected) in [
        (
            frame(2, session, 1, 0, b"b", Some(2)),
            NFS4ERR_SEQ_FALSE_RETRY,
        ),
        (
            frame(3, session, 3, 0, b"a", Some(3)),
            NFS4ERR_SEQ_MISORDERED,
        ),
        (frame(4, [8; 16], 2, 0, b"a", Some(4)), NFS4ERR_BADSESSION),
        (frame(5, session, 2, 1, b"a", Some(5)), NFS4ERR_BADSLOT),
    ] {
        let reply = handle_cb_rpc(request, &mut state, &mut recalls).unwrap();
        assert_eq!(u32_at(&reply, 24), expected);
    }
    assert!(rx.try_recv().is_err());
}

#[test]
fn next_sequence_and_session_generation_reset_are_accepted() {
    let first_session = [1; 16];
    let mut state = CallbackState::new(first_session, 1, 2);
    let (tx, _) = mpsc::channel(4);
    let mut recalls = Outbox::new(tx);
    for sequence in [1, 2] {
        let reply = handle_cb_rpc(
            frame(sequence, first_session, sequence, 1, b"", None),
            &mut state,
            &mut recalls,
        )
        .unwrap();
        assert_eq!(u32_at(&reply, 24), NFS4_OK);
    }
    state
        .update_session([2; 16], 2, 1, 4096, MAX_CB_OPS)
        .unwrap();
    let old = handle_cb_rpc(frame(3, first_session, 3, 0, b"", None), &mut state, &mut recalls)
        .unwrap();
    let new = handle_cb_rpc(frame(4, [2; 16], 1, 0, b"", None), &mut state, &mut recalls)
        .unwrap();
    assert_eq!(u32_at(&old, 24), NFS4ERR_BADSESSION);
    assert_eq!(u32_at(&new, 24), NFS4_OK);
}

#[test]
fn opaque_tag_is_echoed_and_operation_error_sets_compound_status() {
    let session = [3; 16];
    let mut state = CallbackState::new(session, 1, 1);
    let (tx, _) = mpsc::channel(1);
    let mut recalls = Outbox::new(tx);
    let tag = [0xff, 0x00, 0x81];
    let mut request = frame(1, session, 1, 0, &tag, None).to_vec();
    let op_count_offset = 40 + 4 + ((tag.len() + 3) & !3) + 8;
    request[op_count_offset..op_count_offset + 4].copy_from_slice(&be(2));
    request.extend_from_slice(&be(0xfeed));
    let reply = handle_cb_rpc(request.into(), &mut state, &mut recalls).unwrap();
    assert_eq!(u32_at(&reply, 24), NFS4ERR_OP_ILLEGAL);
    assert_eq!(u32_at(&reply, 28), tag.len() as u32);
    assert_eq!(&reply[32..35], &tag);
}

#[test]
fn malformed_and_wrong_rpc_fields_return_deterministic_errors() {
    let session = [5; 16];
    let mut state = CallbackState::new(session, 1, 1);
    let (tx, _) = mpsc::channel(1);
    let mut recalls = Outbox::new(tx);
    let valid = frame(1, session, 1, 0, b"", None);
    for length in [4, 12, valid.len() - 1] {
        let reply = handle_cb_rpc(valid.slice(..length), &mut state, &mut recalls).unwrap();
        assert_eq!(u32_at(&reply, 24), NFS4ERR_BADXDR);
    }
    for offset in [8usize, 12, 16, 24, 32] {
        let mut wrong = valid.to_vec();
        wrong[offset..offset + 4].copy_from_slice(&be(99));
        let reply = handle_cb_rpc(wrong.into(), &mut state, &mut recalls).unwrap();
        assert_eq!(u32_at(&reply, 24), NFS4ERR_BADXDR);
    }
}

#[test]
fn zero_ops_minor_version_excessive_ops_and_sequence_position_are_validated() {
    let session = [6; 16];
    let mut state = CallbackState::new(session, 1, 1);
    let (tx, _) = mpsc::channel(1);
    let mut recalls = Outbox::new(tx);
    let valid = frame(1, session, 1, 0, b"", None);
    let minor_offset = 44;
    let op_count_offset = 52;

    let mut zero_ops = valid.to_vec();
    zero_ops[op_count_offset..op_count_offset + 4].copy_from_slice(&be(0));
    zero_ops.truncate(op_count_offset + 4);
    let reply = handle_cb_rpc(zero_ops.into(), &mut state, &mut recalls).unwrap();
    assert_eq!(u32_at(&reply, 24), NFS4_OK);
    assert_eq!(u32_at(&reply, 32), 0);

    let mut wrong_minor = valid.to_vec();
    wrong_minor[minor_offset..minor_offset + 4].copy_from_slice(&be(0));
    let reply = handle_cb_rpc(wrong_minor.into(), &mut state, &mut recalls).unwrap();
    assert_eq!(u32_at(&reply, 24), NFS4ERR_MINOR_VERS_MISMATCH);

    let mut excessive = valid.to_vec();
    excessive[op_count_offset..op_count_offset + 4].copy_from_slice(&be(MAX_CB_OPS + 1));
    let reply = handle_cb_rpc(excessive.into(), &mut state, &mut recalls).unwrap();
    assert_eq!(u32_at(&reply, 24), NFS4ERR_BADXDR);

    let mut wrong_first_op = valid.to_vec();
    wrong_first_op[op_count_offset + 4..op_count_offset + 8].copy_from_slice(&be(CB_RECALL));
    let reply = handle_cb_rpc(wrong_first_op.into(), &mut state, &mut recalls).unwrap();
    assert_eq!(u32_at(&reply, 24), NFS4ERR_OP_NOT_IN_SESSION);
}

#[test]
fn excessive_referring_calls_and_full_recall_queue_do_not_execute_side_effect() {
    let session = [9; 16];
    let mut state = CallbackState::new(session, 1, 1);
    let (tx, mut rx) = mpsc::channel(1);
    let mut recalls = Outbox::new(tx.clone());
    let valid = frame(1, session, 1, 0, b"", None);
    let referring_count_offset = 92;
    let mut excessive = valid.to_vec();
    excessive[referring_count_offset..referring_count_offset + 4]
        .copy_from_slice(&be(MAX_REFERRING_LISTS as u32 + 1));
    let reply = handle_cb_rpc(excessive.into(), &mut state, &mut recalls).unwrap();
    assert_eq!(u32_at(&reply, 24), NFS4ERR_BADXDR);

    tx.try_send(RecallNotification::LayoutAll).unwrap();
    let reply = handle_cb_rpc(frame(2, session, 1, 0, b"", Some(1)), &mut state, &mut recalls)
        .unwrap();
    assert_eq!(u32_at(&reply, 24), NFS4ERR_DELAY);
    assert!(matches!(
        rx.try_recv().unwrap(),
        RecallNotification::LayoutAll
    ));
    assert!(rx.try_recv().is_err());
}

#[test]
fn negotiated_request_operation_and_slot_storage_bounds_are_enforced() {
    let session = [10; 16];
    let (tx, mut rx) = mpsc::channel(2);
    let mut recalls = Outbox::new(tx);
    let request = frame(1, session, 1, 0, b"", Some(1));

    let mut operation_limited = CallbackState::new_negotiated(session, 1, 1, 4096, 1);
    let reply = handle_cb_rpc(request.clone(), &mut operation_limited, &mut recalls).unwrap();
    assert_eq!(u32_at(&reply, 24), NFS4ERR_BADXDR);

    let mut size_limited =
        CallbackState::new_negotiated(session, 1, 1, request.len() as u32 - 41, 2);
    let reply = handle_cb_rpc(request, &mut size_limited, &mut recalls).unwrap();
    assert_eq!(u32_at(&reply, 24), NFS4ERR_BADXDR);
    assert!(rx.try_recv().is_err());
    assert_eq!(
        operation_limited.session.slots.len(),
        1,
        "slot cache must remain bounded by ca_maxrequests"
    );

    let mut fresh = CallbackState::new(session, 1, 1);
    let reply = handle_cb_rpc(frame(3, session, 0, 0, b"", None), &mut fresh, &mut recalls).unwrap();
    assert_eq!(u32_at(&reply, 24), NFS4ERR_SEQ_MISORDERED);
}
