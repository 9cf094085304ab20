//! A mount of NFSv4.0 against scripted replies.

use bytes::Bytes;
use nfs_rs::error::{IoErrorKind, NfsError, OperationOutcome, RecoveryAction};
use nfs_rs::nfs4::attrs::{encode_setattr, Time};
use nfs_rs::nfs4::compound::xdr_opaque;
use nfs_rs::nfs40::compound::{
    decode_confirm_response, decode_readlink_response, decode_renew_response,
    decode_setclientid_response,
};
use nfs_rs::nfs40::directory::{finish_readdir, readdir_request};
use nfs_rs::nfs40::files::{verifier_changed_error, WriteStep};
use nfs_rs::nfs40::lease::{MountLifecycleState, RenewalStep};
use nfs_rs::nfs40::locking::LockToken;
use nfs_rs::nfs40::metadata::{
    decode_fsinfo, decode_fsstat, decode_lease_time, decode_pathconf, fsinfo_request,
    fsstat_request, lease_time_request, pathconf_request,
};
use nfs_rs::nfs40::mount::{
    Mount40, OpenFile, OpenStep, OPEN_BOTH, OPEN_READ, OPEN_WRITE,
};
use nfs_rs::nfs40::names::{
    access_request, attributes_request, decode_access, decode_attributes, decode_lookup,
    finish_create, finish_link, finish_remove, finish_rename, link_request, lookup_request,
    mkdir_request, navigation_request, readlink_request, remove_request, rename_request,
    symlink_request, unsupported, with_mode,
};
use nfs_rs::nfs40::recovery::{
    identity_confirm_request, identity_request, mount_failure, ClientIdentity,
};
use nfs_rs::nfs40::state::{decode_owner, encode_owner, LockLane, OwnerLane};
use nfs_rs::nfs41::Nfs4ErrorCode;

type Result<T> = std::result::Result<T, NfsError>;

fn compound_result(tag: &str, ops: &[(u32, &[u8])]) -> Bytes {
    let mut result = Vec::new();
    result.extend_from_slice(&0u32.to_be_bytes());
    xdr_opaque(&mut result, tag.as_bytes());
    result.extend_from_slice(&(ops.len() as u32).to_be_bytes());
    for (opcode, data) in ops {
        result.extend_from_slice(&opcode.to_be_bytes());
        result.extend_from_slice(&0u32.to_be_bytes());
        result.extend_from_slice(data);
    }
    Bytes::from(result)
}

fn denied_lock_result(tag: &str, opcode: u32) -> Bytes {
    let mut denied = Vec::new();
    denied.extend_from_slice(&7u64.to_be_bytes());
    denied.extend_from_slice(&11u64.to_be_bytes());
    denied.extend_from_slice(&2u32.to_be_bytes());
    denied.extend_from_slice(&99u64.to_be_bytes());
    xdr_opaque(&mut denied, b"holder");
    let mut result = failed_result(tag, opcode, 10010);
    result.extend_from_slice(&denied);
    Bytes::from(result)
}

fn failed_result(tag: &str, opcode: u32, status: u32) -> Vec<u8> {
    let mut result = Vec::new();
    result.extend_from_slice(&status.to_be_bytes());
    xdr_opaque(&mut result, tag.as_bytes());
    result.extend_from_slice(&2u32.to_be_bytes());
    result.extend_from_slice(&22u32.to_be_bytes());
    result.extend_from_slice(&0u32.to_be_bytes());
    result.extend_from_slice(&opcode.to_be_bytes());
    result.extend_from_slice(&status.to_be_bytes());
    result
}

fn failed_lock_result(tag: &str, opcode: u32, status: u32) -> Bytes {
    Bytes::from(failed_result(tag, opcode, status))
}

fn direct_mount() -> Mount40 {
    direct_mount_with_lease(60)
}

fn direct_mount_with_lease(lease_seconds: u32) -> Mount40 {
    Mount40::new(
        Bytes::from_static(b"root"),
        7,
        9,
        lease_seconds,
        0,
        8192,
        32768,
        1_048_576,
        1_048_576,
    )
}

fn open_result(flags: u32, stateid: [u8; 16], fh: &[u8]) -> Bytes {
    let mut open = Vec::new();
    open.extend_from_slice(&stateid);
    open.extend_from_slice(&[0; 20]);
    open.extend_from_slice(&flags.to_be_bytes());
    open.extend_from_slice(&0u32.to_be_bytes());
    open.extend_from_slice(&0u32.to_be_bytes());
    let mut getfh = Vec::new();
    xdr_opaque(&mut getfh, fh);
    compound_result("open", &[(22, &[]), (18, &open), (10, &getfh)])
}

fn lost() -> NfsError {
    NfsError::Io(IoErrorKind::ConnectionReset)
}

fn outcome(error: &NfsError) -> OperationOutcome {
    error.operation_outcome().unwrap().outcome
}

fn recovery(error: &NfsError) -> RecoveryAction {
    error.operation_outcome().unwrap().recovery
}

fn sends(request: &[u8], wire: &[u8]) -> bool {
    request.windows(wire.len()).any(|window| window == wire)
}

fn register_scripted_open(mount: &mut Mount40, owner: u64, fh: &'static [u8]) {
    mount.state.register(OwnerLane {
        owner,
        next_seqid: 1,
        stateid: [0x61; 16],
        fh: Bytes::from_static(fh),
        access: OPEN_BOTH,
        write_verifier: None,
    });
}

fn register_scripted_lock(mount: &mut Mount40, owner: u64, stateid: [u8; 16]) {
    mount.locks.register(LockLane {
        owner,
        open_owner: owner,
        owner_wire: Bytes::from(format!("scripted-lock-{owner}")),
        next_seqid: 1,
        stateid,
        fh: Bytes::from_static(b"fh"),
        lock_type: 2,
        offset: 0,
        length: 1,
    });
}

fn open_stateful(mount: &mut Mount40, access: u32, reply: Result<Bytes>) -> Result<OpenFile> {
    let attempt = mount.begin_open(&Bytes::from_static(b"root"), "file", access, false)?;
    match attempt.replied(reply)? {
        OpenStep::Confirm(_, _) => panic!("unexpected OPEN_CONFIRM"),
        OpenStep::Enter(pending) => mount.finish_open(pending, 0),
    }
}

fn read(mount: &mut Mount40, now: u64) -> Result<Bytes> {
    let attempt = mount.begin_read(&Bytes::from_static(b"fh"), 0, 1)?;
    let mut data = Vec::new();
    data.extend_from_slice(&1u32.to_be_bytes());
    xdr_opaque(&mut data, b"x");
    let reply = compound_result("read", &[(22, &[]), (25, &data)]);
    mount.finish_read(attempt, reply, now)
}

fn fattr_result(bitmap: &[u32], values: &[u8]) -> Vec<u8> {
    let mut result = Vec::new();
    result.extend_from_slice(&(bitmap.len() as u32).to_be_bytes());
    for word in bitmap {
        result.extend_from_slice(&word.to_be_bytes());
    }
    xdr_opaque(&mut result, values);
    result
}

fn create_object_result(tag: &str, fh_value: &[u8]) -> Bytes {
    let mut create = vec![0; 20];
    create.extend_from_slice(&0u32.to_be_bytes());
    let mut fh = Vec::new();
    xdr_opaque(&mut fh, fh_value);
    compound_result(tag, &[(22, &[]), (6, &create), (10, &fh), (9, &[0; 8])])
}

fn renewal_failure(status: u32) -> Result<()> {
    let mut reply = Vec::new();
    reply.extend_from_slice(&status.to_be_bytes());
    xdr_opaque(&mut reply, b"renew");
    reply.extend_from_slice(&1u32.to_be_bytes());
    reply.extend_from_slice(&30u32.to_be_bytes());
    reply.extend_from_slice(&status.to_be_bytes());
    decode_renew_response(Bytes::from(reply))
}

#[test]
fn grace_renewal_is_suspect_until_a_later_success() {
    let mut mount = direct_mount();
    let step = mount.lease.after_renewal(&renewal_failure(10013), 10, false);
    assert_eq!(step, RenewalStep::Wait);
    assert_eq!(mount.lease.health().lifecycle, MountLifecycleState::Suspect);
    assert_eq!(mount.lease.health().generation, 1);
    let renewed = decode_renew_response(compound_result("renew", &[(30, &[])]));
    assert_eq!(
        mount.lease.after_renewal(&renewed, 20, false),
        RenewalStep::Wait
    );
    assert_eq!(mount.lease.health().lease_renewals, 1);
    assert_eq!(mount.lease.health().lifecycle, MountLifecycleState::Ready);
}

#[test]
fn transient_renewal_failures_lose_state_after_the_lease_deadline() {
    let mut mount = direct_mount_with_lease(1);
    for now in [20, 500, 999] {
        assert_eq!(
            mount.lease.after_renewal(&renewal_failure(10013), now, false),
            RenewalStep::Wait
        );
    }
    assert_eq!(
        mount.lease.after_renewal(&renewal_failure(10013), 1000, false),
        RenewalStep::Stop
    );
    assert_eq!(mount.lease.health().lifecycle, MountLifecycleState::LostState);
    assert_eq!(mount.lease.health().generation, 2);
}

#[test]
fn in_flight_renewal_is_fenced_at_deadline_but_still_settles() {
    let mut mount = direct_mount_with_lease(1);
    assert!(!mount.lease.expire(999));
    assert!(mount.lease.expire(1000));
    assert_eq!(mount.lease.health().lifecycle, MountLifecycleState::LostState);
    assert_eq!(mount.lease.health().generation, 2);
    let reply = compound_result("renew", &[(30, &[])]);
    decode_renew_response(reply).unwrap();
}

#[test]
fn late_renewal_does_not_bring_state_back() {
    let mut mount = direct_mount_with_lease(1);
    assert!(mount.lease.expire(1000));
    let renewed = decode_renew_response(compound_result("renew", &[(30, &[])]));
    assert_eq!(
        mount.lease.after_renewal(&renewed, 1100, false),
        RenewalStep::Stop
    );
    assert_eq!(mount.lease.health().lifecycle, MountLifecycleState::LostState);
    assert_eq!(mount.lease.health().generation, 2);
    assert_eq!(mount.lease.health().lease_renewals, 0);
}

#[test]
fn renewal_after_a_failed_recovery_readies_the_next_generation() {
    let mut mount = direct_mount_with_lease(1);
    register_scripted_open(&mut mount, 85, b"fh");
    let step = mount.lease.after_renewal(&renewal_failure(10011), 900, true);
    assert_eq!(step, RenewalStep::Recover);
    mount.lose_state(NfsError::Nfs4(Nfs4ErrorCode::NFS4ERR_NO_GRACE));
    mount.lease.after_recovery(false, 5000);
    assert_eq!(mount.lease.health().lifecycle, MountLifecycleState::LostState);
    let root = Bytes::from_static(b"root");
    assert!(mount.begin_open(&root, "file", OPEN_READ, false).is_err());

    let renewed = decode_renew_response(compound_result("renew", &[(30, &[])]));
    assert_eq!(
        mount.lease.after_renewal(&renewed, 5300, true),
        RenewalStep::Wait
    );
    let health = mount.lease.health();
    assert_eq!(health.lifecycle, MountLifecycleState::Ready);
    assert_eq!(health.generation, 2);
    assert_eq!(health.lease_renewals, 1);
    assert!(mount.begin_open(&root, "file", OPEN_READ, false).is_ok());
}

#[test]
fn transient_failure_of_a_lost_lease_is_suspect_before_its_deadline() {
    let mut mount = direct_mount_with_lease(1);
    mount.lease.after_renewal(&renewal_failure(10011), 100, false);
    assert_eq!(mount.lease.health().lifecycle, MountLifecycleState::LostState);
    assert_eq!(
        mount.lease.after_renewal(&renewal_failure(10013), 200, false),
        RenewalStep::Wait
    );
    assert_eq!(mount.lease.health().lifecycle, MountLifecycleState::Suspect);
    assert_eq!(mount.lease.health().generation, 2);
}

#[test]
fn successful_stateid_activity_extends_an_in_flight_renew_deadline() {
    let mut mount = direct_mount_with_lease(1);
    register_scripted_open(&mut mount, 81, b"fh");
    assert_eq!(read(&mut mount, 700).unwrap(), Bytes::from_static(b"x"));
    assert!(!mount.lease.expire(1200));
    assert_ne!(mount.lease.health().lifecycle, MountLifecycleState::LostState);
}

#[test]
fn successful_stateless_activity_does_not_extend_the_lease_deadline() {
    let mut mount = direct_mount_with_lease(1);
    assert_eq!(read(&mut mount, 700).unwrap(), Bytes::from_static(b"x"));
    assert!(mount.lease.expire(1200));
    assert_eq!(mount.lease.health().lifecycle, MountLifecycleState::LostState);
}

#[test]
fn expired_renewal_loses_generation_and_gates_stateful_work() {
    let mut mount = direct_mount();
    register_scripted_open(&mut mount, 82, b"fh");
    mount.lease.after_renewal(&renewal_failure(10011), 10, false);
    let health = mount.lease.health();
    assert_eq!(health.lease_healthy, Some(false));
    assert_eq!(health.lifecycle, MountLifecycleState::LostState);
    assert_eq!(health.generation, 2);
    let error = read(&mut mount, 20).unwrap_err();
    assert_eq!(recovery(&error), RecoveryAction::Reopen);
    let stale = LockToken {
        fh: Bytes::from_static(b"fh"),
        stateid: Bytes::from_static(&[0x31; 16]),
        lock_type: 2,
        offset: 0,
        length: 1,
        issuer: mount.issuer,
        generation: 1,
    };
    assert!(mount.begin_unlock_token(&stale).is_err());
}

#[test]
fn stale_clientid_renewal_runs_recovery_and_preserves_generation() {
    let mut mount = direct_mount();
    let step = mount.lease.after_renewal(&renewal_failure(10022), 10, true);
    assert_eq!(step, RenewalStep::Recover);
    assert_eq!(mount.lease.health().lifecycle, MountLifecycleState::Recovering);
    mount.lease.after_recovery(true, 20);
    assert_eq!(mount.lease.health().lifecycle, MountLifecycleState::Ready);
    assert_eq!(mount.lease.health().generation, 1);
}

#[test]
fn late_lock_result_cannot_publish_across_a_generation_fence() {
    let mut mount = direct_mount();
    register_scripted_open(&mut mount, 83, b"fh");
    let attempt = mount
        .begin_lock(&Bytes::from_static(b"fh"), 2, 0, 1)
        .unwrap();
    mount.lease.mark_lost();
    let reply = compound_result("lock", &[(22, &[]), (12, &[0x8a; 16])]);
    let error = mount.finish_lock(attempt, Ok(reply), 0).unwrap_err();
    assert_eq!(recovery(&error), RecoveryAction::Reopen);
    assert!(mount.locks.snapshot().is_empty());
}

#[test]
fn scripted_recovery_reclaims_open_before_lock() {
    let mut mount = direct_mount();
    register_scripted_open(&mut mount, 71, b"fh");
    mount.locks.register(LockLane {
        owner: 72,
        open_owner: 71,
        owner_wire: Bytes::from_static(b"lock-owner"),
        next_seqid: 1,
        stateid: [0x72; 16],
        fh: Bytes::from_static(b"fh"),
        lock_type: 2,
        offset: 7,
        length: 11,
    });
    let original_lock_token = LockToken {
        fh: Bytes::from_static(b"fh"),
        stateid: Bytes::from_static(&[0x72; 16]),
        lock_type: 2,
        offset: 7,
        length: 11,
        issuer: mount.issuer,
        generation: mount.lease.generation(),
    };
    let identity = ClientIdentity {
        verifier: [0x55; 8],
        owner: "scripted-recovery".into(),
    };
    mount.lease.mark_recovering();
    let request = identity_request(&identity, None).encode_body();
    assert!(sends(&request, &[0x55; 8]));
    assert!(sends(&request, b"scripted-recovery"));
    let mut identity_data = Vec::new();
    identity_data.extend_from_slice(&17u64.to_be_bytes());
    identity_data.extend_from_slice(&[0x77; 8]);
    let (client_id, confirm) =
        decode_setclientid_response(compound_result("identity", &[(35, &identity_data)])).unwrap();
    let request = identity_confirm_request(client_id, confirm).encode_body();
    assert!(sends(&request, &identity_data));
    decode_confirm_response(compound_result("confirm", &[(36, &[])])).unwrap();
    mount.begin_reclaim(client_id);

    let reclaim_open = mount.reclaim_open_request(71).unwrap().encode_body();
    assert!(sends(&reclaim_open, &18u32.to_be_bytes()));
    mount
        .finish_reclaim_open(71, open_result(0, [0x81; 16], b"fh"))
        .unwrap();
    let order = mount.reclaim_order();
    assert_eq!(order.len(), 1);
    let reclaim_lock = mount.reclaim_lock_request(order[0]).unwrap().encode_body();
    assert!(sends(
        &reclaim_lock,
        &[2u32.to_be_bytes(), 1u32.to_be_bytes()].concat()
    ));
    mount
        .finish_reclaim_lock(
            order[0],
            compound_result("reclaim-lock", &[(22, &[]), (12, &[0x82; 16])]),
        )
        .unwrap();
    assert_eq!(mount.client_id, 17);
    assert_eq!(mount.state.by_owner(71).unwrap().stateid, [0x81; 16]);
    assert!(mount.locks.by_stateid(&[0x72; 16]).is_some());
    assert!(mount.locks.by_stateid(&[0x82; 16]).is_some());
    mount.lease.mark_ready(0);

    let attempt = mount.begin_unlock_token(&original_lock_token).unwrap();
    let release = mount
        .unlock_replied(
            attempt,
            Ok(compound_result("locku", &[(22, &[]), (14, &[0x83; 16])])),
        )
        .unwrap();
    mount
        .finish_unlock(
            release,
            Ok(compound_result("release-lockowner", &[(39, &[])])),
            0,
        )
        .unwrap();
    assert!(mount.locks.by_stateid(&[0x72; 16]).is_none());
    assert!(mount.locks.by_stateid(&[0x82; 16]).is_none());
}

#[test]
fn no_grace_reclaim_clears_protection_and_advances_generation() {
    let mut mount = direct_mount();
    register_scripted_open(&mut mount, 73, b"fh");
    register_scripted_lock(&mut mount, 74, [0x74; 16]);
    mount.begin_reclaim(19);
    let error = mount
        .finish_reclaim_open(73, failed_lock_result("reclaim-open", 18, 10033))
        .unwrap_err();
    let error = mount.lose_state(error);
    assert_eq!(outcome(&error), OperationOutcome::Uncertain);
    assert_eq!(recovery(&error), RecoveryAction::Reopen);
    assert!(matches!(
        error.operation_outcome().unwrap().source,
        NfsError::Nfs4(Nfs4ErrorCode::NFS4ERR_NO_GRACE)
    ));
    assert_eq!(mount.lease.health().lifecycle, MountLifecycleState::LostState);
    assert_eq!(mount.lease.health().generation, 2);
    assert!(mount.state.snapshot().is_empty());
    assert!(mount.locks.snapshot().is_empty());
}

#[test]
fn partial_reclaim_compound_loses_state_with_structured_guidance() {
    let mut mount = direct_mount();
    register_scripted_open(&mut mount, 79, b"fh");
    mount.begin_reclaim(37);
    let mut partial = open_result(0, [0x89; 16], b"fh").to_vec();
    partial[..4].copy_from_slice(&10006u32.to_be_bytes());
    let error = mount
        .finish_reclaim_open(79, Bytes::from(partial))
        .unwrap_err();
    let error = mount.lose_state(error);
    assert_eq!(recovery(&error), RecoveryAction::Reopen);
    assert_eq!(mount.lease.health().lifecycle, MountLifecycleState::LostState);
    assert!(mount.state.snapshot().is_empty());
}

#[test]
fn reclaim_reply_loss_is_not_replayed_and_requires_reopen() {
    let mut mount = direct_mount();
    register_scripted_open(&mut mount, 80, b"fh");
    mount.begin_reclaim(41);
    let error = mount.lose_state(NfsError::Io(IoErrorKind::ConnectionReset));
    assert_eq!(outcome(&error), OperationOutcome::Uncertain);
    assert_eq!(recovery(&error), RecoveryAction::Reopen);
    assert_eq!(mount.lease.health().generation, 2);
}

#[test]
fn open_reply_loss_is_structured_as_uncertain() {
    let mut mount = direct_mount();
    let error = open_stateful(&mut mount, OPEN_READ, Err(lost())).unwrap_err();
    assert_eq!(outcome(&error), OperationOutcome::Uncertain);
    assert!(mount.state.snapshot().is_empty());
}

#[test]
fn partial_open_compound_is_structured_as_uncertain() {
    let mut mount = direct_mount();
    let mut partial = compound_result("open", &[(22, &[]), (18, &[])]).to_vec();
    partial[..4].copy_from_slice(&10006u32.to_be_bytes()); // NFS4ERR_SERVERFAULT after OPEN
    let error = open_stateful(&mut mount, OPEN_READ, Ok(Bytes::from(partial))).unwrap_err();
    assert_eq!(outcome(&error), OperationOutcome::Uncertain);
}

#[test]
fn conditional_open_confirm_uses_next_seqid_and_returned_stateid() {
    let mut mount = direct_mount();
    let attempt = mount
        .begin_open(&Bytes::from_static(b"root"), "file", OPEN_BOTH, false)
        .unwrap();
    let step = attempt
        .replied(Ok(open_result(2, [0x61; 16], b"confirmed-fh")))
        .unwrap();
    let (pending, request) = match step {
        OpenStep::Confirm(pending, request) => (pending, request),
        OpenStep::Enter(_) => panic!("OPEN was not confirmed"),
    };
    let expected = [[0x61; 16].as_slice(), 1u32.to_be_bytes().as_slice()].concat();
    assert!(sends(&request.encode_body(), &expected));
    let pending = pending
        .confirmed(Ok(compound_result(
            "open_confirm",
            &[(22, &[]), (20, &[0x62; 16])],
        )))
        .unwrap();
    let opened = mount.finish_open(pending, 0).unwrap();
    assert_eq!(opened.fh, Bytes::from_static(b"confirmed-fh"));
    let owner = decode_owner(&opened.protocol_state.unwrap()).unwrap().1;
    let lane = mount.state.by_owner(owner).unwrap();
    assert_eq!(lane.stateid, [0x62; 16]);
    assert_eq!(lane.next_seqid, 2);
}

#[test]
fn open_access_has_to_be_one_that_exists() {
    let mut mount = direct_mount();
    let error = mount
        .begin_open(&Bytes::from_static(b"root"), "file", 4, false)
        .unwrap_err();
    assert_eq!(error.to_string(), "invalid input: invalid OPEN access 4");
}

#[test]
fn opening_across_a_fence_enters_nothing() {
    let mut mount = direct_mount();
    let attempt = mount
        .begin_open(&Bytes::from_static(b"root"), "file", OPEN_WRITE, true)
        .unwrap();
    mount.lease.mark_lost();
    let pending = match attempt.replied(Ok(open_result(0, [0x51; 16], b"fh"))).unwrap() {
        OpenStep::Enter(pending) => pending,
        OpenStep::Confirm(_, _) => panic!("unexpected OPEN_CONFIRM"),
    };
    let error = mount.finish_open(pending, 0).unwrap_err();
    assert_eq!(recovery(&error), RecoveryAction::Reopen);
    assert!(mount.state.snapshot().is_empty());
}

fn readdir_result(verifier: [u8; 8], cookie: u64, name: &[u8], eof: bool) -> Bytes {
    let mut page = Vec::new();
    page.extend_from_slice(&verifier);
    page.extend_from_slice(&1u32.to_be_bytes());
    page.extend_from_slice(&cookie.to_be_bytes());
    xdr_opaque(&mut page, name);
    page.extend_from_slice(&1u32.to_be_bytes());
    page.extend_from_slice(&(1u32 << 20).to_be_bytes());
    page.extend_from_slice(&8u32.to_be_bytes());
    page.extend_from_slice(&(cookie + 100).to_be_bytes());
    page.extend_from_slice(&0u32.to_be_bytes());
    page.extend_from_slice(&u32::from(eof).to_be_bytes());
    compound_result("readdir", &[(26 - 4, &[]), (26, &page)])
}

#[test]
fn public_readdir_stream_propagates_cookie_and_verifier_across_pages() {
    let first = finish_readdir(
        readdir_result(*b"firstver", 7, b"one", false),
        32768,
        0,
        "READDIR",
    )
    .unwrap();
    let (cookie, verifier) = first.next.unwrap();
    let root = Bytes::from_static(b"root");
    let second = readdir_request(&root, cookie, &verifier, 8192, 32768, &[1 << 20]).encode_body();
    let continuation = [7u64.to_be_bytes().as_slice(), b"firstver"].concat();
    assert!(sends(&second, &continuation));
    let last = finish_readdir(
        readdir_result(*b"secondve", 11, b"two", true),
        32768,
        cookie,
        "READDIR",
    )
    .unwrap();
    assert!(last.next.is_none());
    let names: Vec<String> = first
        .entries
        .into_iter()
        .chain(last.entries)
        .map(|entry| entry.unwrap().name)
        .collect();
    assert_eq!(names, ["one", "two"]);
}

#[test]
fn page_that_would_repeat_forever_is_refused() {
    let mut page = b"verifier".to_vec();
    page.extend_from_slice(&0u32.to_be_bytes());
    page.extend_from_slice(&0u32.to_be_bytes());
    let reply = compound_result("readdir", &[(22, &[]), (26, &page)]);
    assert!(finish_readdir(reply, 32768, 5, "READDIR").is_err());
}

#[test]
fn guarded_setattr_is_explicitly_unsupported() {
    let mount = direct_mount();
    let error = mount
        .begin_setattr(&Bytes::from_static(b"fh"), true, vec![0, 1 << 1], &[0; 4])
        .unwrap_err();
    assert!(matches!(error, NfsError::Unsupported(_)));
}

#[test]
fn remove_reply_loss_is_structured_as_uncertain() {
    let request = remove_request(&Bytes::from_static(b"root"), "victim").encode_body();
    assert!(sends(&request, b"victim"));
    let error = finish_remove(Err(lost())).unwrap_err();
    assert_eq!(outcome(&error), OperationOutcome::Uncertain);
    let garbled = finish_remove(Ok(Bytes::from_static(b"xx"))).unwrap_err();
    assert_eq!(outcome(&garbled), OperationOutcome::Uncertain);
    let refused = finish_remove(Ok(failed_lock_result("remove", 28, 13))).unwrap_err();
    assert!(matches!(refused, NfsError::Nfs4(_)));
}

#[test]
fn scripted_public_metadata_and_namespace_families_succeed() {
    let mut mount = direct_mount();
    let fh = Bytes::from_static(b"fh");
    let request = access_request(&fh, 0x21).unwrap().encode_body();
    assert!(sends(
        &request,
        &[3u32.to_be_bytes(), 0x21u32.to_be_bytes()].concat()
    ));
    let access_data = [0x3fu32.to_be_bytes(), 0x21u32.to_be_bytes()].concat();
    assert_eq!(
        decode_access(compound_result("access", &[(22, &[]), (3, &access_data)])).unwrap(),
        0x21
    );

    let (bitmap, values) = encode_setattr(None, None, None, Some(7), None, None);
    let attempt = mount
        .begin_setattr(&fh, false, bitmap, &values)
        .unwrap()
        .unwrap();
    let attrsset = [1u32.to_be_bytes(), (1u32 << 4).to_be_bytes()].concat();
    mount
        .finish_setattr(
            attempt,
            Ok(compound_result("setattr", &[(22, &[]), (34, &attrsset)])),
            0,
        )
        .unwrap();

    let mut target = Vec::new();
    xdr_opaque(&mut target, b"target");
    assert_eq!(
        decode_readlink_response(compound_result("readlink", &[(22, &[]), (27, &target)]))
            .unwrap(),
        "target"
    );

    let from = Bytes::from_static(b"from");
    let to = Bytes::from_static(b"to");
    assert!(sends(
        &rename_request(&from, "old", &to, "new").encode_body(),
        b"old\0"
    ));
    finish_rename(Ok(compound_result(
        "rename",
        &[(22, &[]), (32, &[]), (22, &[]), (29, &[0; 40])],
    )))
    .unwrap();

    assert!(sends(
        &link_request(&from, &to, "link").encode_body(),
        b"link"
    ));
    finish_link(Ok(compound_result(
        "link",
        &[(22, &[]), (32, &[]), (22, &[]), (11, &[0; 20])],
    )))
    .unwrap();
    decode_attributes(compound_result("getattr", &[(22, &[]), (9, &[0; 8])])).unwrap();
    finish_remove(Ok(compound_result("remove", &[(22, &[]), (28, &[0; 20])]))).unwrap();
}

#[test]
fn scripted_public_getattr_and_filesystem_metadata_succeed() {
    decode_attributes(compound_result("getattr", &[(22, &[]), (9, &[0; 8])])).unwrap();
    let bm = [
        (1 << 5) | (1 << 6) | (1 << 15) | (1 << 27) | (1 << 30) | (1 << 31),
        1 << 19,
    ];
    let values = [
        1u32.to_be_bytes().as_slice(),
        1u32.to_be_bytes().as_slice(),
        1u32.to_be_bytes().as_slice(),
        u64::MAX.to_be_bytes().as_slice(),
        65536u64.to_be_bytes().as_slice(),
        32768u64.to_be_bytes().as_slice(),
        0i64.to_be_bytes().as_slice(),
        1u32.to_be_bytes().as_slice(),
    ]
    .concat();
    let data = fattr_result(&bm, &values);
    let info = decode_fsinfo(
        compound_result("fsinfo", &[(22, &[]), (9, &data)]),
        1_048_576,
        1_048_576,
    )
    .unwrap();
    assert_eq!((info.rtmax, info.wtmax), (65536, 32768));

    let bm = [
        (1 << 21) | (1 << 22) | (1 << 23),
        (1 << 10) | (1 << 11) | (1 << 12),
    ];
    let values = (1u64..=6).flat_map(u64::to_be_bytes).collect::<Vec<_>>();
    let data = fattr_result(&bm, &values);
    let stat = decode_fsstat(compound_result("fsstat", &[(22, &[]), (9, &data)])).unwrap();
    assert_eq!((stat.afiles, stat.tbytes), (1, 6));

    let bm = [
        (1 << 16) | (1 << 17) | (1 << 18) | (1 << 28) | (1 << 29),
        1 << 2,
    ];
    let values = [
        0u32.to_be_bytes(),
        1u32.to_be_bytes(),
        1u32.to_be_bytes(),
        1024u32.to_be_bytes(),
        255u32.to_be_bytes(),
        1u32.to_be_bytes(),
    ]
    .concat();
    let data = fattr_result(&bm, &values);
    let pathconf = decode_pathconf(compound_result("pathconf", &[(22, &[]), (9, &data)])).unwrap();
    assert_eq!((pathconf.linkmax, pathconf.name_max), (1024, 255));
}

#[test]
fn transfers_are_clamped_to_the_client() {
    let bm = [
        (1 << 5) | (1 << 6) | (1 << 15) | (1 << 27) | (1 << 30) | (1 << 31),
        1 << 19,
    ];
    let values = [
        1u32.to_be_bytes().as_slice(),
        1u32.to_be_bytes().as_slice(),
        1u32.to_be_bytes().as_slice(),
        u64::MAX.to_be_bytes().as_slice(),
        65536u64.to_be_bytes().as_slice(),
        u64::MAX.to_be_bytes().as_slice(),
        0i64.to_be_bytes().as_slice(),
        1u32.to_be_bytes().as_slice(),
    ]
    .concat();
    let data = fattr_result(&bm, &values);
    let reply = compound_result("fsinfo", &[(22, &[]), (9, &data)]);
    let info = decode_fsinfo(reply, 4096, 8192).unwrap();
    assert_eq!((info.rtmax, info.wtmax), (4096, 8192));
}

#[test]
fn lease_time_is_read_from_the_root() {
    let data = fattr_result(&[1 << 10], &90u32.to_be_bytes());
    let reply = compound_result("lease-time", &[(22, &[]), (9, &data)]);
    assert_eq!(decode_lease_time(reply).unwrap(), 90);
    let data = fattr_result(&[0], &[]);
    let reply = compound_result("lease-time", &[(22, &[]), (9, &data)]);
    assert!(decode_lease_time(reply).is_err());
}

#[test]
fn scripted_public_create_directory_and_symlink_succeed() {
    let mut mount = direct_mount();
    let root = Bytes::from_static(b"root");
    let attempt = mount.begin_open(&root, "file", OPEN_BOTH, true).unwrap();
    assert!(sends(&attempt.request.clone().encode_body(), b"create"));
    let step = attempt
        .replied(Ok(open_result(0, [0x31; 16], b"file-fh")))
        .unwrap();
    let OpenStep::Enter(pending) = step else {
        panic!("OPEN asked for a confirmation");
    };
    let file = mount.finish_open(pending, 0).unwrap();
    assert_eq!(file.fh, Bytes::from_static(b"file-fh"));
    assert!(sends(
        &attributes_request(&file.fh).encode_body(),
        b"file-fh"
    ));
    let reply = compound_result("getattr", &[(22, &[]), (9, &[0; 8])]);
    decode_attributes(reply).unwrap();

    assert!(sends(&mkdir_request(&root, "dir").encode_body(), b"dir\0"));
    let directory =
        finish_create("mkdir", Ok(create_object_result("mkdir", b"dir-fh"))).unwrap();
    let (bitmap, values) = encode_setattr(Some(0o755), None, None, None, None, None);
    let attempt = mount
        .begin_setattr(&directory.fh, false, bitmap, &values)
        .unwrap()
        .unwrap();
    let attrsset = [
        2u32.to_be_bytes(),
        0u32.to_be_bytes(),
        (1u32 << 1).to_be_bytes(),
    ]
    .concat();
    let result = mount.finish_setattr(
        attempt,
        Ok(compound_result("setattr", &[(22, &[]), (34, &attrsset)])),
        0,
    );
    let directory = with_mode(directory, 0o755, result).unwrap();
    assert_eq!(directory.fh, Bytes::from_static(b"dir-fh"));
    assert_eq!(directory.attr.unwrap().file_mode, 0o755);

    assert!(sends(
        &symlink_request("target", &root, "link").encode_body(),
        b"target"
    ));
    let symlink =
        finish_create("symlink", Ok(create_object_result("symlink", b"link-fh"))).unwrap();
    assert_eq!(symlink.fh, Bytes::from_static(b"link-fh"));
}

#[test]
fn created_object_whose_later_operation_failed_is_uncertain() {
    let mut partial = create_object_result("mkdir", b"dir-fh").to_vec();
    partial[..4].copy_from_slice(&10006u32.to_be_bytes());
    let error = finish_create("mkdir", Ok(Bytes::from(partial))).unwrap_err();
    assert_eq!(outcome(&error), OperationOutcome::Uncertain);
    let refused = failed_lock_result("mkdir", 6, 17);
    assert!(matches!(
        finish_create("mkdir", Ok(refused)),
        Err(NfsError::Nfs4(Nfs4ErrorCode::NFS4ERR_EXIST))
    ));
}

#[test]
fn public_typed_lock_blocks_close_until_exact_unlock() {
    let mut mount = direct_mount();
    let fh = Bytes::from_static(b"fh");
    register_scripted_open(&mut mount, 41, b"fh");
    let attempt = mount.begin_lock(&fh, 2, 7, 11).unwrap();
    let reply = compound_result("lock", &[(22, &[]), (12, &[0x71; 16])]);
    let token = mount.finish_lock(attempt, Ok(reply), 0).unwrap();
    let error = mount.begin_close(&fh).unwrap_err();
    assert!(error.to_string().contains("outstanding locks"));
    let attempt = mount.begin_unlock_token(&token).unwrap();
    let reply = compound_result("locku", &[(22, &[]), (14, &[0x72; 16])]);
    let release = mount.unlock_replied(attempt, Ok(reply)).unwrap();
    let reply = compound_result("release-lockowner", &[(39, &[])]);
    mount.finish_unlock(release, Ok(reply), 0).unwrap();

    let attempt = mount.begin_close(&fh).unwrap();
    let reply = compound_result("close", &[(22, &[]), (4, &[0x73; 16])]);
    mount.finish_close(attempt, Ok(reply), 0).unwrap();
    assert!(mount.state.by_owner(41).is_none());
}

#[test]
fn unanswered_close_keeps_the_file() {
    let mut mount = direct_mount();
    register_scripted_open(&mut mount, 41, b"fh");
    let attempt = mount.begin_close(&Bytes::from_static(b"fh")).unwrap();
    let error = mount
        .finish_close(attempt, Err(lost()), 0)
        .unwrap_err();
    assert_eq!(outcome(&error), OperationOutcome::Uncertain);
    assert!(mount.state.by_owner(41).is_some());
}

#[test]
fn lock_reply_loss_is_uncertain_and_does_not_register_protection() {
    let mut mount = direct_mount();
    register_scripted_open(&mut mount, 42, b"fh");
    let fh = Bytes::from_static(b"fh");
    let attempt = mount.begin_lock(&fh, 2, 0, 1).unwrap();
    let error = mount.finish_lock(attempt, Err(lost()), 0).unwrap_err();
    assert_eq!(outcome(&error), OperationOutcome::Uncertain);
    assert!(!mount.locks.has_fh(&fh));
}

#[test]
fn locku_reply_loss_is_uncertain_and_retains_local_protection() {
    let mut mount = direct_mount();
    register_scripted_lock(&mut mount, 61, [0x91; 16]);
    let fh = Bytes::from_static(b"fh");
    let attempt = mount
        .begin_unlock(&fh, &Bytes::from_static(&[0x91; 16]), 2, 0, 1)
        .unwrap();
    let error = mount
        .unlock_replied(attempt, Err(lost()))
        .unwrap_err();
    assert_eq!(outcome(&error), OperationOutcome::Uncertain);
    assert!(mount.locks.has_fh(&fh));
}

#[test]
fn authoritative_locku_error_consumes_owner_seqid() {
    let mut mount = direct_mount();
    register_scripted_lock(&mut mount, 63, [0x94; 16]);
    let fh = Bytes::from_static(b"fh");
    let stateid = Bytes::from_static(&[0x94; 16]);
    let attempt = mount.begin_unlock(&fh, &stateid, 2, 0, 1).unwrap();
    assert!(matches!(
        mount.unlock_replied(attempt, Ok(failed_lock_result("locku", 14, 22))),
        Err(NfsError::Nfs4(_))
    ));
    let attempt = mount.begin_unlock(&fh, &stateid, 2, 0, 1).unwrap();
    let expected = [
        2u32.to_be_bytes().as_slice(),
        2u32.to_be_bytes().as_slice(),
        &[0x94; 16],
    ]
    .concat();
    assert_eq!(attempt.seqid, 2);
    let reply = compound_result("locku", &[(22, &[]), (14, &[0x95; 16])]);
    let again = mount.begin_unlock(&fh, &stateid, 2, 0, 1).unwrap();
    assert!(sends(&again.request.encode_body(), &expected));
    let release = mount.unlock_replied(attempt, Ok(reply)).unwrap();
    let reply = compound_result("release-lockowner", &[(39, &[])]);
    mount.finish_unlock(release, Ok(reply), 0).unwrap();
    assert!(!mount.locks.has_fh(&fh));
}

#[test]
fn typed_lock_rejects_foreign_or_mismatched_tokens_without_rpc() {
    let mount = direct_mount();
    let token = |stateid: &'static [u8], issuer: u64, generation: u64| LockToken {
        fh: Bytes::from_static(b"fh"),
        stateid: Bytes::from_static(stateid),
        lock_type: 2,
        offset: 0,
        length: 1,
        issuer,
        generation,
    };
    let foreign = token(&[0x21; 16], mount.issuer ^ 1, 1);
    assert!(mount.begin_unlock_token(&foreign).is_err());
    let unknown = token(&[0x22; 16], mount.issuer, 1);
    assert!(mount.begin_unlock_token(&unknown).is_err());
    let stale = token(&[0x23; 16], mount.issuer, mount.lease.generation() + 1);
    assert!(mount.begin_unlock_token(&stale).is_err());
}

#[test]
fn scripted_public_lock_conflict_exposes_denied_range() {
    let mut mount = direct_mount();
    register_scripted_open(&mut mount, 50, b"fh");
    let fh = Bytes::from_static(b"fh");
    let attempt = mount.begin_lock(&fh, 2, 0, 1).unwrap();
    assert!(matches!(
        mount.finish_lock(attempt, Ok(denied_lock_result("lock", 12)), 0),
        Err(NfsError::LockDenied {
            lock_type: 2,
            offset: 7,
            length: 11,
            ..
        })
    ));
    let next = mount.begin_lock(&fh, 2, 2, 1).unwrap();
    let probe = mount.begin_lock(&fh, 2, 2, 1).unwrap();
    let expected = [
        1u32.to_be_bytes().as_slice(),
        2u32.to_be_bytes().as_slice(),
        &[0x61; 16],
    ]
    .concat();
    assert!(sends(&probe.request.encode_body(), &expected));
    let reply = compound_result("lock", &[(22, &[]), (12, &[0xb1; 16])]);
    mount.finish_lock(next, Ok(reply), 0).unwrap();
    assert!(mount.locks.has_fh(&fh));
}

#[test]
fn lock_needs_a_range_and_an_open_file() {
    let mut mount = direct_mount();
    let fh = Bytes::from_static(b"fh");
    assert!(mount.begin_lock(&fh, 2, 0, 1).is_err());
    register_scripted_open(&mut mount, 50, b"fh");
    assert!(mount.begin_lock(&fh, 3, 0, 1).is_err());
    assert!(mount.begin_lock(&fh, 2, 0, 0).is_err());
    assert!(mount.begin_lock_test(&fh, 2, 0, 0).is_err());
    assert!(mount.begin_lock_test(&fh, 1, 0, 1).is_ok());
}

#[test]
fn unstable_write_is_committed_and_a_changed_verifier_is_reported() {
    let mut mount = direct_mount();
    register_scripted_open(&mut mount, 90, b"fh");
    let fh = Bytes::from_static(b"fh");
    let written = |committed: u32, verifier: [u8; 8]| {
        let data = [
            3u32.to_be_bytes().as_slice(),
            committed.to_be_bytes().as_slice(),
            verifier.as_slice(),
        ]
        .concat();
        compound_result("write", &[(22, &[]), (38, &data)])
    };
    let commit = |verifier: [u8; 8]| compound_result("commit", &[(22, &[]), (5, &verifier)]);

    let attempt = mount.begin_write(&fh, 5, 3).unwrap();
    let pending = match attempt.replied(Ok(written(0, [1; 8]))).unwrap() {
        WriteStep::Commit(pending, request) => {
            assert!(sends(&request.encode_body(), &5u64.to_be_bytes()));
            pending.replied(Ok(commit([1; 8]))).unwrap()
        }
        WriteStep::Finish(_) => panic!("unstable bytes were not committed"),
    };
    assert_eq!(mount.finish_write(pending, 0).unwrap(), 3);

    let attempt = mount.begin_write(&fh, 5, 3).unwrap();
    match attempt.replied(Ok(written(0, [1; 8]))).unwrap() {
        WriteStep::Commit(pending, _) => {
            let error = pending.replied(Ok(commit([2; 8]))).unwrap_err();
            assert_eq!(outcome(&error), OperationOutcome::Uncertain);
        }
        WriteStep::Finish(_) => panic!("unstable bytes were not committed"),
    }

    let attempt = mount.begin_write(&fh, 5, 3).unwrap();
    match attempt.replied(Ok(written(2, [1; 8]))).unwrap() {
        WriteStep::Finish(pending) => assert_eq!(mount.finish_write(pending, 0).unwrap(), 3),
        WriteStep::Commit(_, _) => panic!("stable bytes need no COMMIT"),
    }
}

#[test]
fn commits_have_to_agree_with_the_verifier_of_the_writes() {
    let mut mount = direct_mount();
    let fh = Bytes::from_static(b"fh");
    mount.state.register(OwnerLane {
        owner: 90,
        next_seqid: 1,
        stateid: [0x61; 16],
        fh: fh.clone(),
        access: OPEN_BOTH,
        write_verifier: Some([1; 8]),
    });
    for (verifier, agrees) in [([2; 8], false), ([1; 8], true), ([2; 8], true)] {
        let attempt = mount.begin_commit(&fh, 0, 0).unwrap();
        let reply = compound_result("commit", &[(22, &[]), (5, &verifier)]);
        assert_eq!(mount.finish_commit(attempt, Ok(reply)).is_ok(), agrees);
    }
    assert_eq!(recovery(&verifier_changed_error()), RecoveryAction::VerifyThenResume);
}

#[test]
fn write_needs_a_file_that_is_open_for_writing() {
    let mount = direct_mount();
    assert!(mount.begin_write(&Bytes::from_static(b"fh"), 0, 1).is_err());
}

#[test]
fn navigation_looks_up_every_component() {
    let components = vec!["a".to_string(), "b".to_string()];
    let mut expected = Vec::new();
    expected.extend_from_slice(&15u32.to_be_bytes());
    xdr_opaque(&mut expected, b"a");
    expected.extend_from_slice(&15u32.to_be_bytes());
    xdr_opaque(&mut expected, b"b");
    expected.extend_from_slice(&10u32.to_be_bytes());
    assert!(navigation_request(&components)
        .encode_body()
        .ends_with(&expected));
}

#[test]
fn operations_that_do_not_exist_are_unsupported() {
    assert!(matches!(unsupported("EXPORTS"), NfsError::Unsupported(_)));
    assert!(matches!(
        mount_failure(Some(NfsError::Io(IoErrorKind::TimedOut))),
        NfsError::Io(IoErrorKind::TimedOut)
    ));
}

#[test]
fn identity_is_made_of_the_number() {
    let identity = ClientIdentity::of([3; 8], 0xabc);
    assert_eq!(identity.owner, "nfs-rs-v4.0-0000000000000abc");
    let request = identity_request(&identity, Some("10.0.0.1.8.1")).encode_body();
    assert!(sends(&request, b"10.0.0.1.8.1"));
}

#[test]
fn identities_and_issuers_are_drawn_at_random() {
    let (first, second) = (ClientIdentity::new(), ClientIdentity::new());
    assert_ne!(first.verifier, second.verifier);
    assert_ne!(first.owner, second.owner);
    assert_eq!(first.owner.len(), "nfs-rs-v4.0-".len() + 16);
    let issuers: Vec<u64> = (0..8)
        .map(|_| Mount40::establish(Bytes::from_static(b"root"), 9, 30, 0, 1, 2, 3, 4).issuer)
        .collect();
    assert!(issuers.iter().any(|issuer| *issuer != issuers[0]));
}

#[test]
fn changed_attributes_are_written_in_the_order_of_their_numbers() {
    let (bitmap, values) = encode_setattr(
        Some(0o644),
        Some(12),
        Some(345),
        Some(9),
        Some(Time {
            seconds: 1,
            nseconds: 2,
        }),
        Some(Time {
            seconds: 3,
            nseconds: 4,
        }),
    );
    assert_eq!(
        bitmap,
        [
            1 << 4,
            (1 << 1) | (1 << 4) | (1 << 5) | (1 << 16) | (1 << 22)
        ]
    );
    let mut expected = Vec::new();
    expected.extend_from_slice(&9u64.to_be_bytes());
    expected.extend_from_slice(&0o644u32.to_be_bytes());
    xdr_opaque(&mut expected, b"12");
    xdr_opaque(&mut expected, b"345");
    for (seconds, nseconds) in [(1u64, 2u32), (3, 4)] {
        expected.extend_from_slice(&1u32.to_be_bytes());
        expected.extend_from_slice(&seconds.to_be_bytes());
        expected.extend_from_slice(&nseconds.to_be_bytes());
    }
    assert_eq!(values, expected);
    let (bitmap, values) = encode_setattr(None, None, None, None, None, None);
    assert!(bitmap.is_empty());
    assert!(values.is_empty());
    let mount = direct_mount();
    assert!(mount
        .begin_setattr(&Bytes::from_static(b"fh"), false, bitmap, &values)
        .unwrap()
        .is_none());
}

#[test]
fn public_umount_stops_renewal_and_reports_closed() {
    let mut mount = direct_mount();
    mount.lease.mark_closing();
    assert_eq!(mount.lease.health().lifecycle, MountLifecycleState::Closing);
    assert!(read(&mut mount, 0).is_ok());
    register_scripted_open(&mut mount, 84, b"fh");
    assert!(read(&mut mount, 0).is_err());
    mount.lease.mark_closed();
    assert_eq!(mount.lease.health().lifecycle, MountLifecycleState::Closed);
}

#[test]
fn independent_opens_of_same_file_lock_without_global_serialization() {
    let mut mount = direct_mount();
    register_scripted_open(&mut mount, 54, b"fh");
    register_scripted_open(&mut mount, 55, b"fh");
    let fh = Bytes::from_static(b"fh");
    let opened_a = Some(encode_owner(mount.issuer, 54));
    let opened_b = Some(encode_owner(mount.issuer, 55));
    let first = mount.begin_lock_open(&fh, &opened_a, 2, 0, 1).unwrap();
    let second = mount.begin_lock_open(&fh, &opened_b, 2, 2, 1).unwrap();
    let reply = compound_result("lock", &[(22, &[]), (12, &[0xa1; 16])]);
    let a = mount.finish_lock(first, Ok(reply), 0);
    let reply = compound_result("lock", &[(22, &[]), (12, &[0xa2; 16])]);
    let b = mount.finish_lock(second, Ok(reply), 0);
    assert!(a.is_ok() && b.is_ok());
    assert_eq!(mount.state.by_owner(54).unwrap().next_seqid, 2);
    assert_eq!(mount.state.by_owner(55).unwrap().next_seqid, 2);
}

#[test]
fn different_open_owners_send_locks_without_global_serialization() {
    let mut mount = direct_mount();
    register_scripted_open(&mut mount, 51, b"fh-a");
    register_scripted_open(&mut mount, 52, b"fh-b");
    let first = mount
        .begin_lock(&Bytes::from_static(b"fh-a"), 2, 0, 1)
        .unwrap();
    let second = mount
        .begin_lock(&Bytes::from_static(b"fh-b"), 2, 0, 1)
        .unwrap();
    let reply = compound_result("lock", &[(22, &[]), (12, &[0x81; 16])]);
    let a = mount.finish_lock(first, Ok(reply), 0);
    let reply = compound_result("lock", &[(22, &[]), (12, &[0x82; 16])]);
    let b = mount.finish_lock(second, Ok(reply), 0);
    assert!(a.is_ok() && b.is_ok());
}

#[test]
fn choosing_the_owner_of_a_lock_draws_no_number() {
    let mut mount = direct_mount();
    register_scripted_open(&mut mount, 53, b"fh");
    let fh = Bytes::from_static(b"fh");
    let token = Some(encode_owner(mount.issuer, 53));
    let drawn = mount.next_owner;
    assert_eq!(mount.choose_lock_owner(&fh, 2, 1).unwrap(), 53);
    assert_eq!(mount.choose_token_lock_owner(&token, 2, 1).unwrap(), 53);
    assert!(mount.choose_lock_owner(&fh, 3, 1).is_err());
    assert!(mount.choose_token_lock_owner(&None, 2, 1).is_err());
    assert_eq!(mount.next_owner, drawn);
    mount.begin_lock(&fh, 2, 0, 1).unwrap();
    assert_eq!(mount.next_owner, drawn + 1);
}

#[test]
fn same_open_owner_serializes_lock_seqid_consumption() {
    let mut mount = direct_mount();
    register_scripted_open(&mut mount, 53, b"fh");
    let fh = Bytes::from_static(b"fh");
    for (seqid, stateid) in [(1u32, [0x83; 16]), (2, [0x84; 16]), (3, [0x85; 16])] {
        let attempt = mount.begin_lock(&fh, 2, u64::from(seqid), 1).unwrap();
        let sent = attempt.request.clone().encode_body();
        let expected = [
            1u32.to_be_bytes().as_slice(),
            seqid.to_be_bytes().as_slice(),
            &[0x61; 16],
        ]
        .concat();
        assert!(sends(&sent, &expected));
        let reply = compound_result("lock", &[(22, &[]), (12, &stateid)]);
        mount.finish_lock(attempt, Ok(reply), 0).unwrap();
        assert_eq!(mount.state.by_owner(53).unwrap().next_seqid, seqid + 1);
    }
}

#[test]
fn recovery_reclaims_independent_open_and_lock_owners_concurrently() {
    let mut mount = direct_mount();
    register_scripted_open(&mut mount, 76, b"fh-a");
    register_scripted_open(&mut mount, 77, b"fh-b");
    register_scripted_lock(&mut mount, 76, [0x76; 16]);
    register_scripted_lock(&mut mount, 77, [0x77; 16]);
    mount.begin_reclaim(29);

    // Making both requests before either reply shows that one owner's pending OPEN does not
    // keep another owner from being reclaimed.
    let first = mount.reclaim_open_request(76).unwrap().encode_body();
    let second = mount.reclaim_open_request(77).unwrap().encode_body();
    assert!(sends(&first, b"fh-a"));
    assert!(sends(&second, b"fh-b"));
    mount
        .finish_reclaim_open(76, open_result(0, [0x86; 16], b"fh-a"))
        .unwrap();
    mount
        .finish_reclaim_open(77, open_result(0, [0x87; 16], b"fh-b"))
        .unwrap();

    let groups = mount.reclaim_groups();
    assert_eq!(groups.len(), 2);
    assert!(groups.iter().all(|group| group.len() == 1));
    let first_lock = mount.reclaim_lock_request(groups[0][0]).unwrap().encode_body();
    let second_lock = mount.reclaim_lock_request(groups[1][0]).unwrap().encode_body();
    assert!(sends(&first_lock, &[0x86; 16]));
    assert!(sends(&second_lock, &[0x87; 16]));
    for (group, stateid) in groups.iter().zip([[0x96; 16], [0x97; 16]]) {
        let reply = compound_result("reclaim-lock", &[(22, &[]), (12, &stateid)]);
        mount.finish_reclaim_lock(group[0], reply).unwrap();
        assert_eq!(mount.locks.lane(group[0]).unwrap().stateid, stateid);
    }
}

#[test]
fn recovery_serializes_locks_that_share_an_open_owner() {
    let mut mount = direct_mount();
    register_scripted_open(&mut mount, 78, b"fh");
    for (owner, stateid) in [(79, [0x79; 16]), (80, [0x80; 16])] {
        mount.locks.register(LockLane {
            owner,
            open_owner: 78,
            owner_wire: Bytes::from(format!("lock-{owner}")),
            next_seqid: 1,
            stateid,
            fh: Bytes::from_static(b"fh"),
            lock_type: 2,
            offset: owner,
            length: 1,
        });
    }
    mount.begin_reclaim(23);
    mount
        .finish_reclaim_open(78, open_result(0, [0x81; 16], b"fh"))
        .unwrap();
    let order = mount.reclaim_order();
    assert_eq!(order.len(), 2);
    assert_eq!(mount.reclaim_groups(), vec![order.clone()]);
    for (index, lane) in order.into_iter().enumerate() {
        let request = mount.reclaim_lock_request(lane).unwrap().encode_body();
        let expected = [
            1u32.to_be_bytes().as_slice(),
            (index as u32 + 1).to_be_bytes().as_slice(),
            &[0x81; 16],
        ]
        .concat();
        assert!(sends(&request, &expected));
        let reply = compound_result("reclaim-lock", &[(22, &[]), (12, &[0x90 + index as u8; 16])]);
        mount.finish_reclaim_lock(lane, reply).unwrap();
    }
    assert_eq!(mount.state.by_owner(78).unwrap().next_seqid, 3);
}

#[test]
fn lock_of_an_open_file_checks_whose_file_it_is() {
    let mut mount = direct_mount();
    let opened = open_stateful(&mut mount, OPEN_BOTH, Ok(open_result(0, [5; 16], b"fh"))).unwrap();
    let attempt = mount
        .begin_lock_open(&opened.fh, &opened.protocol_state, 1, 0, 4)
        .unwrap();
    assert_eq!(attempt.open_owner, 1);
    assert!(mount.begin_lock_open(&opened.fh, &None, 1, 0, 4).is_err());
    let foreign = Some(Bytes::from(vec![0xff; 16]));
    assert!(mount.begin_lock_open(&opened.fh, &foreign, 1, 0, 4).is_err());

    assert!(mount.begin_close_stateful(&opened.fh, &None).is_err());
    assert!(mount.begin_close_stateful(&opened.fh, &foreign).is_err());
    let other = Bytes::from_static(b"other");
    assert!(mount
        .begin_close_stateful(&other, &opened.protocol_state)
        .unwrap_err()
        .to_string()
        .contains("filehandle mismatch"));
    let attempt = mount
        .begin_close_stateful(&opened.fh, &opened.protocol_state)
        .unwrap();
    let reply = compound_result("close", &[(22, &[]), (4, &[6; 16])]);
    mount.finish_close(attempt, Ok(reply), 0).unwrap();
    assert!(mount
        .begin_close_stateful(&opened.fh, &opened.protocol_state)
        .is_err());
}

#[test]
fn requests_name_what_they_ask_for() {
    let fh = Bytes::from_static(b"fh");
    let root = Bytes::from_static(b"root");
    assert!(sends(&lookup_request(&fh, "name").encode_body(), b"name"));
    assert!(sends(
        &readlink_request(&fh).encode_body(),
        &27u32.to_be_bytes()
    ));
    assert!(sends(
        &attributes_request(&fh).encode_body(),
        &9u32.to_be_bytes()
    ));
    assert!(sends(
        &fsinfo_request(&root).encode_body(),
        &[0xcc00_8060u32.to_be_bytes(), (1u32 << 19).to_be_bytes()].concat()
    ));
    assert!(sends(
        &fsstat_request(&root).encode_body(),
        &[0x00e0_0000u32.to_be_bytes(), 0x1c00u32.to_be_bytes()].concat()
    ));
    let empty = Bytes::new();
    assert!(sends(&pathconf_request(&empty, &root).encode_body(), b"root"));
    assert!(sends(&pathconf_request(&fh, &root).encode_body(), b"fh\0\0"));
    assert!(sends(
        &lease_time_request(&root).encode_body(),
        &[1u32.to_be_bytes(), (1u32 << 10).to_be_bytes()].concat()
    ));
    assert!(access_request(&fh, 0x40)
        .unwrap_err()
        .to_string()
        .contains("unknown bits: 0x40"));
    let mut object = Vec::new();
    xdr_opaque(&mut object, b"found");
    let attrs = fattr_result(&[1 << 20], &12u64.to_be_bytes());
    let reply = compound_result("lookup", &[(22, &[]), (15, &[]), (10, &object), (9, &attrs)]);
    let found = decode_lookup(reply).unwrap();
    assert_eq!(found.fh, Bytes::from_static(b"found"));
    assert_eq!(found.attr.unwrap().fileid, 12);
}
