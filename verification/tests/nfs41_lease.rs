//! The renewal of an NFSv4.1 lease.

use bytes::Bytes;
use nfs_rs::error::{IoErrorKind, NfsError, Result};
use nfs_rs::nfs41::compound::OpNum;
use nfs_rs::nfs41::lease::{validate_renewal_response, LeaseHealth};
use nfs_rs::nfs41::response::{CompoundResponse, OpResponse};
use nfs_rs::nfs41::Nfs4ErrorCode;

const SESSION_ID: [u8; 16] = [0x31; 16];
const SEQUENCE_ID: u32 = 9;
const SLOT_ID: u32 = 2;
const HIGHEST_SLOT_ID: u32 = 7;

fn sequence_data() -> Vec<u8> {
    let mut data = Vec::new();
    data.extend_from_slice(&SESSION_ID);
    data.extend_from_slice(&SEQUENCE_ID.to_be_bytes());
    data.extend_from_slice(&SLOT_ID.to_be_bytes());
    data.extend_from_slice(&HIGHEST_SLOT_ID.to_be_bytes());
    data.extend_from_slice(&HIGHEST_SLOT_ID.to_be_bytes());
    data.extend_from_slice(&0x400u32.to_be_bytes());
    data
}

fn response(status: Nfs4ErrorCode, opcode: u32, data: Vec<u8>) -> CompoundResponse {
    CompoundResponse {
        tag: "renew".to_string(),
        status,
        results: vec![OpResponse {
            opcode,
            status,
            data: Bytes::from(data),
        }],
        session_generation: 1,
    }
}

fn validate(response: &CompoundResponse) -> Result<u32> {
    validate_renewal_response(response, &SESSION_ID, SEQUENCE_ID, SLOT_ID, HIGHEST_SLOT_ID)
}

#[test]
fn valid_sequence_response_returns_status_flags() {
    let response = response(Nfs4ErrorCode::NFS4_OK, OpNum::Sequence.number(), sequence_data());
    assert_eq!(validate(&response).unwrap(), 0x400);
}

#[test]
fn non_ok_sequence_status_matrix_is_rejected() {
    for status in [
        Nfs4ErrorCode::NFS4ERR_BADSESSION,
        Nfs4ErrorCode::NFS4ERR_DEADSESSION,
        Nfs4ErrorCode::NFS4ERR_SEQ_MISORDERED,
        Nfs4ErrorCode::NFS4ERR_BADSLOT,
    ] {
        let response = response(status, OpNum::Sequence.number(), Vec::new());
        assert!(matches!(validate(&response), Err(NfsError::Nfs4(code)) if code == status));
    }
}

#[test]
fn malformed_response_matrix_is_rejected() {
    let mut wrong_tag = response(Nfs4ErrorCode::NFS4_OK, OpNum::Sequence.number(), sequence_data());
    wrong_tag.tag = "stale".to_string();
    assert!(validate(&wrong_tag).is_err());

    let mut no_results = response(Nfs4ErrorCode::NFS4_OK, OpNum::Sequence.number(), sequence_data());
    no_results.results.clear();
    assert!(validate(&no_results).is_err());

    let wrong_opcode = response(Nfs4ErrorCode::NFS4_OK, OpNum::GetAttr.number(), sequence_data());
    assert!(validate(&wrong_opcode).is_err());

    for len in [0, 4, 35, 37] {
        let truncated = response(Nfs4ErrorCode::NFS4_OK, OpNum::Sequence.number(), vec![0; len]);
        assert!(validate(&truncated).is_err());
    }
}

#[test]
fn echoed_identity_mismatch_matrix_is_rejected() {
    for offset in [0usize, 16, 20, 24] {
        let mut data = sequence_data();
        data[offset] ^= 1;
        let response = response(Nfs4ErrorCode::NFS4_OK, OpNum::Sequence.number(), data);
        assert!(validate(&response).is_err(), "offset {offset} must fail");
    }

    let mut target_too_high = sequence_data();
    target_too_high[28..32].copy_from_slice(&(HIGHEST_SLOT_ID + 1).to_be_bytes());
    let response = response(Nfs4ErrorCode::NFS4_OK, OpNum::Sequence.number(), target_too_high);
    assert!(validate(&response).is_err());
}

#[test]
fn renewal_health_classifies_recovery_signals() {
    assert_eq!(
        LeaseHealth::from_error(&NfsError::Nfs4(Nfs4ErrorCode::NFS4ERR_BADSESSION)),
        LeaseHealth::SessionFailure
    );
    assert_eq!(
        LeaseHealth::from_error(&NfsError::Io(IoErrorKind::TimedOut)),
        LeaseHealth::TransportFailure
    );
    assert_eq!(
        LeaseHealth::from_error(&NfsError::Xdr("slot mismatch".to_string())),
        LeaseHealth::IdentityMismatch
    );
}
