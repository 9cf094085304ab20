//! Status codes and constants.

use nfs_rs::nfs41::{
    Nfs4ErrorCode, NFS41_MINOR_VERSION, NFS4_COMPOUND_PROC, NFS4_DEFAULT_PORT, NFS4_NULL_PROC,
    NFS4_PROGRAM, NFS4_VERSION,
};

#[test]
fn nfs4_ok_display() {
    assert_eq!(
        Nfs4ErrorCode::NFS4_OK.to_string(),
        "call completed successfully"
    );
}

#[test]
fn nfs4_common_errors_display() {
    assert_eq!(Nfs4ErrorCode::NFS4ERR_PERM.to_string(), "permission denied");
    assert_eq!(
        Nfs4ErrorCode::NFS4ERR_NOENT.to_string(),
        "no such file or directory"
    );
    assert_eq!(Nfs4ErrorCode::NFS4ERR_ACCESS.to_string(), "access denied");
    assert_eq!(Nfs4ErrorCode::NFS4ERR_EXIST.to_string(), "file exists");
    assert_eq!(
        Nfs4ErrorCode::NFS4ERR_STALE.to_string(),
        "stale file handle"
    );
    assert_eq!(
        Nfs4ErrorCode::NFS4ERR_NOSPC.to_string(),
        "no space left on device"
    );
    assert_eq!(
        Nfs4ErrorCode::NFS4ERR_ROFS.to_string(),
        "read-only file system"
    );
}

#[test]
fn nfs4_session_errors_display() {
    assert_eq!(Nfs4ErrorCode::NFS4ERR_BADSESSION.to_string(), "bad session");
    assert_eq!(Nfs4ErrorCode::NFS4ERR_BADSLOT.to_string(), "bad slot");
    assert_eq!(
        Nfs4ErrorCode::NFS4ERR_SEQ_MISORDERED.to_string(),
        "sequence misordered"
    );
    assert_eq!(
        Nfs4ErrorCode::NFS4ERR_DEADSESSION.to_string(),
        "dead session"
    );
}

#[test]
fn nfs4_state_errors_display() {
    assert_eq!(
        Nfs4ErrorCode::NFS4ERR_BAD_STATEID.to_string(),
        "bad state ID"
    );
    assert_eq!(
        Nfs4ErrorCode::NFS4ERR_EXPIRED.to_string(),
        "lock/stateid expired"
    );
    assert_eq!(
        Nfs4ErrorCode::NFS4ERR_GRACE.to_string(),
        "server in grace period"
    );
    assert_eq!(Nfs4ErrorCode::NFS4ERR_LOCKED.to_string(), "file locked");
}

#[test]
fn nfs4_pnfs_errors_display() {
    assert_eq!(
        Nfs4ErrorCode::NFS4ERR_LAYOUTTRYLATER.to_string(),
        "layout try later"
    );
    assert_eq!(
        Nfs4ErrorCode::NFS4ERR_LAYOUTUNAVAILABLE.to_string(),
        "layout unavailable"
    );
    assert_eq!(
        Nfs4ErrorCode::NFS4ERR_NOMATCHING_LAYOUT.to_string(),
        "no matching layout"
    );
}

#[test]
fn nfs4_error_is_error_trait() {
    let err = Nfs4ErrorCode::NFS4ERR_IO;
    assert!(err.to_string().contains("i/o error"));
}

#[test]
fn nfs4_error_copy_clone() {
    let e = Nfs4ErrorCode::NFS4ERR_NOENT;
    let e2 = e; // Copy
    let e3 = e.clone(); // Clone (intentional - verifying Clone impl exists)
    assert_eq!(e, e2);
    assert_eq!(e, e3);
}

#[test]
fn nfs4_constants() {
    assert_eq!(NFS4_PROGRAM, 100003);
    assert_eq!(NFS4_VERSION, 4);
    assert_eq!(NFS41_MINOR_VERSION, 1);
    assert_eq!(NFS4_COMPOUND_PROC, 1);
    assert_eq!(NFS4_NULL_PROC, 0);
    assert_eq!(NFS4_DEFAULT_PORT, 2049);
}
