//! Texts, addresses, paths and errors.

use bytes::Bytes;
use nfs_rs::error::{
    classify_sent_nfs40_error, decode_nfsstat4, IoErrorKind, NFSVersion, NfsError, OperationClass,
    OperationOutcome, RecoveryAction, RequestContext,
};
use nfs_rs::net::{addr_prefix_len, parse_netaddr4, universal_address, IpAddr, SocketAddr};
use nfs_rs::nfs40::compound::decode_readlink_response;
use nfs_rs::nfs41::Nfs4ErrorCode;
use nfs_rs::path::{components, split_path};

fn v4(ip: [u8; 4], port: u16) -> SocketAddr {
    SocketAddr::new(IpAddr::V4(ip), port)
}

#[test]
fn path_is_split_at_its_slashes() {
    assert_eq!(components("/a//b/c/"), ["a", "b", "c"]);
    assert!(components("//").is_empty());
    let (dir, name) = split_path("/a/b/c").unwrap();
    assert_eq!(dir, ["a", "b"]);
    assert_eq!(name, "c");
    let (dir, name) = split_path("c").unwrap();
    assert!(dir.is_empty());
    assert_eq!(name, "c");
    assert!(matches!(split_path("/"), Err(NfsError::InvalidInput(_))));
}

#[test]
fn universal_addresses_end_in_the_port() {
    assert_eq!(universal_address([10, 0, 0, 1], 2049), "10.0.0.1.8.1");
    assert_eq!(
        parse_netaddr4("tcp", "10.0.0.1.8.1").unwrap(),
        v4([10, 0, 0, 1], 2049)
    );
    let mut ip = [0; 16];
    ip[0] = 0xfe;
    ip[1] = 0x80;
    ip[15] = 1;
    assert_eq!(
        parse_netaddr4("tcp6", "fe80::1.8.1").unwrap(),
        SocketAddr::new(IpAddr::V6(ip), 2049)
    );
    assert!(parse_netaddr4("udp", "10.0.0.1.8.1").is_err());
    assert!(parse_netaddr4("tcp", "10.0.0.1.8").is_err());
    assert!(parse_netaddr4("tcp", "10.0.0.256.8.1").is_err());
}

#[test]
fn shared_prefix_is_counted_in_bits() {
    assert_eq!(
        addr_prefix_len(&v4([10, 0, 0, 1], 1), &v4([10, 0, 0, 1], 2)),
        32
    );
    assert_eq!(
        addr_prefix_len(&v4([10, 0, 0, 1], 1), &v4([10, 0, 1, 1], 1)),
        23
    );
    assert_eq!(
        addr_prefix_len(&v4([128, 0, 0, 0], 1), &v4([0, 0, 0, 0], 1)),
        0
    );
}

#[test]
fn status_words_stand_for_statuses() {
    assert_eq!(decode_nfsstat4(0).unwrap(), Nfs4ErrorCode::NFS4_OK);
    assert_eq!(
        decode_nfsstat4(10011).unwrap(),
        Nfs4ErrorCode::NFS4ERR_EXPIRED
    );
    assert_eq!(
        decode_nfsstat4(12345).unwrap_err().to_string(),
        "XDR error: invalid nfsstat4 12345: unknown status"
    );
}

#[test]
fn only_unanswered_sensitive_requests_are_uncertain() {
    let context = || RequestContext {
        operation: "remove".to_string(),
        protocol: NFSVersion::NFSv4p0,
        request_id: None,
    };
    let uncertain = classify_sent_nfs40_error(
        OperationClass::ReplaySensitive,
        context(),
        NfsError::Io(IoErrorKind::BrokenPipe),
    );
    let outcome = uncertain.operation_outcome().unwrap();
    assert_eq!(outcome.outcome, OperationOutcome::Uncertain);
    assert_eq!(outcome.recovery, RecoveryAction::VerifyThenResume);
    assert_eq!(outcome.context.operation, "remove");
    assert_eq!(
        uncertain.to_string(),
        "outcome to be settled: transport failed"
    );
    let harmless = classify_sent_nfs40_error(
        OperationClass::SessionControl,
        context(),
        NfsError::Io(IoErrorKind::BrokenPipe),
    );
    assert!(harmless.operation_outcome().is_none());
    let answered = classify_sent_nfs40_error(
        OperationClass::ReplaySensitive,
        context(),
        NfsError::Nfs4(Nfs4ErrorCode::NFS4ERR_ACCESS),
    );
    assert!(matches!(
        answered,
        NfsError::Nfs4(Nfs4ErrorCode::NFS4ERR_ACCESS)
    ));
}

#[test]
fn text_that_is_not_utf8_is_described() {
    let reply = |target: [u8; 4]| {
        let mut wire = vec![0; 8];
        wire.extend_from_slice(&[0, 0, 0, 2, 0, 0, 0, 22, 0, 0, 0, 0, 0, 0, 0, 27, 0, 0, 0, 0]);
        wire.extend_from_slice(&[0, 0, 0, 4]);
        wire.extend_from_slice(&target);
        Bytes::from(wire)
    };
    assert_eq!(decode_readlink_response(reply(*b"link")).unwrap(), "link");
    let error = decode_readlink_response(reply([b'a', 0xff, b'b', b'c'])).unwrap_err();
    assert!(error
        .to_string()
        .contains("invalid utf-8 sequence of 1 bytes from index 1"));
}
