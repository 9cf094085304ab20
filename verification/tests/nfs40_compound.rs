//! COMPOUND requests and results of NFSv4.0.

use bytes::{Buf, Bytes};
use nfs_rs::error::NfsError;
use nfs_rs::nfs4::compound::{take_opaque, xdr_opaque, OP_GETFH, OP_PUTFH};
use nfs_rs::nfs40::compound::{
    CallbackAddress,
    CompoundBuilder,
    NewLockArgs,
    OPEN4_RESULT_CONFIRM,
    OP_ACCESS,
    OP_COMMIT,
    OP_CREATE,
    OP_GETATTR,
    OP_LINK,
    OP_LOCK,
    OP_LOCKT,
    OP_LOCKU,
    OP_OPEN,
    OP_READ,
    OP_READDIR,
    OP_READLINK,
    OP_RELEASE_LOCKOWNER,
    OP_REMOVE,
    OP_RENAME,
    OP_RENEW,
    OP_SAVEFH,
    OP_SETATTR,
    OP_SETCLIENTID,
    OP_SETCLIENTID_CONFIRM,
    OP_WRITE,
    OpenArgs,
    OpenReclaimArgs,
    SetClientIdArgs,
    create_succeeded_before_compound_failure,
    decode_access_response,
    decode_commit_response,
    decode_confirm_response,
    decode_create_response,
    decode_getattr_response,
    decode_link_response,
    decode_lock_response,
    decode_lockt_response,
    decode_open_response,
    decode_read_response,
    decode_readdir_response,
    decode_readlink_response,
    decode_release_lockowner_response,
    decode_remove_response,
    decode_rename_response,
    decode_renew_response,
    decode_setattr_response,
    decode_setclientid_response,
    decode_write_response,
};

fn single_op_response(opcode: u32, status: u32, data: &[u8]) -> Bytes {
    let mut wire = Vec::new();
    wire.extend_from_slice(&status.to_be_bytes());
    xdr_opaque(&mut wire, b"test");
    wire.extend_from_slice(&1u32.to_be_bytes());
    wire.extend_from_slice(&opcode.to_be_bytes());
    wire.extend_from_slice(&status.to_be_bytes());
    wire.extend_from_slice(data);
    Bytes::from(wire)
}

#[test]
fn create_success_before_later_compound_failure_is_detected() {
    let mut wire = Vec::new();
    wire.extend_from_slice(&10006u32.to_be_bytes());
    xdr_opaque(&mut wire, b"mkdir");
    wire.extend_from_slice(&2u32.to_be_bytes());
    for opcode in [OP_PUTFH, OP_CREATE] {
        wire.extend_from_slice(&opcode.to_be_bytes());
        wire.extend_from_slice(&0u32.to_be_bytes());
    }
    assert!(create_succeeded_before_compound_failure(Bytes::from(wire)));
}

#[test]
fn setclientid_compound_matches_rfc7530_wire_shape() {
    let request = CompoundBuilder::new("identity")
        .setclientid(SetClientIdArgs {
            verifier: [0x11; 8],
            owner: b"nfs-rs-client",
            callback: CallbackAddress {
                program: 0x4000_0000,
                netid: "tcp",
                addr: "0.0.0.0.0.0",
                ident: 7,
            },
        })
        .encode_body();

    let mut expected = Vec::new();
    xdr_opaque(&mut expected, b"identity");
    expected.extend_from_slice(&0u32.to_be_bytes());
    expected.extend_from_slice(&1u32.to_be_bytes());
    expected.extend_from_slice(&35u32.to_be_bytes());
    expected.extend_from_slice(&[0x11; 8]);
    xdr_opaque(&mut expected, b"nfs-rs-client");
    expected.extend_from_slice(&0x4000_0000u32.to_be_bytes());
    xdr_opaque(&mut expected, b"tcp");
    xdr_opaque(&mut expected, b"0.0.0.0.0.0");
    expected.extend_from_slice(&7u32.to_be_bytes());
    assert_eq!(request, expected);
}

#[test]
fn setclientid_confirm_compound_matches_rfc7530_wire_shape() {
    let request = CompoundBuilder::new("confirm")
        .setclientid_confirm(0x0102_0304_0506_0708, [0xaa; 8])
        .encode_body();

    let mut expected = Vec::new();
    xdr_opaque(&mut expected, b"confirm");
    expected.extend_from_slice(&0u32.to_be_bytes());
    expected.extend_from_slice(&1u32.to_be_bytes());
    expected.extend_from_slice(&36u32.to_be_bytes());
    expected.extend_from_slice(&0x0102_0304_0506_0708u64.to_be_bytes());
    expected.extend_from_slice(&[0xaa; 8]);
    assert_eq!(request, expected);
}

#[test]
fn setclientid_protocol_failure_is_preserved() {
    let response = single_op_response(OP_SETCLIENTID, 13, &[]);
    assert!(matches!(
        decode_setclientid_response(response),
        Err(NfsError::Nfs4(_))
    ));
}

#[test]
fn confirm_rejects_truncated_operation_status() {
    let mut wire = Vec::new();
    wire.extend_from_slice(&0u32.to_be_bytes());
    xdr_opaque(&mut wire, b"confirm");
    wire.extend_from_slice(&1u32.to_be_bytes());
    wire.extend_from_slice(&OP_SETCLIENTID_CONFIRM.to_be_bytes());
    assert!(matches!(
        decode_confirm_response(Bytes::from(wire)),
        Err(NfsError::Xdr(_))
    ));
}

#[test]
fn open_decoder_preserves_full_stateid_and_confirm_flag() {
    let mut open = Vec::new();
    open.extend_from_slice(&[0x5a; 16]);
    open.extend_from_slice(&[0; 20]); // change_info4
    open.extend_from_slice(&OPEN4_RESULT_CONFIRM.to_be_bytes());
    open.extend_from_slice(&0u32.to_be_bytes()); // attrset
    open.extend_from_slice(&0u32.to_be_bytes()); // OPEN_DELEGATE_NONE
    let mut fh = Vec::new();
    xdr_opaque(&mut fh, b"file-fh");
    let response = compound_response(
        "open",
        &[(OP_PUTFH, &[]), (OP_OPEN, &open), (OP_GETFH, &fh)],
    );
    let (opened, actual_fh) = decode_open_response(response).unwrap();
    assert_eq!(opened.stateid, [0x5a; 16]);
    assert!(opened.confirm_required);
    assert_eq!(actual_fh, Bytes::from_static(b"file-fh"));
}

#[test]
fn read_write_and_commit_validate_result_shapes() {
    let mut read = Vec::new();
    read.extend_from_slice(&1u32.to_be_bytes());
    xdr_opaque(&mut read, b"payload");
    assert_eq!(
        decode_read_response(compound_response(
            "read",
            &[(OP_PUTFH, &[]), (OP_READ, &read)]
        ))
        .unwrap(),
        Bytes::from_static(b"payload")
    );

    let write = [
        7u32.to_be_bytes().as_slice(),
        2u32.to_be_bytes().as_slice(),
        [0x33; 8].as_slice(),
    ]
    .concat();
    assert_eq!(
        decode_write_response(compound_response(
            "write",
            &[(OP_PUTFH, &[]), (OP_WRITE, &write)]
        ))
        .unwrap(),
        (7, 2, [0x33; 8])
    );
    assert_eq!(
        decode_commit_response(compound_response(
            "commit",
            &[(OP_PUTFH, &[]), (OP_COMMIT, &[0x44; 8])]
        ))
        .unwrap(),
        [0x44; 8]
    );
}

#[test]
fn access_decoder_rejects_grants_outside_supported_mask() {
    let valid = [0x3fu32.to_be_bytes(), 0x05u32.to_be_bytes()].concat();
    assert_eq!(
        decode_access_response(compound_response(
            "access",
            &[(OP_PUTFH, &[]), (OP_ACCESS, &valid)]
        ))
        .unwrap(),
        (0x3f, 0x05)
    );

    let invalid = [0x01u32.to_be_bytes(), 0x03u32.to_be_bytes()].concat();
    assert!(matches!(
        decode_access_response(compound_response(
            "access",
            &[(OP_PUTFH, &[]), (OP_ACCESS, &invalid)]
        )),
        Err(NfsError::Xdr(_))
    ));
}

#[test]
fn namespace_opcodes_match_rfc7530_registry() {
    let request = CompoundBuilder::new("namespace")
        .putfh(b"source")
        .savefh()
        .putfh(b"target")
        .link("hardlink")
        .encode_body();
    let mut expected = Vec::new();
    xdr_opaque(&mut expected, b"namespace");
    expected.extend_from_slice(&0u32.to_be_bytes());
    expected.extend_from_slice(&4u32.to_be_bytes());
    expected.extend_from_slice(&22u32.to_be_bytes());
    xdr_opaque(&mut expected, b"source");
    expected.extend_from_slice(&32u32.to_be_bytes());
    expected.extend_from_slice(&22u32.to_be_bytes());
    xdr_opaque(&mut expected, b"target");
    expected.extend_from_slice(&11u32.to_be_bytes());
    xdr_opaque(&mut expected, b"hardlink");
    assert_eq!(request, expected);
}

#[test]
fn namespace_and_metadata_result_decoders_accept_rfc7530_shapes() {
    let getattr = [0u32.to_be_bytes(), 0u32.to_be_bytes()].concat();
    assert_eq!(
        decode_getattr_response(compound_response(
            "getattr",
            &[(OP_PUTFH, &[]), (OP_GETATTR, &getattr)]
        ))
        .unwrap(),
        Bytes::from(getattr)
    );

    let attrsset = [1u32.to_be_bytes(), (1u32 << 4).to_be_bytes()].concat();
    decode_setattr_response(
        compound_response("setattr", &[(OP_PUTFH, &[]), (OP_SETATTR, &attrsset)]),
        &[1 << 4],
    )
    .unwrap();

    let change = [0u8; 20];
    decode_remove_response(compound_response(
        "remove",
        &[(OP_PUTFH, &[]), (OP_REMOVE, &change)],
    ))
    .unwrap();
    decode_link_response(compound_response(
        "link",
        &[
            (OP_PUTFH, &[]),
            (OP_SAVEFH, &[]),
            (OP_PUTFH, &[]),
            (OP_LINK, &change),
        ],
    ))
    .unwrap();
    let rename_changes = [0u8; 40];
    decode_rename_response(compound_response(
        "rename",
        &[
            (OP_PUTFH, &[]),
            (OP_SAVEFH, &[]),
            (OP_PUTFH, &[]),
            (OP_RENAME, &rename_changes),
        ],
    ))
    .unwrap();

    let mut target = Vec::new();
    xdr_opaque(&mut target, b"target");
    assert_eq!(
        decode_readlink_response(compound_response(
            "readlink",
            &[(OP_PUTFH, &[]), (OP_READLINK, &target)]
        ))
        .unwrap(),
        "target"
    );

    let directory = [0x5au8; 16];
    assert_eq!(
        decode_readdir_response(compound_response(
            "readdir",
            &[(OP_PUTFH, &[]), (OP_READDIR, &directory)]
        ))
        .unwrap(),
        Bytes::copy_from_slice(&directory)
    );

    let mut create = vec![0; 20];
    create.extend_from_slice(&0u32.to_be_bytes());
    let mut fh = Vec::new();
    xdr_opaque(&mut fh, b"created");
    let getattr = [0u8; 8];
    let (actual_fh, actual_attrs) = decode_create_response(compound_response(
        "create",
        &[
            (OP_PUTFH, &[]),
            (OP_CREATE, &create),
            (OP_GETFH, &fh),
            (OP_GETATTR, &getattr),
        ],
    ))
    .unwrap();
    assert_eq!(actual_fh, Bytes::from_static(b"created"));
    assert_eq!(actual_attrs, Bytes::copy_from_slice(&getattr));
}

fn operation_arguments(body: &[u8], index: usize) -> (u32, Bytes) {
    let mut data = Bytes::copy_from_slice(body);
    let _tag = take_opaque(&mut data, "tag").unwrap();
    assert_eq!(data.get_u32(), 0);
    let count = data.get_u32() as usize;
    assert!(index < count);
    assert_eq!(index, 0, "test helper only selects the first operation");
    (data.get_u32(), data)
}

#[test]
fn metadata_operation_arguments_match_rfc7530_vectors() {
    let cases = [
        (
            CompoundBuilder::new("access").access(0x21).encode_body(),
            OP_ACCESS,
            0x21u32.to_be_bytes().to_vec(),
        ),
        (
            CompoundBuilder::new("getattr")
                .getattr(&[0x12, 0x34])
                .encode_body(),
            OP_GETATTR,
            [
                2u32.to_be_bytes().as_slice(),
                0x12u32.to_be_bytes().as_slice(),
                0x34u32.to_be_bytes().as_slice(),
            ]
            .concat(),
        ),
        (
            CompoundBuilder::new("remove").remove("file").encode_body(),
            OP_REMOVE,
            [4u32.to_be_bytes().as_slice(), b"file"].concat(),
        ),
        (
            CompoundBuilder::new("readlink").readlink().encode_body(),
            OP_READLINK,
            Vec::new(),
        ),
    ];
    for (body, expected_opcode, expected_args) in cases {
        let (opcode, args) = operation_arguments(&body, 0);
        assert_eq!(opcode, expected_opcode);
        assert_eq!(args, Bytes::from(expected_args));
    }

    let setattr = CompoundBuilder::new("setattr")
        .setattr(&[0x11; 16], &[1 << 4], &[0x22; 8])
        .encode_body();
    let (opcode, args) = operation_arguments(&setattr, 0);
    assert_eq!(opcode, OP_SETATTR);
    assert_eq!(&args[..16], &[0x11; 16]);
    assert_eq!(
        &args[16..],
        &[
            1u32.to_be_bytes().as_slice(),
            (1u32 << 4).to_be_bytes().as_slice(),
            8u32.to_be_bytes().as_slice(),
            &[0x22; 8]
        ]
        .concat()
    );
}

#[test]
fn namespace_operation_arguments_match_rfc7530_vectors() {
    let cases = [
        (
            CompoundBuilder::new("mkdir")
                .create_directory("dir")
                .encode_body(),
            OP_CREATE,
            2,
        ),
        (
            CompoundBuilder::new("symlink")
                .create_symlink("name", "target")
                .encode_body(),
            OP_CREATE,
            5,
        ),
        (
            CompoundBuilder::new("rename")
                .rename("old", "new")
                .encode_body(),
            OP_RENAME,
            3,
        ),
        (
            CompoundBuilder::new("link").link("name").encode_body(),
            OP_LINK,
            4,
        ),
        (
            CompoundBuilder::new("readdir")
                .readdir(7, b"verifier", 8192, 32768, &[1 << 20])
                .encode_body(),
            OP_READDIR,
            0,
        ),
    ];
    for (body, expected_opcode, expected_first) in cases {
        let (opcode, mut args) = operation_arguments(&body, 0);
        assert_eq!(opcode, expected_opcode);
        assert_eq!(args.get_u32(), expected_first);
    }
}

#[test]
fn open_create_arguments_use_unchecked4_and_claim_null() {
    let body = CompoundBuilder::new("create")
        .open(OpenArgs {
            seqid: 3,
            share_access: 3,
            client_id: 9,
            owner: b"owner",
            filename: "file",
            create: true,
        })
        .encode_body();
    let (opcode, args) = operation_arguments(&body, 0);
    assert_eq!(opcode, OP_OPEN);
    assert!(args.windows(16).any(|wire| {
        wire == [
            1u32.to_be_bytes().as_slice(),
            0u32.to_be_bytes().as_slice(),
            0u32.to_be_bytes().as_slice(),
            0u32.to_be_bytes().as_slice(),
        ]
        .concat()
    }));
    assert!(args.ends_with(&[4u32.to_be_bytes().as_slice(), b"file"].concat()));
}

#[test]
fn lock_operation_arguments_match_rfc7530_vectors() {
    let new = CompoundBuilder::new("lock")
        .lock_new(NewLockArgs {
            lock_type: 2,
            reclaim: false,
            offset: 7,
            length: 11,
            open_seqid: 3,
            open_stateid: &[0x41; 16],
            lock_seqid: 0,
            client_id: 9,
            owner: b"owner",
        })
        .encode_body();
    let (opcode, args) = operation_arguments(&new, 0);
    assert_eq!(opcode, OP_LOCK);
    assert_eq!(
        args,
        [
            2u32.to_be_bytes().as_slice(),
            0u32.to_be_bytes().as_slice(),
            7u64.to_be_bytes().as_slice(),
            11u64.to_be_bytes().as_slice(),
            1u32.to_be_bytes().as_slice(),
            3u32.to_be_bytes().as_slice(),
            &[0x41; 16],
            0u32.to_be_bytes().as_slice(),
            9u64.to_be_bytes().as_slice(),
            5u32.to_be_bytes().as_slice(),
            b"owner",
            &[0, 0, 0],
        ]
        .concat()
    );

    let test = CompoundBuilder::new("lockt")
        .lockt(2, 19, 23, 9, b"tester")
        .encode_body();
    let (opcode, args) = operation_arguments(&test, 0);
    assert_eq!(opcode, OP_LOCKT);
    assert_eq!(
        args,
        [
            2u32.to_be_bytes().as_slice(),
            19u64.to_be_bytes().as_slice(),
            23u64.to_be_bytes().as_slice(),
            9u64.to_be_bytes().as_slice(),
            6u32.to_be_bytes().as_slice(),
            b"tester",
            &[0, 0],
        ]
        .concat()
    );
    let unlock = CompoundBuilder::new("locku")
        .locku(2, 5, &[0x43; 16], 29, 31)
        .encode_body();
    let (opcode, args) = operation_arguments(&unlock, 0);
    assert_eq!(opcode, OP_LOCKU);
    assert_eq!(
        args,
        [
            2u32.to_be_bytes().as_slice(),
            5u32.to_be_bytes().as_slice(),
            &[0x43; 16],
            29u64.to_be_bytes().as_slice(),
            31u64.to_be_bytes().as_slice(),
        ]
        .concat()
    );
    let release = CompoundBuilder::new("release")
        .release_lockowner(9, b"owner")
        .encode_body();
    assert_eq!(operation_arguments(&release, 0).0, OP_RELEASE_LOCKOWNER);
}

#[test]
fn lock_and_locku_results_preserve_full_stateid() {
    assert_eq!(
        decode_lock_response(
            compound_response("lock", &[(OP_PUTFH, &[]), (OP_LOCK, &[0x51; 16])]),
            OP_LOCK,
            "LOCK"
        )
        .unwrap(),
        [0x51; 16]
    );
    assert_eq!(
        decode_lock_response(
            compound_response("locku", &[(OP_PUTFH, &[]), (OP_LOCKU, &[0x52; 16])]),
            OP_LOCKU,
            "LOCKU"
        )
        .unwrap(),
        [0x52; 16]
    );
}

#[test]
fn lock_denied_result_is_validated_before_reporting_conflict() {
    let mut denied = Vec::new();
    denied.extend_from_slice(&7u64.to_be_bytes());
    denied.extend_from_slice(&11u64.to_be_bytes());
    denied.extend_from_slice(&2u32.to_be_bytes());
    denied.extend_from_slice(&9u64.to_be_bytes());
    xdr_opaque(&mut denied, b"conflicting-owner");

    let response = failed_compound_response(
        "lock",
        10010,
        &[(OP_PUTFH, 0, &[]), (OP_LOCK, 10010, &denied)],
    );
    assert!(matches!(
        decode_lock_response(response, OP_LOCK, "LOCK"),
        Err(NfsError::LockDenied {
            lock_type: 2,
            offset: 7,
            length: 11,
            ..
        })
    ));

    let truncated = failed_compound_response(
        "lock",
        10010,
        &[(OP_PUTFH, 0, &[]), (OP_LOCK, 10010, &denied[..27])],
    );
    assert!(matches!(
        decode_lock_response(truncated, OP_LOCK, "LOCK"),
        Err(NfsError::Xdr(_))
    ));

    let lockt = failed_compound_response(
        "lockt",
        10010,
        &[(OP_PUTFH, 0, &[]), (OP_LOCKT, 10010, &denied)],
    );
    assert!(matches!(
        decode_lockt_response(lockt),
        Err(NfsError::LockDenied {
            lock_type: 2,
            offset: 7,
            length: 11,
            ..
        })
    ));
}

#[test]
fn lock_result_decoders_reject_truncated_success_arms() {
    for (opcode, name) in [(OP_LOCK, "LOCK"), (OP_LOCKU, "LOCKU")] {
        let response = compound_response(name, &[(OP_PUTFH, &[]), (opcode, &[0x51; 15])]);
        assert!(matches!(
            decode_lock_response(response, opcode, name),
            Err(NfsError::Xdr(_))
        ));
    }

    let mut truncated =
        compound_response("lockt", &[(OP_PUTFH, &[]), (OP_LOCKT, &[])]).to_vec();
    truncated.truncate(truncated.len() - 1);
    assert!(matches!(
        decode_lockt_response(Bytes::from(truncated)),
        Err(NfsError::Xdr(_))
    ));
}

#[test]
fn release_lockowner_result_is_bounded() {
    decode_release_lockowner_response(compound_response(
        "release-lockowner",
        &[(OP_RELEASE_LOCKOWNER, &[])],
    ))
    .unwrap();
    assert!(
        decode_release_lockowner_response(compound_response(
            "release-lockowner",
            &[(OP_RELEASE_LOCKOWNER, &[]), (OP_PUTFH, &[])],
        ))
        .is_err()
    );
}

#[test]
fn renew_arguments_match_rfc7530_vector() {
    let body = CompoundBuilder::new("renew")
        .renew(0x0102_0304_0506_0708)
        .encode_body();
    let (opcode, args) = operation_arguments(&body, 0);
    assert_eq!(opcode, OP_RENEW);
    assert_eq!(args.as_ref(), &0x0102_0304_0506_0708u64.to_be_bytes());
}

#[test]
fn renew_result_requires_one_complete_void_operation() {
    decode_renew_response(compound_response("renew", &[(OP_RENEW, &[])])).unwrap();
    assert!(
        decode_renew_response(compound_response(
            "renew",
            &[(OP_RENEW, &[]), (OP_PUTFH, &[])],
        ))
        .is_err()
    );

    let mut truncated = compound_response("renew", &[(OP_RENEW, &[])]).to_vec();
    truncated.pop();
    assert!(decode_renew_response(Bytes::from(truncated)).is_err());
}

#[test]
fn reclaim_open_and_lock_match_rfc7530_vectors() {
    let open = CompoundBuilder::new("reclaim-open")
        .open_reclaim(OpenReclaimArgs {
            seqid: 4,
            share_access: 3,
            client_id: 9,
            owner: b"owner",
        })
        .encode_body();
    let (opcode, args) = operation_arguments(&open, 0);
    assert_eq!(opcode, OP_OPEN);
    assert_eq!(
        args,
        [
            4u32.to_be_bytes().as_slice(),
            3u32.to_be_bytes().as_slice(),
            0u32.to_be_bytes().as_slice(),
            9u64.to_be_bytes().as_slice(),
            5u32.to_be_bytes().as_slice(),
            b"owner",
            &[0, 0, 0],
            0u32.to_be_bytes().as_slice(),
            1u32.to_be_bytes().as_slice(),
            0u32.to_be_bytes().as_slice(),
        ]
        .concat()
    );

    let lock = CompoundBuilder::new("reclaim-lock")
        .lock_new(NewLockArgs {
            lock_type: 2,
            reclaim: true,
            offset: 7,
            length: 11,
            open_seqid: 5,
            open_stateid: &[0x41; 16],
            lock_seqid: 0,
            client_id: 9,
            owner: b"locker",
        })
        .encode_body();
    let (_, args) = operation_arguments(&lock, 0);
    assert_eq!(&args[4..8], &1u32.to_be_bytes());
    assert_eq!(&args[24..28], &1u32.to_be_bytes());
}

fn compound_response(tag: &str, ops: &[(u32, &[u8])]) -> Bytes {
    let mut wire = Vec::new();
    wire.extend_from_slice(&0u32.to_be_bytes());
    xdr_opaque(&mut wire, tag.as_bytes());
    wire.extend_from_slice(&(ops.len() as u32).to_be_bytes());
    for (opcode, data) in ops {
        wire.extend_from_slice(&opcode.to_be_bytes());
        wire.extend_from_slice(&0u32.to_be_bytes());
        wire.extend_from_slice(data);
    }
    Bytes::from(wire)
}

fn failed_compound_response(tag: &str, status: u32, ops: &[(u32, u32, &[u8])]) -> Bytes {
    let mut wire = Vec::new();
    wire.extend_from_slice(&status.to_be_bytes());
    xdr_opaque(&mut wire, tag.as_bytes());
    wire.extend_from_slice(&(ops.len() as u32).to_be_bytes());
    for (opcode, op_status, data) in ops {
        wire.extend_from_slice(&opcode.to_be_bytes());
        wire.extend_from_slice(&op_status.to_be_bytes());
        wire.extend_from_slice(data);
    }
    Bytes::from(wire)
}
