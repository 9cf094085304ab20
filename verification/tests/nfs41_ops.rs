//! The operations of an NFSv4.1 mount: what they ask for and what they make of the reply.

use bytes::Bytes;
use nfs_rs::error::{self, NfsError};
use nfs_rs::nfs41::acl_ops::{
    get_acl_ops, get_acl_result, set_acl41_result, set_acl_ops, setacl_result, single_bitmap,
    FATTR4_ACL, FATTR4_ACLSUPPORT, FATTR4_DACL, FATTR4_SACL,
};
use nfs_rs::nfs41::compound::{ChannelAttrsArgs, CompoundBuilder};
use nfs_rs::nfs41::dir_ops::{
    link_ops, link_result, parse_change_info, parse_rename_change_info, remove_ops, remove_result,
    rename_ops, rename_result, symlink_ops, symlink_result, ChangeInfo,
};
use nfs_rs::nfs41::lookup::{
    getattr_ops, getattr_result, lookup_ops, lookup_path_ops, lookup_path_result, lookup_result,
};
use nfs_rs::nfs41::response::{CompoundResponse, OpResponse};
use nfs_rs::nfs41::Nfs4ErrorCode;
use nfs_rs::rpc::Auth;

fn words(values: &[u32]) -> Vec<u8> {
    values.iter().flat_map(|value| value.to_be_bytes()).collect()
}

fn opaque(data: &[u8]) -> Vec<u8> {
    let mut out = (data.len() as u32).to_be_bytes().to_vec();
    out.extend_from_slice(data);
    out.resize(out.len().next_multiple_of(4), 0);
    out
}

fn new() -> CompoundBuilder {
    CompoundBuilder::new("")
}

fn body(builder: CompoundBuilder) -> Vec<u8> {
    let mut out = Vec::new();
    builder.encode_body(&mut out);
    out
}

/// The operations of a request behind an empty tag, the minor version and their number.
fn operations(builder: CompoundBuilder, count: u32) -> Vec<u8> {
    let out = body(builder);
    assert_eq!(out[..12], words(&[0, 1, count])[..]);
    out[12..].to_vec()
}

fn response(results: Vec<(u32, Nfs4ErrorCode, Vec<u8>)>) -> CompoundResponse {
    CompoundResponse {
        tag: String::new(),
        status: Nfs4ErrorCode::NFS4_OK,
        results: results
            .into_iter()
            .map(|(opcode, status, data)| OpResponse {
                opcode,
                status,
                data: Bytes::from(data),
            })
            .collect(),
        session_generation: 0,
    }
}

fn done(opcodes: &[u32]) -> Vec<(u32, Nfs4ErrorCode, Vec<u8>)> {
    opcodes
        .iter()
        .map(|opcode| (*opcode, Nfs4ErrorCode::NFS4_OK, Vec::new()))
        .collect()
}

fn fileid_attrs(fileid: u64) -> Vec<u8> {
    let mut out = words(&[1, 1 << 20]);
    out.extend_from_slice(&opaque(&fileid.to_be_bytes()));
    out
}

#[test]
fn session_operations_are_encoded() {
    let mut expected = words(&[42]);
    expected.extend_from_slice(&[7; 8]);
    expected.extend_from_slice(&opaque(b"owner"));
    expected.extend_from_slice(&words(&[0x1_0000, 0, 1]));
    expected.extend_from_slice(&opaque(b"domain"));
    expected.extend_from_slice(&opaque(b"name"));
    expected.extend_from_slice(&[0; 12]);
    let builder = new().exchange_id(&[7; 8], b"owner", 0x1_0000, "domain", "name");
    assert_eq!(operations(builder, 1), expected);

    let fore = ChannelAttrsArgs {
        headerpadsize: 1,
        maxrequestsize: 2,
        maxresponsesize: 3,
        maxresponsesize_cached: 4,
        maxoperations: 5,
        maxrequests: 6,
    };
    let mut expected = words(&[43]);
    expected.extend_from_slice(&9u64.to_be_bytes());
    expected.extend_from_slice(&words(&[11, 3]));
    expected.extend_from_slice(&words(&[1, 2, 3, 4, 5, 6, 0, 1, 2, 3, 4, 5, 6, 0]));
    expected.extend_from_slice(&words(&[0x4000_0000, 1, 0]));
    let builder = new().create_session(9, 11, 3, &fore, &fore, 0x4000_0000);
    assert_eq!(operations(builder, 1), expected);

    let mut expected = words(&[44]);
    expected.extend_from_slice(&[5; 16]);
    expected.extend_from_slice(&words(&[41]));
    expected.extend_from_slice(&[5; 16]);
    expected.extend_from_slice(&words(&[3, 1]));
    expected.extend_from_slice(&words(&[58, 1, 57]));
    expected.extend_from_slice(&9u64.to_be_bytes());
    let builder = new()
        .destroy_session(&[5; 16])
        .bind_conn_to_session(&[5; 16], 3, true)
        .reclaim_complete(true)
        .destroy_client_id(9);
    assert_eq!(operations(builder, 4), expected);
}

#[test]
fn layout_operations_are_encoded() {
    let mut expected = words(&[50, 1, 1, 2]);
    for number in [3u64, 4, 5] {
        expected.extend_from_slice(&number.to_be_bytes());
    }
    expected.extend_from_slice(&[6; 16]);
    expected.extend_from_slice(&words(&[7]));
    let builder = new().layoutget(true, 1, 2, 3, 4, 5, &[6; 16], 7);
    assert_eq!(operations(builder, 1), expected);

    for last in [None, Some(8u64)] {
        let mut expected = words(&[49]);
        expected.extend_from_slice(&1u64.to_be_bytes());
        expected.extend_from_slice(&2u64.to_be_bytes());
        expected.extend_from_slice(&words(&[1]));
        expected.extend_from_slice(&[3; 16]);
        match last {
            Some(last) => {
                expected.extend_from_slice(&words(&[1]));
                expected.extend_from_slice(&last.to_be_bytes());
            }
            None => expected.extend_from_slice(&words(&[0])),
        }
        expected.extend_from_slice(&words(&[0, 1, 0]));
        let builder = new().layoutcommit(1, 2, true, &[3; 16], last, 1);
        assert_eq!(operations(builder, 1), expected);
    }

    let mut expected = words(&[51, 0, 1, 2, 1]);
    expected.extend_from_slice(&3u64.to_be_bytes());
    expected.extend_from_slice(&4u64.to_be_bytes());
    expected.extend_from_slice(&[5; 16]);
    expected.extend_from_slice(&words(&[0]));
    expected.extend_from_slice(&words(&[51, 0, 1, 2, 3]));
    let builder = new()
        .layoutreturn(false, 1, 2, 1, 3, 4, &[5; 16])
        .layoutreturn(false, 1, 2, 3, 3, 4, &[5; 16]);
    assert_eq!(operations(builder, 2), expected);

    let mut expected = words(&[47]);
    expected.extend_from_slice(&[8; 16]);
    expected.extend_from_slice(&words(&[1, 4096, 0]));
    assert_eq!(
        operations(new().getdeviceinfo(&[8; 16], 1, 4096), 1),
        expected
    );
}

#[test]
fn stateid_and_directory_operations_are_encoded() {
    let mut expected = words(&[55, 2]);
    expected.extend_from_slice(&[1; 16]);
    expected.extend_from_slice(&[2; 16]);
    expected.extend_from_slice(&words(&[56]));
    expected.extend_from_slice(&[3; 16]);
    expected.extend_from_slice(&words(&[31, 20, 1, 16]));
    let builder = new()
        .test_stateid(&[[1; 16], [2; 16]])
        .free_stateid(&[3; 16])
        .restorefh()
        .openattr(true)
        .lookupp();
    assert_eq!(operations(builder, 5), expected);
}

#[test]
fn call_carries_the_credential() {
    let mut call = Vec::new();
    new().encode_with_header(&Auth::new_null(), &mut call);
    assert_eq!(call, words(&[0, 0, 2, 100003, 4, 1, 0, 0, 0, 0, 0, 1, 0]));

    let auth = Auth::new_unix("nfs-rs", 7, 9);
    let mut credential = words(&[0]);
    credential.extend_from_slice(&opaque(b"nfs-rs"));
    credential.extend_from_slice(&words(&[7, 9, 0]));
    let mut expected = words(&[0, 0, 2, 100003, 4, 1, 1]);
    expected.extend_from_slice(&opaque(&credential));
    expected.extend_from_slice(&words(&[0, 0, 0, 1, 0]));
    let mut call = Vec::new();
    new().encode_with_header(&auth, &mut call);
    assert_eq!(call, expected);
}

#[test]
fn most_harmful_operation_decides_the_class() {
    let sequence = |builder: CompoundBuilder| builder.sequence(&[0; 16], 1, 0, 0);
    assert_eq!(
        sequence(new()).operation_class(),
        error::OperationClass::SessionControl
    );
    assert_eq!(
        sequence(new()).putfh(b"fh").getfh().operation_class(),
        error::OperationClass::ReadOnly
    );
    assert_eq!(
        sequence(new()).remove("x").getfh().operation_class(),
        error::OperationClass::ReplaySensitive
    );
}

#[test]
fn directory_operations_are_asked_for() {
    let dir = Bytes::from_static(b"dir");
    let other = Bytes::from_static(b"other");
    let mut expected = words(&[22]);
    expected.extend_from_slice(&opaque(b"dir"));
    expected.extend_from_slice(&words(&[28]));
    expected.extend_from_slice(&opaque(b"name"));
    assert_eq!(operations(remove_ops(new(), &dir, "name"), 2), expected);

    let mut expected = words(&[22]);
    expected.extend_from_slice(&opaque(b"dir"));
    expected.extend_from_slice(&words(&[32, 22]));
    expected.extend_from_slice(&opaque(b"other"));
    expected.extend_from_slice(&words(&[29]));
    expected.extend_from_slice(&opaque(b"a"));
    expected.extend_from_slice(&opaque(b"b"));
    assert_eq!(
        operations(rename_ops(new(), &dir, "a", &other, "b"), 4),
        expected
    );

    let link = operations(link_ops(new(), &dir, &other, "c"), 6);
    let mut expected = words(&[22]);
    expected.extend_from_slice(&opaque(b"dir"));
    expected.extend_from_slice(&words(&[32, 22]));
    expected.extend_from_slice(&opaque(b"other"));
    expected.extend_from_slice(&words(&[11]));
    expected.extend_from_slice(&opaque(b"c"));
    expected.extend_from_slice(&words(&[22]));
    expected.extend_from_slice(&opaque(b"dir"));
    expected.extend_from_slice(&words(&[9, 2]));
    assert_eq!(link[..expected.len()], expected[..]);

    let symlink = operations(symlink_ops(new(), "target", &dir, "d"), 4);
    let mut expected = words(&[22]);
    expected.extend_from_slice(&opaque(b"dir"));
    expected.extend_from_slice(&words(&[6, 5]));
    expected.extend_from_slice(&opaque(b"target"));
    expected.extend_from_slice(&opaque(b"d"));
    assert_eq!(symlink[..expected.len()], expected[..]);
}

#[test]
fn directory_results_name_the_operation_that_failed() {
    assert!(remove_result(&response(done(&[53, 22, 28]))).is_ok());
    let mut results = done(&[53, 22, 28]);
    results[2].1 = Nfs4ErrorCode::NFS4ERR_NOENT;
    assert!(matches!(
        remove_result(&response(results)),
        Err(NfsError::Nfs4(Nfs4ErrorCode::NFS4ERR_NOENT))
    ));
    assert!(rename_result(&response(done(&[53, 22, 32, 22, 29]))).is_ok());
    assert!(matches!(
        rename_result(&response(done(&[53, 22, 32, 22]))),
        Err(NfsError::Xdr(_))
    ));

    let mut results = done(&[53, 22, 32, 22, 11, 22, 9]);
    results[6].2 = fileid_attrs(77);
    assert_eq!(link_result(&response(results)).unwrap().fileid, 77);

    let mut results = done(&[53, 22, 6, 10, 9]);
    results[3].2 = opaque(b"new-fh");
    results[4].2 = fileid_attrs(78);
    let object = symlink_result(&response(results)).unwrap();
    assert_eq!(object.fh, Bytes::from_static(b"new-fh"));
    assert_eq!(object.attr.unwrap().fileid, 78);
}

#[test]
fn change_info_needs_its_twenty_bytes() {
    let mut data = words(&[1]);
    data.extend_from_slice(&5u64.to_be_bytes());
    data.extend_from_slice(&6u64.to_be_bytes());
    let results = response(vec![
        (28, Nfs4ErrorCode::NFS4_OK, data.clone()),
        (28, Nfs4ErrorCode::NFS4_OK, data[..19].to_vec()),
        (29, Nfs4ErrorCode::NFS4_OK, [data.clone(), data].concat()),
    ])
    .results;
    let info = ChangeInfo {
        atomic: true,
        before: 5,
        after: 6,
    };
    assert_eq!(parse_change_info(&results[0]), Some(info));
    assert_eq!(parse_change_info(&results[1]), None);
    assert_eq!(parse_rename_change_info(&results[2]), Some((info, info)));
    assert_eq!(parse_rename_change_info(&results[0]), None);
}

#[test]
fn lookups_ask_and_answer() {
    let fh = Bytes::from_static(b"fh");
    let getattr = operations(getattr_ops(new(), &fh), 2);
    let mut expected = words(&[22]);
    expected.extend_from_slice(&opaque(b"fh"));
    expected.extend_from_slice(&words(&[9, 2]));
    assert_eq!(getattr[..expected.len()], expected[..]);
    let mut results = done(&[53, 22, 9]);
    results[2].2 = fileid_attrs(3);
    assert_eq!(getattr_result(&response(results)).unwrap().fileid, 3);

    let lookup = operations(lookup_ops(new(), &fh, "a"), 4);
    let mut expected = words(&[22]);
    expected.extend_from_slice(&opaque(b"fh"));
    expected.extend_from_slice(&words(&[15]));
    expected.extend_from_slice(&opaque(b"a"));
    expected.extend_from_slice(&words(&[10, 9, 2]));
    assert_eq!(lookup[..expected.len()], expected[..]);
    let mut results = done(&[53, 22, 15, 10, 9]);
    results[3].2 = opaque(b"found");
    results[4].2 = fileid_attrs(4);
    let object = lookup_result(&response(results)).unwrap();
    assert_eq!(object.fh, Bytes::from_static(b"found"));

    let path = vec!["a".to_string(), "bc".to_string()];
    let lookups = operations(lookup_path_ops(new(), &fh, &path), 5);
    let mut expected = words(&[22]);
    expected.extend_from_slice(&opaque(b"fh"));
    expected.extend_from_slice(&words(&[15]));
    expected.extend_from_slice(&opaque(b"a"));
    expected.extend_from_slice(&words(&[15]));
    expected.extend_from_slice(&opaque(b"bc"));
    expected.extend_from_slice(&words(&[10, 9, 2]));
    assert_eq!(lookups[..expected.len()], expected[..]);
    let mut results = done(&[53, 22, 15, 15, 10, 9]);
    results[4].2 = opaque(b"deep");
    results[5].2 = fileid_attrs(5);
    let object = lookup_path_result(&response(results), 2).unwrap();
    assert_eq!(object.fh, Bytes::from_static(b"deep"));
    let mut results = done(&[53, 22, 15, 15]);
    results[3].1 = Nfs4ErrorCode::NFS4ERR_NOENT;
    assert!(matches!(
        lookup_path_result(&response(results), 2),
        Err(NfsError::Nfs4(Nfs4ErrorCode::NFS4ERR_NOENT))
    ));
}

#[test]
fn access_control_lists_are_asked_for_and_set() {
    assert_eq!(single_bitmap(FATTR4_ACL), [1 << 12]);
    assert_eq!(single_bitmap(FATTR4_ACLSUPPORT), [1 << 13]);
    assert_eq!(single_bitmap(FATTR4_DACL), [0, 1 << (FATTR4_DACL - 32)]);
    assert_eq!(single_bitmap(FATTR4_SACL), [0, 1 << (FATTR4_SACL - 32)]);
    let fh = Bytes::from_static(b"fh");
    let mut expected = words(&[22]);
    expected.extend_from_slice(&opaque(b"fh"));
    expected.extend_from_slice(&words(&[9, 1, 1 << 12]));
    assert_eq!(operations(get_acl_ops(new(), &fh, FATTR4_ACL), 2), expected);
    let mut results = done(&[53, 22, 9]);
    results[2].2 = vec![1, 2, 3];
    assert_eq!(
        get_acl_result(&response(results)).unwrap(),
        Bytes::from_static(&[1, 2, 3])
    );

    let mut expected = words(&[22]);
    expected.extend_from_slice(&opaque(b"fh"));
    expected.extend_from_slice(&words(&[34, 0, 0, 0, 0, 1, 1 << 12]));
    expected.extend_from_slice(&opaque(b"acl"));
    assert_eq!(
        operations(set_acl_ops(new(), &fh, &[1 << 12], b"acl"), 2),
        expected
    );
    assert!(setacl_result(&response(done(&[53, 22, 34]))).is_ok());
    assert!(setacl_result(&response(done(&[53, 22])))
        .unwrap_err()
        .to_string()
        .contains("SETATTR response missing op at index 2"));
    let mut results = done(&[53, 22, 34]);
    results[2].1 = Nfs4ErrorCode::NFS4ERR_PERM;
    assert!(matches!(
        setacl_result(&response(results)),
        Err(NfsError::Nfs4(Nfs4ErrorCode::NFS4ERR_PERM))
    ));
    assert!(set_acl41_result(&response(done(&[53, 22, 34]))).is_ok());
    assert!(set_acl41_result(&response(done(&[53, 22])))
        .unwrap_err()
        .to_string()
        .contains("missing op at index 2"));
}

#[test]
fn written_results_are_read_back() {
    let mut reply = words(&[0]);
    reply.extend_from_slice(&opaque(b"tag"));
    reply.extend_from_slice(&words(&[3, 22, 0, 10, 0]));
    reply.extend_from_slice(&opaque(b"fh"));
    reply.extend_from_slice(&words(&[9, 10006]));
    let read = CompoundResponse::decode(Bytes::from(reply)).unwrap();
    assert_eq!(read.tag, "tag");
    assert_eq!(read.results.len(), 3);
    assert_eq!(
        read.results.iter().map(|op| op.opcode).collect::<Vec<_>>(),
        [22, 10, 9]
    );
    assert!(read.results[1].data.starts_with(&opaque(b"fh")));
    assert_eq!(read.results[2].status, Nfs4ErrorCode::NFS4ERR_SERVERFAULT);
}
