//! COMPOUND requests of NFSv4.1.

use bytes::Bytes;
use nfs_rs::nfs41::compound::{
    CompoundBuilder, OpNum, OpenArgs, OperationClass, SEQUENCE_CACHE_THIS_OFFSET,
};
use nfs_rs::xdr::{xdr_bitmap, xdr_bool, xdr_string, xdr_u32, xdr_u64, xdr_var_bytes};

#[test]
fn xdr_u32_encode() {
    let mut buf = Vec::new();
    xdr_u32(&mut buf, 0x12345678);
    assert_eq!(buf, vec![0x12, 0x34, 0x56, 0x78]);
}

#[test]
fn xdr_u64_encode() {
    let mut buf = Vec::new();
    xdr_u64(&mut buf, 0x0102030405060708);
    assert_eq!(buf, vec![0x01, 0x02, 0x03, 0x04, 0x05, 0x06, 0x07, 0x08]);
}

#[test]
fn xdr_bool_encode() {
    let mut buf = Vec::new();
    xdr_bool(&mut buf, true);
    xdr_bool(&mut buf, false);
    assert_eq!(buf, vec![0, 0, 0, 1, 0, 0, 0, 0]);
}

#[test]
fn xdr_var_bytes_with_padding() {
    let mut buf = Vec::new();
    xdr_var_bytes(&mut buf, &[0xAA, 0xBB, 0xCC]); // 3 bytes → needs 1 byte padding
    assert_eq!(buf.len(), 4 + 4); // length(4) + data(3) + pad(1) = 8
    assert_eq!(&buf[0..4], &3u32.to_be_bytes());
    assert_eq!(&buf[4..7], &[0xAA, 0xBB, 0xCC]);
    assert_eq!(buf[7], 0); // padding
}

#[test]
fn xdr_var_bytes_aligned() {
    let mut buf = Vec::new();
    xdr_var_bytes(&mut buf, &[1, 2, 3, 4]); // 4 bytes → no padding
    assert_eq!(buf.len(), 8); // length(4) + data(4)
}

#[test]
fn xdr_var_bytes_empty() {
    let mut buf = Vec::new();
    xdr_var_bytes(&mut buf, &[]);
    assert_eq!(buf, vec![0, 0, 0, 0]); // just the length
}

#[test]
fn xdr_string_encode() {
    let mut buf = Vec::new();
    xdr_string(&mut buf, "hi");
    assert_eq!(buf.len(), 8); // length(4) + "hi"(2) + pad(2)
    assert_eq!(&buf[0..4], &2u32.to_be_bytes());
    assert_eq!(&buf[4..6], b"hi");
}

#[test]
fn xdr_bitmap_encode() {
    let mut buf = Vec::new();
    xdr_bitmap(&mut buf, &[0x1234, 0x5678]);
    assert_eq!(buf.len(), 12); // count(4) + word0(4) + word1(4)
    assert_eq!(&buf[0..4], &2u32.to_be_bytes());
    assert_eq!(&buf[4..8], &0x1234u32.to_be_bytes());
    assert_eq!(&buf[8..12], &0x5678u32.to_be_bytes());
}


#[test]
fn compound_builder_empty() {
    let builder = CompoundBuilder::new("empty");
    assert_eq!(builder.op_count(), 0);
    let mut buf = Vec::new();
    builder.encode_body(&mut buf);
    // tag: len(4) = 5, "empty"(5) + pad(3) = 8 → total tag = 12
    // then minorversion(4) + opcount(4) = 8
    // total header = 20
    assert_eq!(&buf[0..4], &5u32.to_be_bytes()); // tag length
    assert_eq!(&buf[4..9], b"empty");
    // op count = 0
    let opcount_offset = 12 + 4; // tag(12) + minorversion(4) = 16
    assert_eq!(
        &buf[opcount_offset..opcount_offset + 4],
        &0u32.to_be_bytes()
    );
}

#[test]
fn compound_builder_putfh_encode() {
    let fh = vec![0xDE, 0xAD, 0xBE, 0xEF];
    let builder = CompoundBuilder::new("t").putfh(&fh);
    assert_eq!(builder.op_count(), 1);
    let mut buf = Vec::new();
    builder.encode_body(&mut buf);
    // Find PUTFH opcode (22) after header
    // header: tag len(4) + "t\0\0\0"(4) + minor(4) + opcount(4) = 16
    assert_eq!(&buf[16..20], &22u32.to_be_bytes()); // PUTFH opcode
    // fh: length(4) + data(4) = 8
    assert_eq!(&buf[20..24], &4u32.to_be_bytes()); // fh length
    assert_eq!(&buf[24..28], &[0xDE, 0xAD, 0xBE, 0xEF]);
}

#[test]
fn compound_builder_lookup_encode() {
    let builder = CompoundBuilder::new("t").lookup("test.txt");
    let mut buf = Vec::new();
    builder.encode_body(&mut buf);
    // After header (16 bytes): opcode(4) + string_len(4) + "test.txt"(8) = 16
    assert_eq!(&buf[16..20], &15u32.to_be_bytes()); // LOOKUP opcode = 15
    assert_eq!(&buf[20..24], &8u32.to_be_bytes()); // name length
    assert_eq!(&buf[24..32], b"test.txt");
}

#[test]
fn compound_builder_read_encode() {
    let stateid = [0u8; 16];
    let builder = CompoundBuilder::new("t").read(&stateid, 1024, 4096);
    let mut buf = Vec::new();
    builder.encode_body(&mut buf);
    assert_eq!(&buf[16..20], &25u32.to_be_bytes()); // READ opcode = 25
    // stateid (16) + offset (8) + count (4) = 28
    assert_eq!(&buf[36..44], &1024u64.to_be_bytes()); // offset
    assert_eq!(&buf[44..48], &4096u32.to_be_bytes()); // count
}

#[test]
fn compound_builder_chained_ops() {
    let builder = CompoundBuilder::new("c")
        .putrootfh()
        .lookup("dir1")
        .lookup("dir2")
        .lookup("file")
        .getfh()
        .getattr(&[0, 0]);
    assert_eq!(builder.op_count(), 6);
}

#[test]
fn compound_builder_write_encode() {
    let stateid = [0xABu8; 16];
    let data = [1u8, 2, 3, 4, 5];
    let builder = CompoundBuilder::new("t").write(&stateid, 0, 2, &data);
    let mut buf = Vec::new();
    builder.encode_body(&mut buf);
    assert_eq!(&buf[16..20], &38u32.to_be_bytes()); // WRITE opcode = 38
}

#[test]
fn open_delegation_preferences_match_linux_wire_values() {
    let encode_access = |want_no_delegation| {
        let args = OpenArgs {
            seqid: 0,
            share_access: 3,
            share_deny: 0,
            client_id: 1,
            owner: Bytes::new(),
            create: false,
            create_attrs_mask: Vec::new(),
            create_attrs_vals: Vec::new(),
            claim_file: "f".to_string(),
            want_no_delegation,
        };
        let mut encoded = Vec::new();
        args.encode(&mut encoded);
        u32::from_be_bytes(encoded[4..8].try_into().unwrap())
    };
    assert_eq!(encode_access(true), 0x0403);
    assert_eq!(encode_access(false), 0x0203);
}

#[test]
fn compound_builder_remove_encode() {
    let builder = CompoundBuilder::new("t").remove("oldfile");
    let mut buf = Vec::new();
    builder.encode_body(&mut buf);
    assert_eq!(&buf[16..20], &28u32.to_be_bytes()); // REMOVE opcode = 28
}

#[test]
fn compound_builder_rename_encode() {
    let builder = CompoundBuilder::new("t").rename("old", "new");
    assert_eq!(builder.op_count(), 1);
}

#[test]
fn compound_builder_create_symlink_encode() {
    let builder = CompoundBuilder::new("t").create_symlink("link", "/target/path", &[], &[]);
    assert_eq!(builder.op_count(), 1);
    let mut buf = Vec::new();
    builder.encode_body(&mut buf);
    assert_eq!(&buf[16..20], &6u32.to_be_bytes()); // CREATE opcode = 6
    // NF4LNK = 5
    assert_eq!(&buf[20..24], &5u32.to_be_bytes());
}

#[test]
fn compound_builder_basic_encode() {
    let builder = CompoundBuilder::new("test")
        .putrootfh()
        .lookup("mydir")
        .getfh()
        .getattr(&[0x0018_00bb, 0x0030_0b73]);

    assert_eq!(builder.op_count(), 4);

    let mut buf = Vec::new();
    builder.encode_body(&mut buf);

    // Verify tag
    assert_eq!(&buf[0..4], &4u32.to_be_bytes()); // tag length = 4
    assert_eq!(&buf[4..8], b"test");
    // Verify minor version = 1
    assert_eq!(&buf[8..12], &1u32.to_be_bytes());
    // Verify op count = 4
    assert_eq!(&buf[12..16], &4u32.to_be_bytes());
    // First op = PUTROOTFH (24)
    assert_eq!(&buf[16..20], &24u32.to_be_bytes());
}

#[test]
fn compound_builder_sequence_encode() {
    let session_id = [1u8; 16];
    let builder = CompoundBuilder::new("seq").sequence(&session_id, 42, 0, 0);

    let mut buf = Vec::new();
    builder.encode_body(&mut buf);

    // Skip tag (4+4=8) + minor_version (4) + op_count (4) = 20 bytes header
    // Then SEQUENCE opcode (4) = 24
    let op_start = 16; // after "seq\0" tag + minorversion + opcount
    assert_eq!(
        &buf[op_start..op_start + 4],
        &OpNum::Sequence.number().to_be_bytes()
    );
    // session_id starts at op_start + 4
    assert_eq!(&buf[op_start + 4..op_start + 20], &session_id);
    // sequence_id = 42 at op_start + 20
    assert_eq!(&buf[op_start + 20..op_start + 24], &42u32.to_be_bytes());
}

#[test]
fn negotiated_operation_limit_is_enforced_at_boundaries() {
    let session_id = [0u8; 16];
    let one = CompoundBuilder::new("one").sequence(&session_id, 1, 0, 0);
    assert!(one.enforce_max_operations(0).is_err());
    assert!(one.enforce_max_operations(1).is_ok());

    let two = CompoundBuilder::new("two")
        .sequence(&session_id, 1, 0, 0)
        .putrootfh();
    assert!(two.enforce_max_operations(1).is_err());
    assert!(two.enforce_max_operations(2).is_ok());
    assert!(two.enforce_max_operations(3).is_ok());
}

#[test]
fn operation_classes_cover_supported_opnums() {
    let read_only = [
        OpNum::Access,
        OpNum::GetAttr,
        OpNum::GetFh,
        OpNum::GetDeviceInfo,
        OpNum::Lockt,
        OpNum::Lookup,
        OpNum::Lookupp,
        OpNum::PutFh,
        OpNum::PutRootFh,
        OpNum::Read,
        OpNum::ReadDir,
        OpNum::ReadLink,
        OpNum::RestoreFh,
        OpNum::SaveFh,
        OpNum::TestStateId,
    ];
    let control = [
        OpNum::BindConnToSession,
        OpNum::CreateSession,
        OpNum::DestroyClientId,
        OpNum::DestroySession,
        OpNum::ExchangeId,
        OpNum::ReclaimComplete,
        OpNum::Sequence,
    ];
    let replay_sensitive = [
        OpNum::Close,
        OpNum::Commit,
        OpNum::Create,
        OpNum::DelegReturn,
        OpNum::FreeStateId,
        OpNum::LayoutCommit,
        OpNum::LayoutGet,
        OpNum::LayoutReturn,
        OpNum::Link,
        OpNum::Lock,
        OpNum::Locku,
        OpNum::Open,
        OpNum::OpenAttr,
        OpNum::Remove,
        OpNum::Rename,
        OpNum::SetAttr,
        OpNum::Write,
    ];
    assert!(
        read_only
            .iter()
            .all(|op| op.class() == OperationClass::ReadOnly)
    );
    assert!(
        control
            .iter()
            .all(|op| op.class() == OperationClass::SessionControl)
    );
    assert!(
        replay_sensitive
            .iter()
            .all(|op| op.class() == OperationClass::ReplaySensitive)
    );
    assert_eq!(read_only.len() + control.len() + replay_sensitive.len(), 39);
}

#[test]
fn cache_policy_is_false_for_read_only_compound() {
    let session_id = [1u8; 16];
    let builder = CompoundBuilder::new("read")
        .sequence(&session_id, 1, 0, 0)
        .putrootfh()
        .lookup("file")
        .getattr(&[1])
        .apply_sequence_cache_policy(0)
        .unwrap();
    assert_eq!(
        &builder.ops[0].args[SEQUENCE_CACHE_THIS_OFFSET..SEQUENCE_CACHE_THIS_OFFSET + 4],
        &0u32.to_be_bytes()
    );
}

#[test]
fn cache_policy_is_true_for_mixed_modifying_compound() {
    let session_id = [1u8; 16];
    let stateid = [0u8; 16];
    let builder = CompoundBuilder::new("write")
        .sequence(&session_id, 1, 0, 0)
        .putfh(b"fh")
        .write_header(&stateid, 0, 2, 1_048_576)
        .getattr(&[1])
        .apply_sequence_cache_policy(2128)
        .unwrap();
    assert_eq!(
        &builder.ops[0].args[SEQUENCE_CACHE_THIS_OFFSET..SEQUENCE_CACHE_THIS_OFFSET + 4],
        &1u32.to_be_bytes()
    );
    assert_eq!(builder.ops[2].args.len(), 32);
    assert_eq!(&builder.ops[2].args[28..32], &1_048_576u32.to_be_bytes());
}

#[test]
fn cache_policy_checks_negotiated_capacity_boundary_before_encode() {
    let session_id = [1u8; 16];
    let builder_at_limit = CompoundBuilder::new("remove")
        .sequence(&session_id, 1, 0, 0)
        .putfh(b"fh")
        .remove("file");
    let required = builder_at_limit.minimum_cached_response_size();
    assert!(
        builder_at_limit
            .apply_sequence_cache_policy(required)
            .is_ok()
    );

    let builder_below_limit = CompoundBuilder::new("remove")
        .sequence(&session_id, 1, 0, 0)
        .putfh(b"fh")
        .remove("file");
    let error = match builder_below_limit.apply_sequence_cache_policy(required - 1) {
        Ok(_) => panic!("modifying compound requires cached reply capacity"),
        Err(error) => error,
    };
    assert!(
        error
            .to_string()
            .contains(&format!("requires at least {required}"))
    );
}

#[test]
fn cache_policy_requires_sequence_first() {
    let result = CompoundBuilder::new("invalid")
        .putrootfh()
        .apply_sequence_cache_policy(2128);
    let error = match result {
        Ok(_) => panic!("missing SEQUENCE must fail"),
        Err(error) => error,
    };
    assert!(error.to_string().contains("not a valid SEQUENCE"));
}

#[test]
fn required_generation_is_preserved_by_builder_chaining() {
    let builder = CompoundBuilder::new("generation-fence")
        .require_generation(7)
        .putrootfh()
        .getattr(&[1]);
    assert_eq!(builder.required_generation(), Some(7));
}

#[test]
fn anonymous_stateid_generation_is_not_fenced() {
    let builder = CompoundBuilder::new("anonymous")
        .require_generation(0)
        .putrootfh();
    assert_eq!(builder.required_generation(), None);
}
