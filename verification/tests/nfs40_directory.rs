//! Directory pages and file system metadata.

use bytes::Bytes;
use nfs_rs::error::NfsError;
use nfs_rs::nfs4::compound::xdr_opaque;
use nfs_rs::nfs40::directory::{decode_directory_page, validate_readdir_payload};
use nfs_rs::nfs40::metadata::require_fattrs;

fn directory_page(entry_cookie: u64, include_eof: bool) -> Bytes {
    let mut data = Vec::new();
    data.extend_from_slice(b"verifier");
    data.extend_from_slice(&1u32.to_be_bytes());
    data.extend_from_slice(&entry_cookie.to_be_bytes());
    xdr_opaque(&mut data, b"file");
    data.extend_from_slice(&1u32.to_be_bytes());
    data.extend_from_slice(&(1u32 << 20).to_be_bytes());
    data.extend_from_slice(&8u32.to_be_bytes());
    data.extend_from_slice(&42u64.to_be_bytes());
    data.extend_from_slice(&0u32.to_be_bytes());
    if include_eof {
        data.extend_from_slice(&1u32.to_be_bytes());
    }
    Bytes::from(data)
}

#[test]
fn readdir_page_decodes_cookie_name_and_fileid() {
    let mut data = directory_page(7, true);
    let (verifier, entries, eof) = decode_directory_page(&mut data, 0).unwrap();
    assert_eq!(&verifier, b"verifier");
    assert_eq!(entries.len(), 1);
    let entry = entries[0].as_ref().unwrap();
    assert_eq!(entry.cookie, 7);
    assert_eq!(entry.name, "file");
    assert_eq!(entry.attr.fileid, 42);
    assert!(eof);
}

#[test]
fn readdir_page_rejects_non_advancing_cookie() {
    let mut data = directory_page(7, true);
    let (_, entries, _) = decode_directory_page(&mut data, 7).unwrap();
    let error = entries[0].as_ref().unwrap_err();
    assert!(error.to_string().contains("did not advance cookie"));
}

#[test]
fn readdir_page_rejects_missing_eof_flag() {
    let mut data = directory_page(7, false);
    let (_, entries, _) = decode_directory_page(&mut data, 0).unwrap();
    let error = entries[1].as_ref().unwrap_err();
    assert!(error.to_string().contains("eof flag truncated"));
}

#[test]
fn readdir_page_enforces_negotiated_maxcount() {
    let error = validate_readdir_payload(Bytes::from_static(b"12345"), 4).unwrap_err();
    assert!(error.to_string().contains("exceeds requested maxcount"));
}

#[test]
fn malformed_later_entry_preserves_prior_entry_result() {
    let mut data = directory_page(7, true).to_vec();
    data.truncate(data.len() - 8);
    data.extend_from_slice(&1u32.to_be_bytes());
    data.extend_from_slice(&8u64.to_be_bytes());
    data.extend_from_slice(&99u32.to_be_bytes());
    let (_, entries, eof) = decode_directory_page(&mut Bytes::from(data), 0).unwrap();
    assert_eq!(entries[0].as_ref().unwrap().name, "file");
    assert!(entries[1].is_err());
    assert!(eof);
}

#[test]
fn metadata_results_reject_missing_required_attributes() {
    let error = require_fattrs(&[0], &[30], "FSINFO").unwrap_err();
    assert!(matches!(error, NfsError::Unsupported(_)));
}
