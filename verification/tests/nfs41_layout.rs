//! Layouts, devices and stripes.

use bytes::Bytes;
use nfs_rs::error::{IoErrorKind, NfsError};
use nfs_rs::net::{parse_netaddr4, IpAddr, SocketAddr};
use nfs_rs::nfs41::layout::manager::{LayoutManager, PNFS_LAYOUT_REFRESH_INTERVAL};
use nfs_rs::nfs41::layout::stripes::{ds_offset, split_into_stripes, stripe_ds_index};
use nfs_rs::nfs41::layout::{
    decode_files_layout, decode_getdeviceinfo_response, decode_layoutget_response,
    is_degenerate_device, should_negative_cache_ds_error, sort_multipath_by_affinity, DeviceInfo,
    IoMode, Layout, LayoutContent, LayoutSegment, LayoutType,
};
use nfs_rs::nfs41::Nfs4ErrorCode;

fn v4(ip: [u8; 4], port: u16) -> SocketAddr {
    SocketAddr::new(IpAddr::V4(ip), port)
}

fn v6(ip: [u8; 16], port: u16) -> SocketAddr {
    SocketAddr::new(IpAddr::V6(ip), port)
}


fn put_u32(buf: &mut Vec<u8>, v: u32) {
    buf.extend_from_slice(&v.to_be_bytes());
}
fn put_u64(buf: &mut Vec<u8>, v: u64) {
    buf.extend_from_slice(&v.to_be_bytes());
}

#[test]
fn layout_manager_store_and_get() {
    let mut mgr = LayoutManager::new(false);
    let fh = Bytes::from_static(b"file1");
    let layout = Layout {
        generation: 1,
        stateid: [1u8; 16],
        return_on_close: true,
        segments: vec![],
    };
    mgr.store_layout(&fh, layout);
    let got = mgr.get_layout(&fh).unwrap();
    assert_eq!(got.stateid, [1u8; 16]);
    assert!(got.return_on_close);
}

#[test]
fn transition_rejects_late_layout_from_old_generation() {
    let mut mgr = LayoutManager::new(false);
    let fh = Bytes::from_static(b"generation-layout");
    let layout = Layout {
        generation: 1,
        stateid: [2; 16],
        return_on_close: false,
        segments: vec![],
    };
    assert!(
        mgr.store_layout_at(&fh, 1, layout.copy()),
        "initial generation should accept layout"
    );
    mgr.transition_to(2);
    assert!(mgr.get_layout(&fh).is_none());
    assert!(!mgr.store_layout_at(&fh, 1, layout.copy()));
    assert!(mgr.get_layout(&fh).is_none());
    assert!(mgr.store_layout_at(&fh, 2, layout));
    assert!(mgr.get_layout(&fh).is_some());
}

#[test]
fn layout_manager_remove() {
    let mut mgr = LayoutManager::new(false);
    let fh = Bytes::from_static(b"file2");
    mgr.store_layout(
        &fh,
        Layout {
            generation: 1,
            stateid: [2u8; 16],
            return_on_close: false,
            segments: vec![],
        },
    );
    let removed = mgr.remove_layout(&fh);
    assert!(removed.is_some());
    assert!(mgr.get_layout(&fh).is_none());
}

#[test]
fn degenerate_device_single_ds_is_mds() {
    let mds: SocketAddr = v4([10, 0, 0, 1], 2049);
    let device = DeviceInfo {
        stripe_indices: vec![0],
        ds_addrs: vec![vec![mds]],
    };
    assert!(is_degenerate_device(&device, &mds));
}

#[test]
fn degenerate_device_other_ds() {
    let mds: SocketAddr = v4([10, 0, 0, 1], 2049);
    let other: SocketAddr = v4([10, 0, 0, 2], 2049);
    let device = DeviceInfo {
        stripe_indices: vec![0, 1],
        ds_addrs: vec![vec![mds], vec![other]],
    };
    assert!(!is_degenerate_device(&device, &mds));
}

#[test]
fn degenerate_device_empty_ds_list() {
    let mds: SocketAddr = v4([10, 0, 0, 1], 2049);
    let device = DeviceInfo {
        stripe_indices: vec![],
        ds_addrs: vec![],
    };
    assert!(!is_degenerate_device(&device, &mds));
}

#[test]
fn degenerate_device_port_mismatch() {
    let mds: SocketAddr = v4([10, 0, 0, 1], 2049);
    let same_ip_other_port: SocketAddr = v4([10, 0, 0, 1], 20490);
    let device = DeviceInfo {
        stripe_indices: vec![0],
        ds_addrs: vec![vec![same_ip_other_port]],
    };
    assert!(!is_degenerate_device(&device, &mds));
}

#[test]
fn multipath_sort_exact_match_first() {
    let mds: SocketAddr = v4([10, 128, 61, 201], 2049);
    let mut info = DeviceInfo {
        stripe_indices: vec![0],
        ds_addrs: vec![vec![
            v4([192, 168, 13, 132], 2049),
            v4([10, 128, 61, 201], 2049),
        ]],
    };
    sort_multipath_by_affinity(&mut info, &mds);
    assert_eq!(info.ds_addrs[0][0], mds);
    assert!(is_degenerate_device(&info, &mds));
}

#[test]
fn multipath_sort_prefix_affinity() {
    let mds: SocketAddr = v4([10, 128, 61, 201], 2049);
    let near: SocketAddr = v4([10, 128, 61, 200], 2049);
    let far: SocketAddr = v4([192, 168, 13, 131], 2049);
    let mut info = DeviceInfo {
        stripe_indices: vec![0],
        ds_addrs: vec![vec![far, near]],
    };
    sort_multipath_by_affinity(&mut info, &mds);
    assert_eq!(info.ds_addrs[0][0], near);
    assert!(!is_degenerate_device(&info, &mds));
}

#[test]
fn multipath_sort_keeps_the_order_of_equals() {
    let mds: SocketAddr = v4([10, 128, 61, 201], 2049);
    let near: SocketAddr = v4([10, 128, 61, 200], 2049);
    // The same distance from the metadata server.
    let first: SocketAddr = v4([192, 168, 13, 131], 2049);
    let second: SocketAddr = v4([172, 16, 0, 1], 2049);
    let third: SocketAddr = v4([192, 168, 13, 131], 2050);
    let mut info = DeviceInfo {
        stripe_indices: vec![0],
        ds_addrs: vec![vec![first, near, second, third]],
    };
    sort_multipath_by_affinity(&mut info, &mds);
    assert_eq!(info.ds_addrs[0], vec![near, first, second, third]);
}

#[test]
fn addresses_of_different_scopes_differ() {
    let ip = [0xfe, 0x80, 0, 0, 0, 0, 0, 0, 0, 0, 0, 0, 0, 0, 0, 1];
    let plain: SocketAddr = v6(ip, 2049);
    let mds = SocketAddr {
        scope_id: 2,
        ..plain
    };
    let flowing = SocketAddr {
        flowinfo: 7,
        ..plain
    };
    let mut info = DeviceInfo {
        stripe_indices: vec![0],
        ds_addrs: vec![vec![plain]],
    };
    assert!(is_degenerate_device(&info, &plain));
    assert!(!is_degenerate_device(&info, &mds));
    assert!(!is_degenerate_device(&info, &flowing));

    info.ds_addrs = vec![vec![plain, mds]];
    sort_multipath_by_affinity(&mut info, &mds);
    assert_eq!(info.ds_addrs[0], vec![mds, plain]);

    let mut mgr = LayoutManager::new(false);
    mgr.mark_ds_unreachable(mds);
    assert!(mgr.is_ds_unreachable(&mds));
    assert!(!mgr.is_ds_unreachable(&plain));
    assert!(!mgr.is_ds_unreachable(&flowing));
}

#[test]
fn multipath_sort_keeps_v4_over_v6_mismatch() {
    let mds: SocketAddr = v4([10, 128, 61, 201], 2049);
    let v6_addr: SocketAddr = v6([0x20, 0x01, 0x0d, 0xb8, 0, 0, 0, 0, 0, 0, 0, 0, 0, 0, 0, 1], 2049);
    let v4_addr: SocketAddr = v4([172, 16, 0, 1], 2049);
    let mut info = DeviceInfo {
        stripe_indices: vec![0],
        ds_addrs: vec![vec![v6_addr, v4_addr]],
    };
    sort_multipath_by_affinity(&mut info, &mds);
    assert_eq!(info.ds_addrs[0][0], v4_addr);
}

#[test]
fn unreachable_ds_mark_and_check() {
    let mut mgr = LayoutManager::new(false);
    let addr: SocketAddr = v4([192, 168, 13, 131], 2049);
    assert!(!mgr.is_ds_unreachable(&addr));
    mgr.mark_ds_unreachable(addr);
    assert!(mgr.is_ds_unreachable(&addr));
    mgr.mark_ds_unreachable(addr);
    assert!(mgr.is_ds_unreachable(&addr));
}

#[test]
fn session_protocol_errors_do_not_poison_ds_reachability() {
    assert!(!should_negative_cache_ds_error(&NfsError::Nfs4(
        Nfs4ErrorCode::NFS4ERR_BADSESSION,
    )));
    assert!(!should_negative_cache_ds_error(&NfsError::Rpc(
        "CREATE_SESSION sequence race".to_string(),
    )));
}

#[test]
fn endpoint_connectivity_errors_are_negative_cached() {
    for kind in [
        IoErrorKind::ConnectionRefused,
        IoErrorKind::HostUnreachable,
        IoErrorKind::NetworkUnreachable,
        IoErrorKind::TimedOut,
    ] {
        assert!(should_negative_cache_ds_error(&NfsError::Io(kind)));
    }
}

#[test]
fn degenerate_log_only_once() {
    let mut mgr = LayoutManager::new(false);
    assert!(mgr.should_log_degenerate());
    assert!(!mgr.should_log_degenerate());
}

#[test]
fn dirty_range_merge() {
    let mut mgr = LayoutManager::new(false);
    let fh = Bytes::from_static(b"dirty1");
    mgr.mark_dirty(&fh, 4096, 8192);
    mgr.mark_dirty(&fh, 0, 4096);
    mgr.mark_dirty(&fh, 16384, 20480);
    assert_eq!(mgr.take_dirty(&fh), Some((0, 20480)));
}

#[test]
fn dirty_take_removes() {
    let mut mgr = LayoutManager::new(false);
    let fh = Bytes::from_static(b"dirty2");
    mgr.mark_dirty(&fh, 100, 200);
    assert_eq!(mgr.take_dirty(&fh), Some((100, 200)));
    assert_eq!(mgr.take_dirty(&fh), None);
}

#[test]
fn dirty_snapshot_survives_unacknowledged_commit() {
    let mut mgr = LayoutManager::new(false);
    let fh = Bytes::from_static(b"dirty-snapshot");
    mgr.mark_dirty(&fh, 100, 200);

    let snapshot = mgr.snapshot_dirty(&fh).expect("dirty snapshot");
    // Dropping/cancelling the would-be LAYOUTCOMMIT does not mutate state.
    assert_eq!(mgr.snapshot_dirty(&fh), Some(snapshot));
    assert_eq!(mgr.take_dirty(&fh), Some((100, 200)));
}

#[test]
fn dirty_acknowledgement_preserves_concurrent_write() {
    let mut mgr = LayoutManager::new(false);
    let fh = Bytes::from_static(b"dirty-concurrent");
    mgr.mark_dirty(&fh, 100, 200);
    let snapshot = mgr.snapshot_dirty(&fh).expect("dirty snapshot");

    mgr.mark_dirty(&fh, 300, 400);
    assert!(!mgr.acknowledge_dirty(&fh, snapshot));
    assert_eq!(mgr.take_dirty(&fh), Some((100, 400)));
}

#[test]
fn dirty_acknowledgement_clears_only_matching_snapshot() {
    let mut mgr = LayoutManager::new(false);
    let fh = Bytes::from_static(b"dirty-ack");
    mgr.mark_dirty(&fh, 0, 4096);
    let snapshot = mgr.snapshot_dirty(&fh).expect("dirty snapshot");

    assert!(mgr.acknowledge_dirty(&fh, snapshot));
    assert_eq!(mgr.snapshot_dirty(&fh), None);
}

#[test]
fn dirty_cleared_on_clear() {
    let mut mgr = LayoutManager::new(false);
    let fh = Bytes::from_static(b"dirty3");
    mgr.mark_dirty(&fh, 0, 1);
    mgr.clear();
    assert_eq!(mgr.take_dirty(&fh), None);
}

#[test]
fn transition_rejects_late_device_and_dirty_updates() {
    let mut mgr = LayoutManager::new(false);
    let fh = Bytes::from_static(b"stale-side-caches");
    let device_id = [7; 16];
    let info = DeviceInfo {
        stripe_indices: vec![0],
        ds_addrs: vec![vec![v4([192, 0, 2, 10], 2049)]],
    };

    mgr.transition_to(2);
    assert!(!mgr.store_device_at(device_id, 1, info.copy()));
    assert!(mgr.get_device(&device_id).is_none());
    assert!(!mgr.mark_dirty_at(&fh, 1, 0, 4096));
    assert_eq!(mgr.take_dirty(&fh), None);

    assert!(mgr.store_device_at(device_id, 2, info));
    assert!(mgr.get_device(&device_id).is_some());
    assert!(mgr.mark_dirty_at(&fh, 2, 0, 4096));
    assert_eq!(mgr.take_dirty(&fh), Some((0, 4096)));
}

#[test]
fn layout_manager_clear() {
    let mut mgr = LayoutManager::new(false);
    mgr.store_layout(
        &Bytes::from_static(b"a"),
        Layout {
            generation: 1,
            stateid: [0u8; 16],
            return_on_close: false,
            segments: vec![],
        },
    );
    mgr.store_layout(
        &Bytes::from_static(b"b"),
        Layout {
            generation: 1,
            stateid: [0u8; 16],
            return_on_close: false,
            segments: vec![],
        },
    );
    mgr.clear();
    assert!(mgr.get_layout(&Bytes::from_static(b"a")).is_none());
    assert!(mgr.get_layout(&Bytes::from_static(b"b")).is_none());
}

#[test]
fn decode_layoutget_empty_segments() {
    let mut buf = Vec::new();
    put_u32(&mut buf, 1); // return_on_close = true
    buf.extend_from_slice(&[5u8; 16]); // stateid
    put_u32(&mut buf, 0); // 0 segments

    let mut bytes = Bytes::from(buf);
    let layout = decode_layoutget_response(&mut bytes).unwrap();
    assert!(layout.return_on_close);
    assert_eq!(layout.stateid, [5u8; 16]);
    assert!(layout.segments.is_empty());
}

#[test]
fn decode_layoutget_one_segment_opaque() {
    let mut buf = Vec::new();
    put_u32(&mut buf, 0); // return_on_close = false
    buf.extend_from_slice(&[7u8; 16]); // stateid
    put_u32(&mut buf, 1); // 1 segment
    // segment: offset(8) + length(8) + iomode(4) + layout_type(4)
    put_u64(&mut buf, 0); // offset
    put_u64(&mut buf, 0xFFFFFFFFFFFFFFFF); // length = whole file
    put_u32(&mut buf, 2); // iomode = RW
    put_u32(&mut buf, 2); // LayoutType::Osd2Objects -> Opaque content
    // layout_content: opaque (must be padded to 4-byte boundary)
    let content = vec![0xAA, 0xBB, 0xCC, 0xDD, 0xEE, 0xFF, 0x11, 0x22];
    put_u32(&mut buf, content.len() as u32);
    buf.extend_from_slice(&content);

    let mut bytes = Bytes::from(buf);
    let layout = decode_layoutget_response(&mut bytes).unwrap();
    assert_eq!(layout.segments.len(), 1);
    assert_eq!(layout.segments[0].iomode, IoMode::ReadWrite);
    assert!(matches!(
        layout.segments[0].content,
        LayoutContent::Opaque(_)
    ));
}

#[test]
fn decode_files_layout_basic() {
    let mut buf = Vec::new();
    buf.extend_from_slice(&[0xAAu8; 16]); // device_id
    put_u32(&mut buf, 65536); // nfl_util (stripe unit)
    put_u32(&mut buf, 0); // first_stripe_index
    put_u64(&mut buf, 0); // pattern_offset
    put_u32(&mut buf, 2); // 2 file handles
    // fh1: 4 bytes
    put_u32(&mut buf, 4);
    buf.extend_from_slice(&[1, 2, 3, 4]);
    // fh2: 4 bytes
    put_u32(&mut buf, 4);
    buf.extend_from_slice(&[5, 6, 7, 8]);

    let mut bytes = Bytes::from(buf);
    let content = decode_files_layout(&mut bytes).unwrap();
    match content {
        LayoutContent::FilesLayout {
            device_id,
            stripe_unit,
            is_dense,
            first_stripe_index,
            pattern_offset,
            fh_list,
        } => {
            assert_eq!(device_id, [0xAAu8; 16]);
            assert_eq!(stripe_unit, 65536);
            assert!(!is_dense);
            assert_eq!(first_stripe_index, 0);
            assert_eq!(pattern_offset, 0);
            assert_eq!(fh_list.len(), 2);
            assert_eq!(fh_list[0].as_ref(), &[1, 2, 3, 4]);
            assert_eq!(fh_list[1].as_ref(), &[5, 6, 7, 8]);
        }
        _ => panic!("expected FilesLayout"),
    }
}

#[test]
fn decode_layoutget_truncated() {
    let buf = vec![0u8; 5]; // too short
    let mut bytes = Bytes::from(buf);
    assert!(decode_layoutget_response(&mut bytes).is_err());
}

#[test]
fn iomode_values() {
    assert_eq!(IoMode::Read.number(), 1);
    assert_eq!(IoMode::ReadWrite.number(), 2);
}

#[test]
fn layout_type_values() {
    assert_eq!(LayoutType::NfsV41Files.number(), 1);
    assert_eq!(LayoutType::Osd2Objects.number(), 2);
    assert_eq!(LayoutType::BlockVolume.number(), 3);
}

#[test]
fn decode_files_layout_dense_flag() {
    let mut buf = Vec::new();
    buf.extend_from_slice(&[0xBBu8; 16]); // device_id
    // nfl_util with dense flag (bit 30) set + stripe_unit = 4096
    let nfl_util: u32 = 0x4000_0000 | 4096;
    put_u32(&mut buf, nfl_util);
    put_u32(&mut buf, 2); // first_stripe_index
    put_u64(&mut buf, 1024); // pattern_offset
    put_u32(&mut buf, 1); // 1 file handle
    put_u32(&mut buf, 4);
    buf.extend_from_slice(&[9, 10, 11, 12]);

    let mut bytes = Bytes::from(buf);
    let content = decode_files_layout(&mut bytes).unwrap();
    match content {
        LayoutContent::FilesLayout {
            stripe_unit,
            is_dense,
            first_stripe_index,
            pattern_offset,
            ..
        } => {
            assert_eq!(stripe_unit, 4096);
            assert!(is_dense);
            assert_eq!(first_stripe_index, 2);
            assert_eq!(pattern_offset, 1024);
        }
        _ => panic!("expected FilesLayout"),
    }
}

#[test]
fn device_cache_store_and_get() {
    let mut mgr = LayoutManager::new(false);
    let dev_id = [0xCCu8; 16];
    let info = DeviceInfo {
        stripe_indices: vec![0],
        ds_addrs: vec![vec![v4([10, 0, 0, 1], 2049)]],
    };
    mgr.store_device(dev_id, info);
    let got = mgr.get_device(&dev_id);
    assert!(got.is_some());
    let got = got.unwrap();
    assert_eq!(got.ds_addrs.len(), 1);
    assert_eq!(
        got.ds_addrs[0][0],
        v4([10, 0, 0, 1], 2049)
    );
}

#[test]
fn device_cache_cleared_on_clear() {
    let mut mgr = LayoutManager::new(false);
    let dev_id = [0xDDu8; 16];
    mgr.store_device(
        dev_id,
        DeviceInfo {
            stripe_indices: vec![],
            ds_addrs: vec![],
        },
    );
    mgr.clear();
    assert!(mgr.get_device(&dev_id).is_none());
}

// --- parse_netaddr4 tests ---

#[test]
fn test_parse_netaddr4_basic() {
    // 192.168.1.1 port 2049: 2049 = 8*256 + 1
    let addr = parse_netaddr4("tcp", "192.168.1.1.8.1").unwrap();
    assert_eq!(
        addr,
        v4([192, 168, 1, 1], 2049)
    );
}

#[test]
fn test_parse_netaddr4_high_port() {
    // 10.0.0.1 port 8080: 8080 = 31*256 + 144
    let addr = parse_netaddr4("tcp", "10.0.0.1.31.144").unwrap();
    assert_eq!(
        addr,
        v4([10, 0, 0, 1], 8080)
    );
}

#[test]
fn test_parse_netaddr4_tcp6() {
    // Full IPv6 address: 2001:db8::1, port 2049 (8*256+1)
    let addr = parse_netaddr4("tcp6", "2001:db8::1.8.1").unwrap();
    assert_eq!(addr.port, 2049);
    assert_eq!(
        addr.ip,
        IpAddr::V6([0x20, 0x01, 0x0d, 0xb8, 0, 0, 0, 0, 0, 0, 0, 0, 0, 0, 0, 1])
    );
}

#[test]
fn test_parse_netaddr4_unsupported_netid() {
    assert!(parse_netaddr4("udp", "10.0.0.1.8.1").is_err());
}

#[test]
fn test_parse_netaddr4_invalid_addr() {
    assert!(parse_netaddr4("tcp", "10.0.0.1.8").is_err()); // only 5 parts
    assert!(parse_netaddr4("tcp", "10.0.0.1.8.1.2").is_err()); // 7 parts
    assert!(parse_netaddr4("tcp", "999.0.0.1.8.1").is_err()); // octet > 255
}

#[test]
fn parse_netaddr4_ipv4() {
    let addr = parse_netaddr4("tcp", "192.168.1.1.8.1").unwrap();
    assert_eq!(addr.port, 8 * 256 + 1); // = 2049
    assert_eq!(addr.ip, IpAddr::V4([192, 168, 1, 1]));
}

#[test]
fn parse_netaddr4_ipv6_loopback() {
    // "::1.8.1" = IPv6 loopback (::1), port = 8*256+1 = 2049
    let addr = parse_netaddr4("tcp6", "::1.8.1").unwrap();
    assert_eq!(addr.port, 2049);
    assert_eq!(addr.ip, IpAddr::V6([0, 0, 0, 0, 0, 0, 0, 0, 0, 0, 0, 0, 0, 0, 0, 1]));
}

#[test]
fn parse_netaddr4_invalid_netid() {
    assert!(parse_netaddr4("udp", "1.2.3.4.0.1").is_err());
}

#[test]
fn parse_netaddr4_ipv4_invalid() {
    assert!(parse_netaddr4("tcp", "999.1.1.1.0.1").is_err()); // 999 not a valid u8
}

// --- stripe_ds_index tests ---

#[test]
fn test_stripe_ds_index_basic() {
    // 4 DSes, stripe_unit=4096, first_stripe_index=0
    assert_eq!(stripe_ds_index(0, 4096, 0, 4), 0);
    assert_eq!(stripe_ds_index(4096, 4096, 0, 4), 1);
    assert_eq!(stripe_ds_index(8192, 4096, 0, 4), 2);
    assert_eq!(stripe_ds_index(16384, 4096, 0, 4), 0);
}

#[test]
fn test_stripe_ds_index_with_first_stripe_offset() {
    // first_stripe_index=2, 4 DSes
    assert_eq!(stripe_ds_index(0, 4096, 2, 4), 2);
    assert_eq!(stripe_ds_index(4096, 4096, 2, 4), 3);
    assert_eq!(stripe_ds_index(8192, 4096, 2, 4), 0);
}

// --- ds_offset tests ---

#[test]
fn test_ds_offset_dense() {
    // Dense: DS holds every num_ds-th stripe, compacted without gaps.
    // 4 DSes, stripe_unit=4096:
    assert_eq!(ds_offset(0, 4096, 0, 4, true), 0);
    assert_eq!(ds_offset(12345, 4096, 0, 4, true), 57);
    assert_eq!(ds_offset(16384, 4096, 0, 4, true), 4096);
}

#[test]
fn test_ds_offset_sparse() {
    // Sparse layout: DS offset == file_offset (DS preserves original file positions).
    assert_eq!(ds_offset(0, 4096, 0, 4, false), 0);
    assert_eq!(ds_offset(4096, 4096, 0, 4, false), 4096);
    assert_eq!(ds_offset(8192, 4096, 0, 4, false), 8192);
    assert_eq!(ds_offset(16484, 4096, 0, 4, false), 16484);
}

// --- split_into_stripes tests ---

#[test]
fn test_split_into_stripes_single_stripe() {
    // Entire range within one stripe
    let chunks = split_into_stripes(0, 1000, 4096, false, 0, 4, 0);
    assert_eq!(chunks.len(), 1);
    assert_eq!(chunks[0].ds_index, 0);
    assert_eq!(chunks[0].file_offset, 0);
    assert_eq!(chunks[0].length, 1000);
}

#[test]
fn test_split_into_stripes_crosses_boundary() {
    // Range 3000..5000 crosses the 4096 boundary
    let chunks = split_into_stripes(3000, 2000, 4096, false, 0, 4, 0);
    assert_eq!(chunks.len(), 2);
    // First chunk: 3000..4096 (1096 bytes) on DS 0
    assert_eq!(chunks[0].ds_index, 0);
    assert_eq!(chunks[0].file_offset, 3000);
    assert_eq!(chunks[0].length, 1096);
    // Second chunk: 4096..5000 (904 bytes) on DS 1
    assert_eq!(chunks[1].ds_index, 1);
    assert_eq!(chunks[1].file_offset, 4096);
    assert_eq!(chunks[1].length, 904);
}

#[test]
fn test_split_into_stripes_multiple() {
    // 3 full stripes: 0..12288 with stripe_unit=4096, 4 DSes
    let chunks = split_into_stripes(0, 12288, 4096, false, 0, 4, 0);
    assert_eq!(chunks.len(), 3);
    assert_eq!(chunks[0].ds_index, 0);
    assert_eq!(chunks[1].ds_index, 1);
    assert_eq!(chunks[2].ds_index, 2);
    for c in &chunks {
        assert_eq!(c.length, 4096);
    }
}

// --- decode_getdeviceinfo_response tests ---

/// Helper to write an XDR string into a buffer.
fn put_xdr_string(buf: &mut Vec<u8>, s: &str) {
    let bytes = s.as_bytes();
    put_u32(buf, bytes.len() as u32);
    buf.extend_from_slice(bytes);
    // XDR padding to 4-byte boundary
    let pad = (4 - (bytes.len() % 4)) % 4;
    for _ in 0..pad {
        buf.push(0);
    }
}

#[test]
fn test_decode_getdeviceinfo_single_ds() {
    // Build da_addr_body first
    let mut body = Vec::new();
    // stripe_indices: 1 index (value 0)
    put_u32(&mut body, 1);
    put_u32(&mut body, 0);
    // multipath_ds_list: 1 DS
    put_u32(&mut body, 1);
    // DS 0: 1 address
    put_u32(&mut body, 1);
    put_xdr_string(&mut body, "tcp");
    put_xdr_string(&mut body, "192.168.1.1.8.1"); // port 2049

    // Build outer: layout_type + opaque body
    let mut buf = Vec::new();
    put_u32(&mut buf, 1); // LAYOUT4_NFSV4_1_FILES
    put_u32(&mut buf, body.len() as u32);
    buf.extend_from_slice(&body);
    // Pad if needed
    let pad = (4 - (body.len() % 4)) % 4;
    buf.extend(vec![0u8; pad]);

    let mut bytes = Bytes::from(buf);
    let info = decode_getdeviceinfo_response(&mut bytes).unwrap();
    assert_eq!(info.ds_addrs.len(), 1);
    assert_eq!(info.ds_addrs[0].len(), 1);
    assert_eq!(
        info.ds_addrs[0][0],
        v4([192, 168, 1, 1], 2049)
    );
}

#[test]
fn test_decode_getdeviceinfo_multiple_ds() {
    let mut body = Vec::new();
    // stripe_indices: 2 indices
    put_u32(&mut body, 2);
    put_u32(&mut body, 0);
    put_u32(&mut body, 1);
    // multipath_ds_list: 2 DSes
    put_u32(&mut body, 2);
    // DS 0: 1 address
    put_u32(&mut body, 1);
    put_xdr_string(&mut body, "tcp");
    put_xdr_string(&mut body, "10.0.0.1.8.1"); // 10.0.0.1:2049
    // DS 1: 2 addresses (multipath)
    put_u32(&mut body, 2);
    put_xdr_string(&mut body, "tcp");
    put_xdr_string(&mut body, "10.0.0.2.8.1"); // 10.0.0.2:2049
    put_xdr_string(&mut body, "tcp");
    put_xdr_string(&mut body, "10.0.0.3.8.1"); // 10.0.0.3:2049

    let mut buf = Vec::new();
    put_u32(&mut buf, 1);
    put_u32(&mut buf, body.len() as u32);
    buf.extend_from_slice(&body);
    let pad = (4 - (body.len() % 4)) % 4;
    buf.extend(vec![0u8; pad]);

    let mut bytes = Bytes::from(buf);
    let info = decode_getdeviceinfo_response(&mut bytes).unwrap();
    assert_eq!(info.ds_addrs.len(), 2);
    assert_eq!(info.ds_addrs[0].len(), 1);
    assert_eq!(info.ds_addrs[1].len(), 2);
    assert_eq!(
        info.ds_addrs[1][0],
        v4([10, 0, 0, 2], 2049)
    );
    assert_eq!(
        info.ds_addrs[1][1],
        v4([10, 0, 0, 3], 2049)
    );
}

#[test]
fn test_decode_getdeviceinfo_unsupported_layout_type() {
    let mut buf = Vec::new();
    put_u32(&mut buf, 2); // OSD layout type
    put_u32(&mut buf, 0); // empty body

    let mut bytes = Bytes::from(buf);
    assert!(decode_getdeviceinfo_response(&mut bytes).is_err());
}

#[test]
fn test_decode_getdeviceinfo_truncated() {
    let buf = vec![0u8; 2]; // too short
    let mut bytes = Bytes::from(buf);
    assert!(decode_getdeviceinfo_response(&mut bytes).is_err());
}

#[test]
fn ds_offset_dense_multi_ds() {
    // 3 DSs, stripe_unit=4096
    assert_eq!(ds_offset(0, 4096, 0, 3, true), 0);
    assert_eq!(ds_offset(4096, 4096, 0, 3, true), 0);
    assert_eq!(ds_offset(8192, 4096, 0, 3, true), 0);
    assert_eq!(ds_offset(12288, 4096, 0, 3, true), 4096);
    assert_eq!(ds_offset(4097, 4096, 0, 3, true), 1);
}

#[test]
fn split_into_stripes_pattern_offset_zero() {
    // pattern_offset=0, 2 DSs
    let chunks = split_into_stripes(0, 8192, 4096, false, 0, 2, 0);
    assert_eq!(chunks.len(), 2);
    assert_eq!(chunks[0].ds_index, 0);
    assert_eq!(chunks[1].ds_index, 1);
}

#[test]
fn split_into_stripes_pattern_offset_nonzero() {
    // pattern_offset=4096: stripe pattern starts at byte 4096
    // Range [4096, 8192): adjusted offset = 0, so DS0, ds_offset=0
    let chunks = split_into_stripes(4096, 4096, 4096, false, 0, 2, 4096);
    assert_eq!(chunks.len(), 1);
    assert_eq!(chunks[0].ds_index, 0);
    assert_eq!(chunks[0].ds_offset, 0);
}

#[test]
fn stripes_are_cut_where_units_of_the_pattern_end() {
    // The pattern starts at byte 1024, so its second unit starts at byte 5120.
    let chunks = split_into_stripes(4096, 4096, 4096, false, 0, 2, 1024);
    assert_eq!(chunks.len(), 2);
    assert_eq!((chunks[0].ds_index, chunks[0].file_offset), (0, 4096));
    assert_eq!((chunks[0].ds_offset, chunks[0].length), (3072, 1024));
    assert_eq!((chunks[1].ds_index, chunks[1].file_offset), (1, 5120));
    assert_eq!((chunks[1].ds_offset, chunks[1].length), (4096, 3072));

    // Dense: the third unit, from byte 9216, is the second one of the first server.
    let chunks = split_into_stripes(9000, 1000, 4096, true, 0, 2, 1024);
    assert_eq!(chunks.len(), 2);
    assert_eq!((chunks[0].ds_index, chunks[0].ds_offset, chunks[0].length), (1, 3880, 216));
    assert_eq!((chunks[1].ds_index, chunks[1].ds_offset, chunks[1].length), (0, 4096, 784));
}

#[test]
fn no_stripe_crosses_the_start_of_the_pattern() {
    let chunks = split_into_stripes(0, 8192, 4096, false, 0, 2, 5000);
    let cuts: Vec<(u64, u32)> = chunks
        .iter()
        .map(|chunk| (chunk.file_offset, chunk.length))
        .collect();
    assert_eq!(cuts, vec![(0, 4096), (4096, 904), (5000, 3192)]);
    assert!(chunks.iter().all(|chunk| chunk.ds_index == 0 && chunk.ds_offset == 0));
    // The last offsets that there are can be cut, too.
    let chunks = split_into_stripes(u64::MAX - 10, 10, 4096, false, 0, 2, 0);
    assert_eq!(chunks.len(), 1);
    assert_eq!(chunks[0].length, 10);
}

#[test]
fn layout_refresh_crossing_is_recorded_once_per_window() {
    let mut manager = LayoutManager::new(true);
    let fh = Bytes::from_static(b"large-file");

    assert!(
        !manager
            .layout_refresh_due(&fh, PNFS_LAYOUT_REFRESH_INTERVAL - 1)
    );
    assert!(
        manager
            .layout_refresh_due(&fh, PNFS_LAYOUT_REFRESH_INTERVAL)
    );
    manager
        .record_layout_refresh(&fh, PNFS_LAYOUT_REFRESH_INTERVAL);
    assert!(
        !manager
            .layout_refresh_due(&fh, PNFS_LAYOUT_REFRESH_INTERVAL + 1)
    );
    assert!(
        manager
            .layout_refresh_due(&fh, PNFS_LAYOUT_REFRESH_INTERVAL * 2)
    );
}

#[test]
fn layout_refresh_offsets_are_independent_per_file() {
    let mut manager = LayoutManager::new(true);
    let first = Bytes::from_static(b"first");
    let second = Bytes::from_static(b"second");
    manager
        .record_layout_refresh(&first, PNFS_LAYOUT_REFRESH_INTERVAL);

    assert!(
        !manager
            .layout_refresh_due(&first, PNFS_LAYOUT_REFRESH_INTERVAL + 1)
    );
    assert!(
        manager
            .layout_refresh_due(&second, PNFS_LAYOUT_REFRESH_INTERVAL + 1)
    );
}

#[test]
fn removing_layout_resets_its_refresh_lifecycle() {
    let mut manager = LayoutManager::new(true);
    let fh = Bytes::from_static(b"reopened-file");
    let layout = Layout {
        generation: manager.generation(),
        stateid: [9; 16],
        return_on_close: false,
        segments: vec![],
    };
    manager.store_layout(&fh, layout);
    manager
        .record_layout_refresh(&fh, PNFS_LAYOUT_REFRESH_INTERVAL);
    assert!(
        !manager
            .layout_refresh_due(&fh, PNFS_LAYOUT_REFRESH_INTERVAL + 1)
    );

    manager.remove_layout(&fh);

    assert!(
        manager
            .layout_refresh_due(&fh, PNFS_LAYOUT_REFRESH_INTERVAL + 1)
    );
}

#[test]
fn cached_layout_is_returned_only_for_a_covered_offset() {
    let mut manager = LayoutManager::new(true);
    let fh = Bytes::from_static(b"multipart-file");
    manager
        .store_layout(
            &fh,
            Layout {
                generation: manager.generation(),
                stateid: [7; 16],
                return_on_close: false,
                segments: vec![LayoutSegment {
                    offset: 1024,
                    length: 2048,
                    iomode: IoMode::ReadWrite,
                    layout_type: LayoutType::NfsV41Files,
                    content: LayoutContent::Opaque(Bytes::new()),
                }],
            },
        );

    assert!(manager.get_layout_covering(&fh, 1024).is_some());
    assert!(manager.get_layout_covering(&fh, 3071).is_some());
    assert!(manager.get_layout_covering(&fh, 3072).is_none());
}

#[test]
fn layout_update_replaces_overlapping_segment_and_keeps_other_ranges() {
    let mut manager = LayoutManager::new(true);
    let fh = Bytes::from_static(b"growing-multipart-file");
    let segment = |offset, length, marker| LayoutSegment {
        offset,
        length,
        iomode: IoMode::ReadWrite,
        layout_type: LayoutType::NfsV41Files,
        content: LayoutContent::Opaque(Bytes::from(vec![marker])),
    };
    manager
        .store_layout(
            &fh,
            Layout {
                generation: manager.generation(),
                stateid: [1; 16],
                return_on_close: false,
                segments: vec![segment(0, 1024, 1), segment(2048, 1024, 2)],
            },
        );

    manager
        .merge_layout(
            &fh,
            Layout {
                generation: manager.generation(),
                stateid: [3; 16],
                return_on_close: true,
                segments: vec![segment(512, 2048, 3)],
            },
        );

    let merged = manager.get_layout(&fh).unwrap();
    assert_eq!(merged.stateid, [3; 16]);
    assert!(merged.return_on_close);
    assert_eq!(merged.segments.len(), 1);
    assert_eq!(merged.segments[0].offset, 512);
    assert_eq!(merged.segments[0].length, 2048);
}
