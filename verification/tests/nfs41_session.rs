//! Callback sessions, layouts and data servers of NFSv4.1.

use bytes::Bytes;
use nfs_rs::error::{IoErrorKind, NfsError};
use nfs_rs::net::{IpAddr, SocketAddr};
use nfs_rs::nfs41::callback::CallbackState;
use nfs_rs::nfs41::layout::manager::{
    ConnectOutcome, DataServerError, DataServerStep, LayoutManager,
};
use nfs_rs::nfs41::layout::Layout;
use nfs_rs::nfs41::lease::{after_renewal, renewal_request, LeaseHealth, RenewalOutcome};
use nfs_rs::nfs41::Nfs4ErrorCode;

fn addr(last: u8) -> SocketAddr {
    SocketAddr::new(IpAddr::V4([10, 0, 0, last]), 2049)
}

fn layout(byte: u8) -> Layout {
    Layout {
        generation: 1,
        stateid: [byte; 16],
        return_on_close: false,
        segments: vec![],
    }
}

#[test]
fn layout_recalls_and_returns_are_counted() {
    let mut state = CallbackState::new([1; 16], 1, 1);
    state.record_layout_recall();
    state.record_layout_recall();
    state.record_layout_return();
    assert_eq!(state.layout_recall_stats(), (2, 1));
}

#[test]
fn older_session_is_refused() {
    let mut state = CallbackState::new([1; 16], 5, 4);
    let error = state.update_session([2; 16], 4, 1, 4096, 8).unwrap_err();
    assert_eq!(
        error.to_string(),
        "RPC error: refusing stale callback session publication"
    );
    assert_eq!(state.session.session_id, [1; 16]);
    state.update_session([2; 16], 6, 3, 4096, 8).unwrap();
    assert_eq!(state.session.session_id, [2; 16]);
    assert_eq!(state.session.generation, 6);
    assert_eq!(state.session.slots.len(), 3);
}

#[test]
fn all_layouts_of_the_generation_are_listed() {
    let mut manager = LayoutManager::new(true);
    manager.store_layout(&Bytes::from_static(b"a"), layout(1));
    manager.store_layout(&Bytes::from_static(b"b"), layout(2));
    let mut all: Vec<(Bytes, [u8; 16])> = manager
        .all_layouts()
        .into_iter()
        .map(|(fh, layout)| (fh, layout.stateid))
        .collect();
    all.sort();
    assert_eq!(
        all,
        [
            (Bytes::from_static(b"a"), [1; 16]),
            (Bytes::from_static(b"b"), [2; 16])
        ]
    );
}

#[test]
fn invalidated_range_is_clean() {
    let mut manager = LayoutManager::new(true);
    let fh = Bytes::from_static(b"a");
    manager.mark_dirty(&fh, 0, 10);
    manager.invalidate_dirty(&fh);
    assert!(manager.snapshot_dirty(&fh).is_none());
}

#[test]
fn data_server_is_connected_once_and_found_again() {
    let mut manager = LayoutManager::new(true);
    assert_eq!(manager.find_data_server(&addr(1), 1).unwrap(), None);
    assert_eq!(
        manager.begin_data_server(addr(1), 1).unwrap(),
        DataServerStep::Connect
    );
    let connected = manager.finish_data_server(addr(1), 1, ConnectOutcome::Connected(40));
    assert_eq!(connected.unwrap(), 40);
    assert_eq!(manager.find_data_server(&addr(1), 1).unwrap(), Some(40));
    assert_eq!(
        manager.begin_data_server(addr(1), 1).unwrap(),
        DataServerStep::Use(40)
    );
    let connected = manager.finish_data_server(addr(2), 1, ConnectOutcome::Connected(41));
    assert_eq!(connected.unwrap(), 41);
    assert_eq!(manager.remove_data_server(addr(1)), Some(40));
    assert_eq!(manager.remove_data_server(addr(1)), None);
    assert_eq!(manager.drain_data_servers(), [(addr(2), 41)]);
    assert!(manager.drain_data_servers().is_empty());
}

#[test]
fn data_server_of_another_generation_is_fenced() {
    let mut manager = LayoutManager::new(true);
    assert!(matches!(
        manager.find_data_server(&addr(1), 2),
        Err(NfsError::Rpc(_))
    ));
    assert!(matches!(
        manager.begin_data_server(addr(1), 2),
        Err(DataServerError::Nfs(NfsError::Rpc(_)))
    ));
    assert!(matches!(
        manager.finish_data_server(addr(1), 2, ConnectOutcome::Connected(1)),
        Err(DataServerError::Nfs(NfsError::Rpc(_)))
    ));
    assert!(manager.drain_data_servers().is_empty());
}

#[test]
fn unreachable_data_server_is_not_tried_again() {
    let mut manager = LayoutManager::new(true);
    assert!(matches!(
        manager.finish_data_server(addr(1), 1, ConnectOutcome::TimedOut),
        Err(DataServerError::TimedOut(_))
    ));
    assert!(matches!(
        manager.begin_data_server(addr(1), 1),
        Err(DataServerError::Unreachable(_))
    ));
    let refused = ConnectOutcome::Failed(NfsError::Io(IoErrorKind::ConnectionRefused));
    assert!(matches!(
        manager.finish_data_server(addr(2), 1, refused),
        Err(DataServerError::Nfs(NfsError::Io(_)))
    ));
    assert!(manager.is_ds_unreachable(&addr(2)));
    let session = ConnectOutcome::Failed(NfsError::Nfs4(Nfs4ErrorCode::NFS4ERR_BADSESSION));
    assert!(manager.finish_data_server(addr(3), 1, session).is_err());
    assert!(!manager.is_ds_unreachable(&addr(3)));
}

#[test]
fn renewal_decides_over_its_slot() {
    assert_eq!(
        after_renewal(&Ok(0)),
        RenewalOutcome {
            health: LeaseHealth::Healthy,
            advance: true,
            resolve: true,
        }
    );
    assert_eq!(
        after_renewal(&Err(NfsError::Nfs4(Nfs4ErrorCode::NFS4ERR_BADSESSION))),
        RenewalOutcome {
            health: LeaseHealth::SessionFailure,
            advance: false,
            resolve: true,
        }
    );
    assert_eq!(
        after_renewal(&Err(NfsError::Io(IoErrorKind::TimedOut))),
        RenewalOutcome {
            health: LeaseHealth::TransportFailure,
            advance: false,
            resolve: false,
        }
    );
    let mut call = Vec::new();
    renewal_request(&[3; 16], 5, 1, 7).encode_body(&mut call);
    let mut expected = vec![0, 0, 0, 5];
    expected.extend_from_slice(b"renew\0\0\0");
    expected.extend_from_slice(&[0, 0, 0, 1, 0, 0, 0, 1, 0, 0, 0, 53]);
    expected.extend_from_slice(&[3; 16]);
    for value in [5u32, 1, 7, 0] {
        expected.extend_from_slice(&value.to_be_bytes());
    }
    assert_eq!(call, expected);
}

#[test]
fn lease_health_is_kept_as_a_number() {
    for number in 0..5 {
        assert_eq!(LeaseHealth::load(number).number(), number);
    }
    assert_eq!(LeaseHealth::load(9), LeaseHealth::SessionFailure);
}
