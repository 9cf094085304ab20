//! Delegations of NFSv4.1.

use bytes::Bytes;
use nfs_rs::nfs41::callback::RecallNotification;
use nfs_rs::nfs41::delegation::DelegationManager;

#[test]
fn register_and_get_delegation() {
    let mut mgr = DelegationManager::new();
    let fh = Bytes::from_static(b"testfh");
    let sid = [1u8; 16];

    assert!(mgr.get(&fh).is_none());

    mgr.register(&fh, sid);
    let deleg = mgr.get(&fh).unwrap();
    assert_eq!(deleg.stateid, sid);
}

#[test]
fn remove_delegation() {
    let mut mgr = DelegationManager::new();
    let fh = Bytes::from_static(b"testfh");
    mgr.register(&fh, [2u8; 16]);

    let removed = mgr.remove(&fh);
    assert!(removed.is_some());
    assert!(mgr.get(&fh).is_none());
}

#[test]
fn handle_recall_by_stateid() {
    let mut mgr = DelegationManager::new();
    let fh = Bytes::from_static(b"myfile");
    let sid = [3u8; 16];
    mgr.register(&fh, sid);

    let recall = RecallNotification::Delegation {
        stateid: sid,
        truncate: false,
        fh: fh.clone(),
    };
    let deleg = mgr.handle_recall(&recall);
    assert!(deleg.is_some());
    assert_eq!(deleg.unwrap().stateid, sid);
    // Should be removed after recall
    assert!(mgr.get(&fh).is_none());
}

#[test]
fn handle_recall_unknown_stateid() {
    let mut mgr = DelegationManager::new();
    let recall = RecallNotification::Delegation {
        stateid: [99u8; 16],
        truncate: false,
        fh: Bytes::from_static(b"nope"),
    };
    assert!(mgr.handle_recall(&recall).is_none());
}

#[test]
fn return_all_delegations() {
    let mut mgr = DelegationManager::new();
    mgr.register(&Bytes::from_static(b"f1"), [1u8; 16]);
    mgr.register(&Bytes::from_static(b"f2"), [2u8; 16]);

    let all = mgr.return_all();
    assert_eq!(all.len(), 2);
    // All cleared
    assert!(mgr.get(&Bytes::from_static(b"f1")).is_none());
    assert!(mgr.get(&Bytes::from_static(b"f2")).is_none());
}

#[test]
fn multiple_delegations_independent() {
    let mut mgr = DelegationManager::new();
    let fh1 = Bytes::from_static(b"file1");
    let fh2 = Bytes::from_static(b"file2");
    mgr.register(&fh1, [10u8; 16]);
    mgr.register(&fh2, [20u8; 16]);

    mgr.remove(&fh1);
    assert!(mgr.get(&fh1).is_none());
    assert!(mgr.get(&fh2).is_some()); // fh2 unaffected
}

#[test]
fn find_fh_by_stateid_prefix_found() {
    let mut mgr = DelegationManager::new();
    let fh = Bytes::from_static(b"myfile");
    let mut sid = [0u8; 16];
    sid[0] = 0xAB; sid[1] = 0xCD; sid[2] = 0xEF;
    mgr.register(&fh, sid);

    let prefix: [u8; 8] = sid[..8].try_into().unwrap();
    let result = mgr.find_fh_by_stateid_prefix(prefix);
    assert!(result.is_some());
    let (found_fh, found_sid) = result.unwrap();
    assert_eq!(found_fh, fh);
    assert_eq!(found_sid, sid);
}

#[test]
fn find_fh_by_stateid_prefix_not_found() {
    let mut mgr = DelegationManager::new();
    let result = mgr.find_fh_by_stateid_prefix([0xFF; 8]);
    assert!(result.is_none());
}
