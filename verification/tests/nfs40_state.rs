//! Open files and byte-range locks held by a client.

use bytes::Bytes;
use nfs_rs::nfs40::mount::{OPEN_READ, OPEN_WRITE};
use nfs_rs::nfs40::state::{decode_owner, encode_owner, OpenState, OwnerLane};

#[test]
fn same_file_keeps_independent_owner_lanes() {
    let mut state = OpenState::new();
    for owner in [11, 12] {
        state.register(OwnerLane {
            owner,
            next_seqid: 1,
            stateid: [owner as u8; 16],
            fh: Bytes::from_static(b"fh"),
            access: if owner == 11 { OPEN_READ } else { OPEN_WRITE },
            write_verifier: None,
        });
    }
    assert_eq!(state.by_owner(11).unwrap().stateid, [11; 16]);
    assert_eq!(
        state.for_fh(&Bytes::from_static(b"fh"), OPEN_WRITE).unwrap(),
        12
    );
    state.remove(12, &Bytes::from_static(b"fh"));
    assert_eq!(
        state.for_fh(&Bytes::from_static(b"fh"), OPEN_READ).unwrap(),
        11
    );
}

#[test]
fn opaque_public_state_only_identifies_the_owner() {
    let encoded = encode_owner(9, 0x0102_0304_0506_0708);
    assert_eq!(decode_owner(&encoded), Some((9, 0x0102_0304_0506_0708)));
    assert_eq!(decode_owner(&Bytes::from_static(b"bad")), None);
}
