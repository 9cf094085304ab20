//! Lease renewal and the lifecycle of a mount.

use nfs_rs::nfs40::lease::{random_renewal_delay, renewal_delay};
use nfs_rs::time::Duration;

#[test]
fn renewal_jitter_stays_within_the_conservative_window() {
    let interval = Duration::from_secs(30);
    assert_eq!(renewal_delay(interval, 0), Duration::from_secs(27));
    assert_eq!(renewal_delay(interval, 200), Duration::from_secs(33));
    for sample in 0..=u16::MAX {
        let delay = renewal_delay(interval, sample);
        assert!(delay >= Duration::from_secs(27));
        assert!(delay <= Duration::from_secs(33));
    }
}

#[test]
fn random_delays_stay_within_the_window_and_differ() {
    let interval = Duration::from_secs(30);
    let delays: Vec<Duration> = (0..64).map(|_| random_renewal_delay(interval)).collect();
    assert!(delays.iter().all(|delay| *delay >= Duration::from_secs(27)));
    assert!(delays.iter().all(|delay| *delay <= Duration::from_secs(33)));
    assert!(delays.iter().any(|delay| *delay != delays[0]));
}
