use itm_monitor::filter::{accepts, PacketKind};

#[test]
fn channel_must_match() {
    let k = PacketKind::Instrumentation { channel: 3, payload: b"x".to_vec() };
    assert!(accepts(&k, 3));
    assert!(!accepts(&k, 0));
    assert!(!accepts(&k, 255));
}

#[test]
fn other_packets_never_pass() {
    for c in 0..=255u8 {
        assert!(!accepts(&PacketKind::Other, c));
    }
}
