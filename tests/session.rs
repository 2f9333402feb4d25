use itm_monitor::filter::PacketKind;
use itm_monitor::reassembly::LineState;
use itm_monitor::session::{Action, Decoded, Event, Phase, Readiness, Session, SessionError};

fn text(channel: u8, s: &str) -> Event {
    Event::Decoded(Decoded::Packet(PacketKind::Instrumentation {
        channel,
        payload: s.as_bytes().to_vec(),
    }))
}

fn readable() -> Event {
    Event::Ready(Readiness { readable: true, hangup: false, error: false })
}

#[test]
fn new_session_waits() {
    let s = Session::new(4);
    assert_eq!(s.channel, 4);
    assert_eq!(s.line, LineState::LineStartPending);
    assert_eq!(s.phase, Phase::WaitingForEvents);
}

#[test]
fn readable_event_drains_every_packet() {
    let mut s = Session::new(0);
    let r = s.step_at(&readable(), b"T");
    assert_eq!(r.action, Action::ReadPacket);
    assert_eq!(s.phase, Phase::DrainingTransport);
    let mut out = Vec::new();
    for (i, p) in ["ab", "c\n", "d"].iter().enumerate() {
        let r = s.step_at(&text(0, p), format!("T{}", i).as_bytes());
        assert_eq!(r.action, Action::ReadPacket);
        out.extend(r.output);
    }
    assert_eq!(out, b"T0 abc\nT2 d".to_vec());
    let r = s.step_at(&Event::Decoded(Decoded::NoData), b"T");
    assert_eq!(r.action, Action::WaitForEvents);
    assert!(r.output.is_empty());
    assert_eq!(s.phase, Phase::WaitingForEvents);
}

#[test]
fn closed_transport_ends_even_when_readable() {
    let mut s = Session::new(0);
    let ev = Event::Ready(Readiness { readable: true, hangup: true, error: false });
    let r = s.step_at(&ev, b"T");
    assert_eq!(r.action, Action::Stop(SessionError::TransportClosed));
    assert_eq!(s.phase, Phase::Terminated);
    let r = s.step_at(&text(0, "late\n"), b"T");
    assert_eq!(r.action, Action::Stop(SessionError::TransportClosed));
    assert!(r.output.is_empty());
    assert_eq!(s.line, LineState::LineStartPending);
}

#[test]
fn transport_error_ends_session() {
    let mut s = Session::new(0);
    let ev = Event::Ready(Readiness { readable: false, hangup: false, error: true });
    assert_eq!(s.step_at(&ev, b"T").action, Action::Stop(SessionError::TransportClosed));
}

#[test]
fn unreadable_event_waits_again() {
    let mut s = Session::new(0);
    let ev = Event::Ready(Readiness { readable: false, hangup: false, error: false });
    assert_eq!(s.step_at(&ev, b"T").action, Action::WaitForEvents);
    assert_eq!(s.phase, Phase::WaitingForEvents);
}

#[test]
fn decode_error_between_packets_is_skipped() {
    let mut s = Session::new(1);
    s.step_at(&readable(), b"T");
    let a = s.step_at(&text(1, "x"), b"T");
    let m = s.step_at(&Event::Decoded(Decoded::Malformed), b"T");
    let b = s.step_at(&text(1, "y\n"), b"T");
    assert_eq!(a.action, Action::ReadPacket);
    assert_eq!(m.action, Action::ReadPacket);
    assert!(m.output.is_empty());
    assert_eq!(b.action, Action::ReadPacket);
    assert_eq!(a.output, b"T x".to_vec());
    assert_eq!(b.output, b"y\n".to_vec());
}

#[test]
fn other_channels_and_kinds_are_dropped() {
    let mut s = Session::new(2);
    let r = s.step_at(&text(3, "no\n"), b"T");
    assert_eq!(r.action, Action::ReadPacket);
    assert!(r.output.is_empty());
    let r = s.step_at(&Event::Decoded(Decoded::Packet(PacketKind::Other)), b"T");
    assert!(r.output.is_empty());
    assert_eq!(s.line, LineState::LineStartPending);
    let r = s.step_at(&text(2, "yes\n"), b"T");
    assert_eq!(r.output, b"T yes\n".to_vec());
}

#[test]
fn dispatch_feeds_only_accepted() {
    let mut s = Session::new(5);
    let k = PacketKind::Instrumentation { channel: 5, payload: b"hi".to_vec() };
    assert_eq!(s.dispatch(&k, b"S"), b"S hi".to_vec());
    assert_eq!(s.line, LineState::LineOpen);
    assert!(s.dispatch(&PacketKind::Other, b"S").is_empty());
}

#[test]
fn step_stamps_with_local_time() {
    let mut s = Session::new(0);
    s.step(&readable());
    let r = s.step(&text(0, "hi\n"));
    assert_eq!(r.action, Action::ReadPacket);
    let out = r.output;
    assert_eq!(out.len(), 23 + 1 + 3);
    assert!(out.ends_with(b" hi\n"));
    for (i, b) in out[..23].iter().enumerate() {
        match i {
            4 | 7 => assert_eq!(*b, b'-'),
            10 => assert_eq!(*b, b' '),
            13 | 16 => assert_eq!(*b, b':'),
            19 => assert_eq!(*b, b'.'),
            _ => assert!(b.is_ascii_digit()),
        }
    }
}
