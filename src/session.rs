use vstd::prelude::*;
use crate::filter::{PacketKind, accepts, passes};
use crate::reassembly::{LineState, feed_output, pending_after};

verus! {

/// The format of the timestamp that opens each line: `YYYY-MM-DD HH:MM:SS.mmm`.
pub const TIMESTAMP_FORMAT: &'static str = "%Y-%m-%d %H:%M:%S%.3f";

/// A readiness notification for the transport.
#[derive(Clone, Copy, Debug, PartialEq, Eq, Structural)]
pub struct Readiness {
    pub readable: bool,
    /// The peer hung up; always false where the platform cannot tell.
    pub hangup: bool,
    /// The transport reported an error; always false where the platform cannot tell.
    pub error: bool,
}

impl Readiness {
    pub open spec fn closes(self) -> bool {
        self.hangup || self.error
    }
}

/// What one call of the decoder's next-packet operation gave.
pub enum Decoded {
    Packet(PacketKind),
    /// No further packet can be read now.
    NoData,
    /// The bytes could not be decoded as a packet.
    Malformed,
}

/// An input of the acquisition loop.
pub enum Event {
    Ready(Readiness),
    Decoded(Decoded),
}

/// Where the acquisition loop stands.
#[derive(Clone, Copy, Debug, PartialEq, Eq, Structural)]
pub enum Phase {
    WaitingForEvents,
    DrainingTransport,
    /// The transport closed; the session is over.
    Terminated,
}

/// Why a session ended.
#[derive(Clone, Copy, Debug, PartialEq, Eq, Structural)]
pub enum SessionError {
    TransportClosed,
}

/// What the loop does next.
#[derive(Clone, Copy, Debug, PartialEq, Eq, Structural)]
pub enum Action {
    /// Block on the polling primitive (or take the next event of the batch).
    WaitForEvents,
    /// Call the decoder's next-packet operation once more.
    ReadPacket,
    /// End the session with this error.
    Stop(SessionError),
}

/// One session of the collector: the configured channel, the line state and
/// the phase of the acquisition loop.
pub struct Session {
    pub channel: u8,
    pub line: LineState,
    pub phase: Phase,
}

/// The result of one step: the next action, and the bytes to write and flush.
pub struct Step {
    pub action: Action,
    pub output: Vec<u8>,
}

/// The bytes written for a packet, and whether a line start is pending after it.
pub open spec fn dispatch_output(pending: bool, channel: u8, kind: PacketKind, ts: Seq<u8>) -> Seq<u8> {
    match kind {
        PacketKind::Instrumentation { payload, .. } => if passes(kind, channel) {
            feed_output(pending, payload@, ts)
        } else {
            seq![]
        },
        PacketKind::Other => seq![],
    }
}

pub open spec fn dispatch_pending(pending: bool, channel: u8, kind: PacketKind) -> bool {
    match kind {
        PacketKind::Instrumentation { payload, .. } => if passes(kind, channel) {
            pending_after(pending, payload@)
        } else {
            pending
        },
        PacketKind::Other => pending,
    }
}

/// The action that follows `event` in phase `phase`.
pub open spec fn next_action(phase: Phase, event: Event) -> Action {
    if phase == Phase::Terminated {
        Action::Stop(SessionError::TransportClosed)
    } else {
        match event {
            Event::Ready(r) => if r.closes() {
                Action::Stop(SessionError::TransportClosed)
            } else if r.readable {
                Action::ReadPacket
            } else {
                Action::WaitForEvents
            },
            Event::Decoded(Decoded::NoData) => Action::WaitForEvents,
            Event::Decoded(_) => Action::ReadPacket,
        }
    }
}

/// The phase after `event`.
pub open spec fn next_phase(phase: Phase, event: Event) -> Phase {
    match next_action(phase, event) {
        Action::Stop(_) => Phase::Terminated,
        Action::ReadPacket => Phase::DrainingTransport,
        Action::WaitForEvents => Phase::WaitingForEvents,
    }
}

/// The bytes written on `event`.
pub open spec fn next_output(s: Session, event: Event, ts: Seq<u8>) -> Seq<u8> {
    match event {
        Event::Decoded(Decoded::Packet(kind)) => if s.phase == Phase::Terminated {
            seq![]
        } else {
            dispatch_output(s.line.pending(), s.channel, kind, ts)
        },
        _ => seq![],
    }
}

/// Whether a line start is pending after `event`.
pub open spec fn next_pending(s: Session, event: Event) -> bool {
    match event {
        Event::Decoded(Decoded::Packet(kind)) => if s.phase == Phase::Terminated {
            s.line.pending()
        } else {
            dispatch_pending(s.line.pending(), s.channel, kind)
        },
        _ => s.line.pending(),
    }
}

/// Relies on chrono::Local::now and DateTime::format: the local time now,
/// written in `format`. Formatting panics on a malformed format, so only the
/// collector's own format is passed.
#[verifier::external_body]
fn local_time_text(format: &str) -> (r: Vec<u8>)
    requires
        format@ == TIMESTAMP_FORMAT@,
{
    chrono::Local::now().format(format).to_string().into_bytes()
}

impl Session {
    /// A session that listens on `channel`, waiting for events, with the first
    /// line start pending.
    pub fn new(channel: u8) -> (s: Session)
        ensures
            s.channel == channel,
            s.line.pending(),
            s.phase == Phase::WaitingForEvents,
    {
        Session { channel, line: LineState::new(), phase: Phase::WaitingForEvents }
    }

    /// Hands a packet to the filter, and an accepted one to the reassembler.
    pub fn dispatch(&mut self, kind: &PacketKind, stamp: &[u8]) -> (out: Vec<u8>)
        ensures
            out@ == dispatch_output(old(self).line.pending(), old(self).channel, *kind, stamp@),
            final(self).line.pending() == dispatch_pending(old(self).line.pending(), old(self).channel, *kind),
            final(self).channel == old(self).channel,
            final(self).phase == old(self).phase,
    {
        if accepts(kind, self.channel) {
            match kind {
                PacketKind::Instrumentation { payload, .. } => self.line.feed(payload.as_slice(), stamp),
                PacketKind::Other => Vec::new(),
            }
        } else {
            Vec::new()
        }
    }

    /// One step of the acquisition loop, with `stamp` as the time now.
    pub fn step_at(&mut self, event: &Event, stamp: &[u8]) -> (r: Step)
        ensures
            r.action == next_action(old(self).phase, *event),
            r.output@ == next_output(*old(self), *event, stamp@),
            final(self).phase == next_phase(old(self).phase, *event),
            final(self).line.pending() == next_pending(*old(self), *event),
            final(self).channel == old(self).channel,
    {
        let mut output: Vec<u8> = Vec::new();
        let action = if self.phase == Phase::Terminated {
            Action::Stop(SessionError::TransportClosed)
        } else {
            match event {
                Event::Ready(r) => if r.hangup || r.error {
                    Action::Stop(SessionError::TransportClosed)
                } else if r.readable {
                    Action::ReadPacket
                } else {
                    Action::WaitForEvents
                },
                Event::Decoded(Decoded::NoData) => Action::WaitForEvents,
                Event::Decoded(Decoded::Malformed) => Action::ReadPacket,
                Event::Decoded(Decoded::Packet(kind)) => {
                    output = self.dispatch(kind, stamp);
                    Action::ReadPacket
                },
            }
        };
        self.phase = match action {
            Action::Stop(_) => Phase::Terminated,
            Action::ReadPacket => Phase::DrainingTransport,
            Action::WaitForEvents => Phase::WaitingForEvents,
        };
        Step { action, output }
    }

    /// One step of the acquisition loop; a packet's lines are stamped with the
    /// local time now.
    pub fn step(&mut self, event: &Event) -> (r: Step)
        ensures
            r.action == next_action(old(self).phase, *event),
            exists|ts: Seq<u8>| r.output@ == next_output(*old(self), *event, ts),
            final(self).phase == next_phase(old(self).phase, *event),
            final(self).line.pending() == next_pending(*old(self), *event),
            final(self).channel == old(self).channel,
    {
        let stamp = match event {
            Event::Decoded(Decoded::Packet(kind)) => if accepts(kind, self.channel) {
                local_time_text(TIMESTAMP_FORMAT)
            } else {
                Vec::new()
            },
            _ => Vec::new(),
        };
        let r = self.step_at(event, stamp.as_slice());
        assert(r.output@ == next_output(*old(self), *event, stamp@));
        r
    }
}

/// The session after `event`.
pub open spec fn next_session(s: Session, event: Event) -> Session {
    Session {
        channel: s.channel,
        line: LineState::from_pending(next_pending(s, event)),
        phase: next_phase(s.phase, event),
    }
}

/// A run of the loop over `events`, the i-th taken at time `stamps[i]`: the
/// session at the end, the actions taken and the bytes written.
pub open spec fn run(s: Session, events: Seq<Event>, stamps: Seq<Seq<u8>>) -> (Session, Seq<Action>, Seq<u8>)
    decreases events.len(),
{
    if events.len() == 0 {
        (s, seq![], seq![])
    } else {
        let rest = run(next_session(s, events[0]), events.drop_first(), stamps.drop_first());
        (
            rest.0,
            seq![next_action(s.phase, events[0])] + rest.1,
            next_output(s, events[0], stamps[0]) + rest.2,
        )
    }
}

/// The decoder's results for a run of packets.
pub open spec fn packet_events(kinds: Seq<PacketKind>) -> Seq<Event> {
    Seq::new(kinds.len(), |i: int| Event::Decoded(Decoded::Packet(kinds[i])))
}

/// What handing each of `kinds` to the filter writes, the i-th at `stamps[i]`.
pub open spec fn dispatch_all(pending: bool, channel: u8, kinds: Seq<PacketKind>, stamps: Seq<Seq<u8>>) -> Seq<u8>
    decreases kinds.len(),
{
    if kinds.len() == 0 {
        seq![]
    } else {
        dispatch_output(pending, channel, kinds[0], stamps[0]) + dispatch_all(
            dispatch_pending(pending, channel, kinds[0]),
            channel,
            kinds.drop_first(),
            stamps.drop_first(),
        )
    }
}

pub open spec fn repeated(a: Action, n: nat) -> Seq<Action> {
    Seq::new(n, |i: int| a)
}

/// A packet that fails the filter writes nothing and leaves the line state as
/// it was; one that passes is fed to the reassembler as it is.
pub proof fn lemma_filter_decides_forwarding(s: Session, kind: PacketKind, ts: Seq<u8>)
    requires
        s.phase != Phase::Terminated,
    ensures
        !passes(kind, s.channel) ==> next_output(s, Event::Decoded(Decoded::Packet(kind)), ts) == Seq::<u8>::empty()
            && next_pending(s, Event::Decoded(Decoded::Packet(kind))) == s.line.pending(),
        passes(kind, s.channel) ==> kind is Instrumentation && next_output(s, Event::Decoded(Decoded::Packet(kind)), ts)
            == feed_output(s.line.pending(), kind->Instrumentation_payload@, ts),
{
}

proof fn lemma_drain_packets(s: Session, kinds: Seq<PacketKind>, stamps: Seq<Seq<u8>>)
    requires
        s.phase != Phase::Terminated,
    ensures
        run(s, packet_events(kinds).push(Event::Decoded(Decoded::NoData)), stamps).1
            == repeated(Action::ReadPacket, kinds.len()).push(Action::WaitForEvents),
        run(s, packet_events(kinds).push(Event::Decoded(Decoded::NoData)), stamps).2
            == dispatch_all(s.line.pending(), s.channel, kinds, stamps),
        run(s, packet_events(kinds).push(Event::Decoded(Decoded::NoData)), stamps).0.phase
            == Phase::WaitingForEvents,
    decreases kinds.len(),
{
    let events = packet_events(kinds).push(Event::Decoded(Decoded::NoData));
    if kinds.len() == 0 {
        assert(events =~= seq![Event::Decoded(Decoded::NoData)]);
        assert(events.drop_first() =~= Seq::<Event>::empty());
        let s1 = next_session(s, events[0]);
        assert(run(s1, events.drop_first(), stamps.drop_first()).1 == Seq::<Action>::empty());
        assert(run(s1, events.drop_first(), stamps.drop_first()).2 == Seq::<u8>::empty());
        assert(run(s, events, stamps).1 =~= repeated(Action::ReadPacket, 0).push(Action::WaitForEvents));
        assert(run(s, events, stamps).2 =~= Seq::<u8>::empty());
    } else {
        let rest = kinds.drop_first();
        assert(events[0] == Event::Decoded(Decoded::Packet(kinds[0])));
        assert(events.drop_first() =~= packet_events(rest).push(Event::Decoded(Decoded::NoData)));
        let s1 = next_session(s, events[0]);
        lemma_drain_packets(s1, rest, stamps.drop_first());
        assert(s1.phase == Phase::DrainingTransport);
        assert(run(s, events, stamps).1 =~= repeated(Action::ReadPacket, kinds.len()).push(Action::WaitForEvents));
    }
}

/// A readable event followed by any number of decodable packets is drained
/// whole: the loop reads again after the event and after every packet, hands
/// each packet to the filter in order, and waits for events again only once
/// the decoder reports that no data is left.
pub proof fn lemma_readable_event_drains_all(s: Session, r: Readiness, kinds: Seq<PacketKind>, stamps: Seq<Seq<u8>>)
    requires
        s.phase != Phase::Terminated,
        r.readable,
        !r.closes(),
    ensures
        run(s, seq![Event::Ready(r)] + packet_events(kinds).push(Event::Decoded(Decoded::NoData)), stamps).1
            == repeated(Action::ReadPacket, kinds.len() + 1).push(Action::WaitForEvents),
        run(s, seq![Event::Ready(r)] + packet_events(kinds).push(Event::Decoded(Decoded::NoData)), stamps).2
            == dispatch_all(s.line.pending(), s.channel, kinds, stamps.drop_first()),
        run(s, seq![Event::Ready(r)] + packet_events(kinds).push(Event::Decoded(Decoded::NoData)), stamps).0.phase
            == Phase::WaitingForEvents,
{
    let tail = packet_events(kinds).push(Event::Decoded(Decoded::NoData));
    let events = seq![Event::Ready(r)] + tail;
    assert(events[0] == Event::Ready(r));
    assert(events.drop_first() =~= tail);
    let s1 = next_session(s, events[0]);
    assert(s1.line.pending() == s.line.pending());
    lemma_drain_packets(s1, kinds, stamps.drop_first());
    assert(run(s, events, stamps).1 =~= repeated(Action::ReadPacket, kinds.len() + 1).push(Action::WaitForEvents));
    assert(run(s, events, stamps).2 =~= dispatch_all(s.line.pending(), s.channel, kinds, stamps.drop_first()));
}

proof fn lemma_terminated_stays(s: Session, events: Seq<Event>, stamps: Seq<Seq<u8>>)
    requires
        s.phase == Phase::Terminated,
    ensures
        run(s, events, stamps).1 == repeated(Action::Stop(SessionError::TransportClosed), events.len()),
        run(s, events, stamps).2 == Seq::<u8>::empty(),
        run(s, events, stamps).0.phase == Phase::Terminated,
    decreases events.len(),
{
    if events.len() > 0 {
        let s1 = next_session(s, events[0]);
        lemma_terminated_stays(s1, events.drop_first(), stamps.drop_first());
        assert(run(s, events, stamps).1 =~= repeated(Action::Stop(SessionError::TransportClosed), events.len()));
        assert(run(s, events, stamps).2 =~= Seq::<u8>::empty());
    }
}

/// An event that reports the transport closed or in error ends the session
/// with `TransportClosed`, even when it also reports data to read: every
/// later event, packets the decoder still holds among them, stops the loop
/// again and writes nothing.
pub proof fn lemma_closed_transport_ends_session(s: Session, r: Readiness, later: Seq<Event>, stamps: Seq<Seq<u8>>)
    requires
        r.closes(),
    ensures
        run(s, seq![Event::Ready(r)] + later, stamps).1
            == repeated(Action::Stop(SessionError::TransportClosed), later.len() + 1),
        run(s, seq![Event::Ready(r)] + later, stamps).2 == Seq::<u8>::empty(),
        run(s, seq![Event::Ready(r)] + later, stamps).0.phase == Phase::Terminated,
{
    let events = seq![Event::Ready(r)] + later;
    assert(events[0] == Event::Ready(r));
    assert(events.drop_first() =~= later);
    lemma_terminated_stays(next_session(s, events[0]), later, stamps.drop_first());
    assert(run(s, events, stamps).1 =~= repeated(Action::Stop(SessionError::TransportClosed), later.len() + 1));
    assert(run(s, events, stamps).2 =~= Seq::<u8>::empty());
}

/// A decode error between two packets does not stop the drain: the loop reads
/// on after each of the three, and both packets are handed to the filter as
/// if the error had not been there.
pub proof fn lemma_decode_error_is_skipped(s: Session, first: PacketKind, second: PacketKind, stamps: Seq<Seq<u8>>)
    requires
        s.phase != Phase::Terminated,
        stamps.len() == 3,
    ensures
        run(s, seq![
            Event::Decoded(Decoded::Packet(first)),
            Event::Decoded(Decoded::Malformed),
            Event::Decoded(Decoded::Packet(second)),
        ], stamps).1 == repeated(Action::ReadPacket, 3),
        run(s, seq![
            Event::Decoded(Decoded::Packet(first)),
            Event::Decoded(Decoded::Malformed),
            Event::Decoded(Decoded::Packet(second)),
        ], stamps).2 == dispatch_all(s.line.pending(), s.channel, seq![first, second], seq![stamps[0], stamps[2]]),
{
    let events = seq![
        Event::Decoded(Decoded::Packet(first)),
        Event::Decoded(Decoded::Malformed),
        Event::Decoded(Decoded::Packet(second)),
    ];
    let e1 = events.drop_first();
    let e2 = e1.drop_first();
    assert(e1 =~= seq![Event::Decoded(Decoded::Malformed), Event::Decoded(Decoded::Packet(second))]);
    assert(e2 =~= seq![Event::Decoded(Decoded::Packet(second))]);
    assert(e2.drop_first() =~= Seq::<Event>::empty());
    let ks = seq![first, second];
    let ts = seq![stamps[0], stamps[2]];
    assert(ks.drop_first() =~= seq![second]);
    assert(ks.drop_first().drop_first() =~= Seq::<PacketKind>::empty());
    assert(ts.drop_first() =~= seq![stamps[2]]);
    let s1 = next_session(s, events[0]);
    let s2 = next_session(s1, e1[0]);
    assert(s2.line.pending() == s1.line.pending());
    assert(stamps.drop_first().drop_first()[0] == stamps[2]);
    let s3 = next_session(s2, e2[0]);
    let t1 = stamps.drop_first();
    let t2 = t1.drop_first();
    assert(run(s3, e2.drop_first(), t2.drop_first()).1 == Seq::<Action>::empty());
    assert(run(s3, e2.drop_first(), t2.drop_first()).2 == Seq::<u8>::empty());
    assert(run(s2, e2, t2).1 =~= seq![Action::ReadPacket]);
    assert(run(s1, e1, t1).1 =~= seq![Action::ReadPacket, Action::ReadPacket]);
    assert(run(s, events, stamps).1 =~= repeated(Action::ReadPacket, 3));
    assert(run(s2, e2, t2).2 =~= dispatch_output(s2.line.pending(), s.channel, second, stamps[2]));
    assert(s1.line.pending() == dispatch_pending(s.line.pending(), s.channel, first));
    assert(s2.phase == Phase::DrainingTransport);
    let rest_all = dispatch_all(s1.line.pending(), s.channel, ks.drop_first(), ts.drop_first());
    assert(dispatch_all(s.line.pending(), s.channel, ks, ts) == dispatch_output(s.line.pending(), s.channel, first, stamps[0]) + rest_all);
    let k1 = ks.drop_first();
    let u1 = ts.drop_first();
    assert(k1.len() == 1 && k1[0] == second && u1[0] == stamps[2]);
    assert(k1.drop_first().len() == 0);
    let p2 = dispatch_pending(s1.line.pending(), s.channel, second);
    assert(dispatch_all(p2, s.channel, k1.drop_first(), u1.drop_first()) == Seq::<u8>::empty());
    assert(rest_all =~= dispatch_output(s2.line.pending(), s.channel, second, stamps[2]));
    assert(run(s1, e1, t1).2 =~= run(s2, e2, t2).2);
    assert(run(s, events, stamps).2 =~= dispatch_all(s.line.pending(), s.channel, ks, ts));
}

} // verus!
