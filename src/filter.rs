use vstd::prelude::*;

verus! {

/// What a decoded trace packet carries, as far as the collector reads it.
pub enum PacketKind {
    /// Application text on a stimulus channel.
    Instrumentation { channel: u8, payload: Vec<u8> },
    /// Any other packet of the trace stream.
    Other,
}

/// A packet passes the filter when it is instrumentation text on `channel`.
pub open spec fn passes(kind: PacketKind, channel: u8) -> bool {
    match kind {
        PacketKind::Instrumentation { channel: c, .. } => c == channel,
        PacketKind::Other => false,
    }
}

/// Decides whether `kind` goes on to the reassembler.
pub fn accepts(kind: &PacketKind, channel: u8) -> (r: bool)
    ensures
        r == passes(*kind, channel),
{
    match kind {
        PacketKind::Instrumentation { channel: c, .. } => *c == channel,
        PacketKind::Other => false,
    }
}

} // verus!
