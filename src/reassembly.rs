use vstd::prelude::*;
use vstd::utf8::valid_utf8;

verus! {

pub const LINE_FEED: u8 = 0x0a;

pub const SPACE: u8 = 0x20;

/// Whether the next byte written to the console opens a new line.
#[derive(Clone, Copy, Debug, PartialEq, Eq, Structural)]
pub enum LineState {
    /// A line has been started and not yet closed.
    LineOpen,
    /// The next byte begins a line and must be preceded by a timestamp.
    LineStartPending,
}

impl LineState {
    pub open spec fn pending(self) -> bool {
        self is LineStartPending
    }

    pub open spec fn from_pending(pending: bool) -> LineState {
        if pending {
            LineState::LineStartPending
        } else {
            LineState::LineOpen
        }
    }

    /// The state of a fresh session: the first byte opens a line.
    pub fn new() -> (s: LineState)
        ensures
            s.pending(),
    {
        LineState::LineStartPending
    }

    pub fn is_pending(&self) -> (r: bool)
        ensures
            r == self.pending(),
    {
        matches!(self, LineState::LineStartPending)
    }
}

/// A timestamp as written before a line: its text and one space.
pub open spec fn stamp_text(ts: Seq<u8>) -> Seq<u8> {
    ts.push(SPACE)
}

pub open spec fn ends_in_line_feed(text: Seq<u8>) -> bool {
    text.len() > 0 && text.last() == LINE_FEED
}

/// The bytes of `text`, with a stamp put before every byte that follows a
/// line feed of `text`.
pub open spec fn stamped_body(text: Seq<u8>, ts: Seq<u8>) -> Seq<u8>
    decreases text.len(),
{
    if text.len() == 0 {
        seq![]
    } else {
        let init = text.drop_last();
        stamped_body(init, ts) + (if ends_in_line_feed(init) {
            stamp_text(ts)
        } else {
            seq![]
        }).push(text.last())
    }
}

/// What a text payload writes: a stamp first if a line start is pending, then
/// its bytes with a stamp after each inner line feed.
pub open spec fn render_text(pending: bool, text: Seq<u8>, ts: Seq<u8>) -> Seq<u8> {
    (if pending {
        stamp_text(ts)
    } else {
        seq![]
    }) + stamped_body(text, ts)
}

/// The decimal digits of `n`.
pub open spec fn decimal(n: nat) -> Seq<u8>
    decreases n,
{
    if n < 10 {
        seq![(0x30 + n) as u8]
    } else {
        decimal(n / 10).push((0x30 + n % 10) as u8)
    }
}

/// The bytes of `b` in decimal, separated by a comma and a space.
pub open spec fn byte_list(b: Seq<u8>) -> Seq<u8>
    decreases b.len(),
{
    if b.len() == 0 {
        seq![]
    } else if b.len() == 1 {
        decimal(b[0] as nat)
    } else {
        byte_list(b.drop_last()) + seq![0x2cu8, SPACE] + decimal(b.last() as nat)
    }
}

/// `Invalid payload: ` in ASCII.
pub open spec fn diagnostic_prefix() -> Seq<u8> {
    seq![
        0x49u8, 0x6e, 0x76, 0x61, 0x6c, 0x69, 0x64, 0x20,
        0x70, 0x61, 0x79, 0x6c, 0x6f, 0x61, 0x64, 0x3a, 0x20,
    ]
}

/// The line written for a payload that is not UTF-8: `Invalid payload: [1, 2]`.
pub open spec fn diagnostic(payload: Seq<u8>) -> Seq<u8> {
    diagnostic_prefix() + seq![0x5bu8] + byte_list(payload) + seq![0x5du8, LINE_FEED]
}

/// What the reassembler writes for one accepted payload.
pub open spec fn feed_output(pending: bool, payload: Seq<u8>, ts: Seq<u8>) -> Seq<u8> {
    if valid_utf8(payload) {
        render_text(pending, payload, ts)
    } else {
        diagnostic(payload)
    }
}

/// Whether a line start is pending after one accepted payload.
pub open spec fn pending_after(pending: bool, payload: Seq<u8>) -> bool {
    if valid_utf8(payload) {
        ends_in_line_feed(payload)
    } else {
        pending
    }
}

/// Relies on std::str::from_utf8: it succeeds exactly on well-formed UTF-8.
#[verifier::external_body]
fn is_utf8(bytes: &[u8]) -> (r: bool)
    ensures
        r == valid_utf8(bytes@),
{
    std::str::from_utf8(bytes).is_ok()
}

fn append(out: &mut Vec<u8>, bytes: &[u8])
    ensures
        final(out)@ == old(out)@ + bytes@,
{
    let mut i: usize = 0;
    while i < bytes.len()
        invariant
            i <= bytes.len(),
            out@ == old(out)@ + bytes@.subrange(0, i as int),
        decreases bytes.len() - i,
    {
        out.push(bytes[i]);
        i = i + 1;
        assert(bytes@.subrange(0, i as int) =~= bytes@.subrange(0, i - 1 as int).push(bytes[i - 1]));
    }
    assert(bytes@.subrange(0, bytes@.len() as int) =~= bytes@);
}

fn append_stamp(out: &mut Vec<u8>, stamp: &[u8])
    ensures
        final(out)@ == old(out)@ + stamp_text(stamp@),
{
    append(out, stamp);
    out.push(SPACE);
    assert(out@ =~= old(out)@ + stamp_text(stamp@));
}

/// Writes `n` in decimal.
fn append_decimal(out: &mut Vec<u8>, n: u8)
    ensures
        final(out)@ == old(out)@ + decimal(n as nat),
{
    let ghost start = out@;
    reveal_with_fuel(decimal, 3);
    if n >= 100 {
        out.push(0x30 + n / 100);
        out.push(0x30 + n / 10 % 10);
        out.push(0x30 + n % 10);
        assert((n as nat / 10) / 10 == n as nat / 100);
        assert(out@ =~= start + decimal(n as nat));
    } else if n >= 10 {
        out.push(0x30 + n / 10);
        out.push(0x30 + n % 10);
        assert(out@ =~= start + decimal(n as nat));
    } else {
        out.push(0x30 + n);
        assert(out@ =~= start + decimal(n as nat));
    }
}

/// The diagnostic line for a payload that is not text.
pub fn describe_invalid(payload: &[u8]) -> (out: Vec<u8>)
    ensures
        out@ == diagnostic(payload@),
{
    let mut out: Vec<u8> = vec![
        0x49u8, 0x6e, 0x76, 0x61, 0x6c, 0x69, 0x64, 0x20,
        0x70, 0x61, 0x79, 0x6c, 0x6f, 0x61, 0x64, 0x3a, 0x20,
    ];
    assert(out@ =~= diagnostic_prefix());
    out.push(0x5b);
    let ghost head = out@;
    let mut i: usize = 0;
    while i < payload.len()
        invariant
            i <= payload.len(),
            out@ == head + byte_list(payload@.subrange(0, i as int)),
        decreases payload.len() - i,
    {
        let ghost before = payload@.subrange(0, i as int);
        if i > 0 {
            out.push(0x2c);
            out.push(SPACE);
        }
        append_decimal(&mut out, payload[i]);
        i = i + 1;
        let ghost now = payload@.subrange(0, i as int);
        assert(now.drop_last() =~= before);
        assert(out@ =~= head + byte_list(now));
    }
    assert(payload@.subrange(0, payload@.len() as int) =~= payload@);
    out.push(0x5d);
    out.push(LINE_FEED);
    assert(out@ =~= diagnostic(payload@));
    out
}

impl LineState {
    /// Writes one text payload: a timestamp first if a line start is pending,
    /// then the text, with a fresh timestamp after every line feed that more
    /// text follows. A trailing line feed leaves the next line start pending.
    pub fn feed_text(&mut self, text: &[u8], stamp: &[u8]) -> (out: Vec<u8>)
        ensures
            out@ == render_text(old(self).pending(), text@, stamp@),
            final(self).pending() == ends_in_line_feed(text@),
    {
        let mut out: Vec<u8> = Vec::new();
        if self.is_pending() {
            append_stamp(&mut out, stamp);
        }
        let ghost head = out@;
        assert(head == render_text(old(self).pending(), seq![], stamp@));
        let mut i: usize = 0;
        while i < text.len()
            invariant
                i <= text.len(),
                head == (if old(self).pending() { stamp_text(stamp@) } else { seq![] }),
                out@ == head + stamped_body(text@.subrange(0, i as int), stamp@),
            decreases text.len() - i,
        {
            let ghost before = text@.subrange(0, i as int);
            if i > 0 && text[i - 1] == LINE_FEED {
                append_stamp(&mut out, stamp);
            }
            out.push(text[i]);
            i = i + 1;
            let ghost now = text@.subrange(0, i as int);
            assert(now.drop_last() =~= before);
            assert(out@ =~= head + stamped_body(now, stamp@));
        }
        assert(text@.subrange(0, text@.len() as int) =~= text@);
        *self = if text.len() > 0 && text[text.len() - 1] == LINE_FEED {
            LineState::LineStartPending
        } else {
            LineState::LineOpen
        };
        out
    }

    /// Writes one accepted payload: as text when it is UTF-8, else as a
    /// diagnostic line that leaves the line state as it was.
    pub fn feed(&mut self, payload: &[u8], stamp: &[u8]) -> (out: Vec<u8>)
        ensures
            out@ == feed_output(old(self).pending(), payload@, stamp@),
            final(self).pending() == pending_after(old(self).pending(), payload@),
    {
        if is_utf8(payload) {
            self.feed_text(payload, stamp)
        } else {
            describe_invalid(payload)
        }
    }
}

/// What a run of accepted payloads writes, the i-th stamped with `stamps[i]`.
pub open spec fn feed_all_output(pending: bool, payloads: Seq<Seq<u8>>, stamps: Seq<Seq<u8>>) -> Seq<u8>
    decreases payloads.len(),
{
    if payloads.len() == 0 {
        seq![]
    } else {
        feed_output(pending, payloads[0], stamps[0]) + feed_all_output(
            pending_after(pending, payloads[0]),
            payloads.drop_first(),
            stamps.drop_first(),
        )
    }
}

/// Whether a line start is pending after a run of accepted payloads.
pub open spec fn feed_all_pending(pending: bool, payloads: Seq<Seq<u8>>) -> bool
    decreases payloads.len(),
{
    if payloads.len() == 0 {
        pending
    } else {
        feed_all_pending(pending_after(pending, payloads[0]), payloads.drop_first())
    }
}

pub open spec fn has_line_feed(text: Seq<u8>) -> bool {
    exists|j: int| 0 <= j < text.len() && text[j] == LINE_FEED
}

proof fn lemma_body_without_line_feed(text: Seq<u8>, ts: Seq<u8>)
    requires
        !has_line_feed(text),
    ensures
        stamped_body(text, ts) == text,
    decreases text.len(),
{
    if text.len() > 0 {
        let init = text.drop_last();
        assert(!has_line_feed(init)) by {
            if has_line_feed(init) {
                let j = choose|j: int| 0 <= j < init.len() && init[j] == LINE_FEED;
                assert(text[j] == LINE_FEED);
            }
        }
        lemma_body_without_line_feed(init, ts);
        assert(text[text.len() - 1] != LINE_FEED);
        assert(stamped_body(text, ts) =~= text);
    }
}

proof fn lemma_open_line_continues(payloads: Seq<Seq<u8>>, stamps: Seq<Seq<u8>>)
    requires
        forall|i: int| 0 <= i < payloads.len() ==> valid_utf8(#[trigger] payloads[i]),
        forall|i: int| 0 <= i < payloads.len() ==> !has_line_feed(#[trigger] payloads[i]),
    ensures
        feed_all_output(false, payloads, stamps) == payloads.flatten(),
        !feed_all_pending(false, payloads),
    decreases payloads.len(),
{
    if payloads.len() > 0 {
        let rest = payloads.drop_first();
        assert forall|i: int| 0 <= i < rest.len() implies valid_utf8(#[trigger] rest[i]) && !has_line_feed(rest[i]) by {
            assert(rest[i] == payloads[i + 1]);
        }
        lemma_open_line_continues(rest, stamps.drop_first());
        assert(valid_utf8(payloads[0]) && !has_line_feed(payloads[0]));
        lemma_body_without_line_feed(payloads[0], stamps[0]);
        assert(!ends_in_line_feed(payloads[0])) by {
            if payloads[0].len() > 0 {
                assert(payloads[0][payloads[0].len() - 1] != LINE_FEED);
            }
        }
        assert(render_text(false, payloads[0], stamps[0]) =~= payloads[0]);
    }
}

/// Text fragments without a line feed, fed one after another from a pending
/// line start, form one line: a single stamp, taken at the first fragment,
/// followed by all their bytes, and the line stays open.
pub proof fn lemma_fragments_form_one_line(payloads: Seq<Seq<u8>>, stamps: Seq<Seq<u8>>)
    requires
        payloads.len() > 0,
        forall|i: int| 0 <= i < payloads.len() ==> valid_utf8(#[trigger] payloads[i]),
        forall|i: int| 0 <= i < payloads.len() ==> !has_line_feed(#[trigger] payloads[i]),
    ensures
        feed_all_output(true, payloads, stamps) == stamp_text(stamps[0]) + payloads.flatten(),
        !feed_all_pending(true, payloads),
{
    let rest = payloads.drop_first();
    assert forall|i: int| 0 <= i < rest.len() implies valid_utf8(#[trigger] rest[i]) && !has_line_feed(rest[i]) by {
        assert(rest[i] == payloads[i + 1]);
    }
    lemma_open_line_continues(rest, stamps.drop_first());
    assert(valid_utf8(payloads[0]) && !has_line_feed(payloads[0]));
    lemma_body_without_line_feed(payloads[0], stamps[0]);
    assert(!ends_in_line_feed(payloads[0])) by {
        if payloads[0].len() > 0 {
            assert(payloads[0][payloads[0].len() - 1] != LINE_FEED);
        }
    }
    assert(feed_all_output(true, payloads, stamps) =~= stamp_text(stamps[0]) + payloads.flatten());
}

} // verus!
