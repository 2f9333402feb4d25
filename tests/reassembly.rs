use itm_monitor::reassembly::{describe_invalid, LineState};

fn feed_all(state: &mut LineState, payloads: &[&[u8]]) -> Vec<u8> {
    let mut out = Vec::new();
    for p in payloads {
        out.extend(state.feed(p, b"<TS>"));
    }
    out
}

#[test]
fn line_with_trailing_feed() {
    let mut st = LineState::new();
    let out = st.feed(b"abc\n", b"<TS>");
    assert_eq!(out, b"<TS> abc\n".to_vec());
    assert_eq!(st, LineState::LineStartPending);
    assert!(st.is_pending());
}

#[test]
fn line_split_over_two_payloads() {
    let mut st = LineState::new();
    let out = feed_all(&mut st, &[b"abc", b"def\n"]);
    assert_eq!(out, b"<TS> abcdef\n".to_vec());
    assert_eq!(st, LineState::LineStartPending);
}

#[test]
fn two_empty_lines() {
    let mut st = LineState::new();
    let out = st.feed(b"\n\n", b"<TS>");
    assert_eq!(out, b"<TS> \n<TS> \n".to_vec());
    assert_eq!(st, LineState::LineStartPending);
}

#[test]
fn fragments_without_feed_share_one_stamp() {
    let mut st = LineState::new();
    let out = feed_all(&mut st, &[b"ab", b"c", b"", b"de"]);
    assert_eq!(out, b"<TS> abcde".to_vec());
    assert_eq!(st, LineState::LineOpen);
}

#[test]
fn inner_feed_opens_stamped_line() {
    let mut st = LineState::new();
    let out = st.feed(b"a\nb", b"<TS>");
    assert_eq!(out, b"<TS> a\n<TS> b".to_vec());
    assert_eq!(st, LineState::LineOpen);
}

#[test]
fn feed_on_open_line_closes_it() {
    let mut st = LineState::LineOpen;
    let out = st.feed(b"\n", b"<TS>");
    assert_eq!(out, b"\n".to_vec());
    assert_eq!(st, LineState::LineStartPending);
}

#[test]
fn empty_payload_on_pending_line_is_stamped() {
    let mut st = LineState::new();
    assert_eq!(st.feed(b"", b"<TS>"), b"<TS> ".to_vec());
    assert_eq!(st, LineState::LineOpen);
    assert_eq!(st.feed(b"", b"<TS>"), Vec::<u8>::new());
}

#[test]
fn multibyte_text_is_text() {
    let mut st = LineState::new();
    let out = st.feed("é\n".as_bytes(), b"<TS>");
    assert_eq!(out, "<TS> é\n".as_bytes().to_vec());
    assert_eq!(st, LineState::LineStartPending);
}

#[test]
fn invalid_payload_gives_diagnostic() {
    let mut st = LineState::LineOpen;
    let out = st.feed(&[0xff, 0, 12, 200], b"<TS>");
    assert_eq!(out, b"Invalid payload: [255, 0, 12, 200]\n".to_vec());
    assert_eq!(st, LineState::LineOpen);
    let mut pending = LineState::new();
    let out = pending.feed(&[0xc3], b"<TS>");
    assert_eq!(out, b"Invalid payload: [195]\n".to_vec());
    assert_eq!(pending, LineState::LineStartPending);
}

#[test]
fn diagnostic_of_empty_and_single() {
    assert_eq!(describe_invalid(&[]), b"Invalid payload: []\n".to_vec());
    assert_eq!(describe_invalid(&[7]), b"Invalid payload: [7]\n".to_vec());
    assert_eq!(describe_invalid(&[10, 99, 100]), b"Invalid payload: [10, 99, 100]\n".to_vec());
}

#[test]
fn feed_text_skips_check() {
    let mut st = LineState::new();
    assert_eq!(st.feed_text(b"x\ny\n", b"T"), b"T x\nT y\n".to_vec());
    assert_eq!(st, LineState::LineStartPending);
}
