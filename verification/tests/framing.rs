use alfs::framing::{failure, Framer, Parsed, Step};

fn holding(bytes: &[u8]) -> Framer {
    let mut f = Framer::new();
    assert!(matches!(f.received(bytes), Step::ParseAll));
    f
}

#[test]
fn an_empty_buffer_calls_for_bytes() {
    let f = Framer::new();
    assert!(matches!(f.start(), Step::Read));
    assert!(f.bytes().is_empty());
}

#[test]
fn bytes_are_gathered_in_order() {
    let mut f = holding(b"{\"vt");
    assert!(matches!(f.received(b"ime\""), Step::ParseAll));
    assert_eq!(f.bytes(), b"{\"vtime\"");
    assert!(matches!(f.start(), Step::ParseAll));
}

#[test]
fn a_frame_uses_the_buffer_up() {
    let mut f = holding(b"{}\n");
    assert!(matches!(f.parsed(Parsed::Frame), Step::Deliver));
    assert!(f.bytes().is_empty());
    assert!(matches!(f.start(), Step::Read));
}

#[test]
fn a_cut_frame_waits_for_more() {
    let mut f = holding(b"{\"a\":\n");
    assert!(matches!(f.parsed(Parsed::Cut), Step::Read));
    assert_eq!(f.bytes(), b"{\"a\":\n");
}

#[test]
fn malformed_bytes_are_taken_line_by_line() {
    let mut f = holding(b"\r\n\n{1}\r\n{2}\n{3");
    // a line with nothing in it is passed over
    assert!(matches!(f.parsed(Parsed::Malformed), Step::ParseAll));
    assert_eq!(f.bytes(), b"\n{1}\r\n{2}\n{3");
    assert!(matches!(f.parsed(Parsed::Malformed), Step::ParseAll));
    match f.parsed(Parsed::Malformed) {
        Step::ParseLine(line) => assert_eq!(line, b"{1}"),
        other => panic!("{:?}", other),
    }
    match f.parsed(Parsed::Malformed) {
        Step::ParseLine(line) => assert_eq!(line, b"{2}"),
        other => panic!("{:?}", other),
    }
    // no whole line is left
    assert!(matches!(f.parsed(Parsed::Malformed), Step::Read));
    assert_eq!(f.bytes(), b"{3");
}

#[test]
fn carriage_returns_leave_a_line_wherever_they_stand() {
    let mut f = holding(b"\ra\rb\r\n");
    match f.parsed(Parsed::Malformed) {
        Step::ParseLine(line) => assert_eq!(line, b"ab"),
        other => panic!("{:?}", other),
    }
    assert!(f.bytes().is_empty());
}

#[test]
fn a_last_empty_line_calls_for_bytes() {
    let mut f = holding(b"\n");
    assert!(matches!(f.parsed(Parsed::Malformed), Step::Read));
    assert!(f.bytes().is_empty());
}

#[test]
fn the_stream_ends_with_or_without_a_rest() {
    let mut f = Framer::new();
    assert!(matches!(f.received(b""), Step::End));
    let mut f = holding(b"{}");
    assert!(matches!(f.received(b""), Step::ParseRest));
    assert_eq!(f.bytes(), b"{}");
    assert!(matches!(f.parsed(Parsed::Frame), Step::Deliver));
    assert!(matches!(f.received(b""), Step::End));
}

#[test]
fn errors_that_speak_of_eof_mean_a_cut() {
    assert_eq!(failure("EOF while parsing an object at line 1 column 3"), Parsed::Cut);
    assert_eq!(failure("x EOF"), Parsed::Cut);
    assert_eq!(failure("EOEOF"), Parsed::Cut);
    assert_eq!(failure("expected value at line 1 column 1"), Parsed::Malformed);
    assert_eq!(failure("EO F"), Parsed::Malformed);
    assert_eq!(failure("eof"), Parsed::Malformed);
    assert_eq!(failure(""), Parsed::Malformed);
}

#[test]
fn real_parse_errors_are_told_apart() {
    let cut = serde_json::from_slice::<serde_json::Value>(b"{\"a\":").unwrap_err();
    assert_eq!(failure(&cut.to_string()), Parsed::Cut);
    let two = serde_json::from_slice::<serde_json::Value>(b"{}\n{}\n").unwrap_err();
    assert_eq!(failure(&two.to_string()), Parsed::Malformed);
}
