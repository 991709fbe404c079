use oxygen_bot::framer::{terminate, LineFramer};

fn strings(items: &[&str]) -> Vec<String> {
    items.iter().map(|s| s.to_string()).collect()
}

#[test]
fn one_terminated_line() {
    let mut framer = LineFramer::new();
    assert_eq!(framer.push_str("PING :token\r\n"), strings(&["PING :token"]));
}

#[test]
fn nothing_is_handed_out_before_the_terminator() {
    let mut framer = LineFramer::new();
    assert!(framer.push_str("PING :a\r\nPRIV").is_empty());
    assert_eq!(framer.push_str("MSG x :y\r\n"), strings(&["PING :a", "PRIVMSG x :y"]));
    assert!(framer.push_str("").is_empty());
}

#[test]
fn terminator_split_over_two_chunks() {
    let mut framer = LineFramer::new();
    assert!(framer.push_str("PING\r").is_empty());
    assert_eq!(framer.push_str("\n"), strings(&["PING"]));
}

#[test]
fn empty_lines_are_lines() {
    let mut framer = LineFramer::new();
    assert_eq!(framer.push_str("\r\n"), strings(&[""]));
    assert_eq!(framer.push_str("a\r\n\r\nb\r\n"), strings(&["a", "", "b"]));
}

#[test]
fn lone_carriage_return_or_line_feed_does_not_end_a_line() {
    let mut framer = LineFramer::new();
    assert_eq!(framer.push_str("a\nb\rc\r\n"), strings(&["a\nb\rc"]));
    assert_eq!(framer.push_str("x\r\r\n"), strings(&["x\r"]));
}

#[test]
fn drain_keeps_the_unfinished_rest() {
    let mut framer = LineFramer::new();
    assert!(framer.push_str("a\r\nb\r\nc").is_empty());
    assert_eq!(framer.drain(), strings(&["a", "b"]));
    assert!(framer.drain().is_empty());
    assert_eq!(framer.push_str("d\r\n"), strings(&["cd"]));
}

#[test]
fn bytes_are_decoded() {
    let mut framer = LineFramer::new();
    assert_eq!(framer.push(b"PING :caf\xC3\xA9\r\n"), strings(&["PING :café"]));
}

#[test]
fn bytes_that_are_not_utf8_become_replacement_characters() {
    let mut framer = LineFramer::new();
    assert_eq!(framer.push(b"a\xFFb\r\n"), strings(&["a\u{FFFD}b"]));
}

#[test]
fn bytes_gather_like_text() {
    let mut framer = LineFramer::new();
    assert!(framer.push(b"NOTICE * :hi").is_empty());
    assert_eq!(framer.push(b"\r\n"), strings(&["NOTICE * :hi"]));
}

#[test]
fn terminate_appends_the_terminator() {
    assert_eq!(terminate("NICK oxy"), "NICK oxy\r\n");
    assert_eq!(terminate(""), "\r\n");
}
