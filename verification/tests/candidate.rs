use jwt_crack::candidate::candidate_from_line;

#[test]
fn a_line_feed_is_stripped() {
    assert_eq!(candidate_from_line(b"letmein\n"), Some(b"letmein".to_vec()));
}

#[test]
fn a_carriage_return_before_the_line_feed_is_stripped() {
    assert_eq!(candidate_from_line(b"letmein\r\n"), Some(b"letmein".to_vec()));
}

#[test]
fn a_last_line_without_terminator_is_kept_whole() {
    assert_eq!(candidate_from_line(b"letmein"), Some(b"letmein".to_vec()));
}

#[test]
fn only_one_terminator_is_stripped() {
    assert_eq!(candidate_from_line(b"letmein\n\n"), Some(b"letmein\n".to_vec()));
    assert_eq!(candidate_from_line(b"letmein\r\r\n"), Some(b"letmein\r".to_vec()));
    assert_eq!(candidate_from_line(b"letmein\n\r\n"), Some(b"letmein\n".to_vec()));
}

#[test]
fn a_carriage_return_alone_is_part_of_the_candidate() {
    assert_eq!(candidate_from_line(b"letmein\r"), Some(b"letmein\r".to_vec()));
}

#[test]
fn case_and_whitespace_are_kept() {
    assert_eq!(candidate_from_line(b" Let Me In \t\n"), Some(b" Let Me In \t".to_vec()));
    assert_eq!(candidate_from_line(b"\tx\n"), Some(b"\tx".to_vec()));
}

#[test]
fn an_empty_line_is_the_empty_candidate() {
    assert_eq!(candidate_from_line(b"\n"), Some(Vec::new()));
    assert_eq!(candidate_from_line(b"\r\n"), Some(Vec::new()));
    assert_eq!(candidate_from_line(b""), Some(Vec::new()));
}

#[test]
fn text_beyond_ascii_is_a_candidate() {
    let line = "p\u{e4}ssw\u{f6}rd\u{4e16}\u{1f600}\n";
    assert_eq!(
        candidate_from_line(line.as_bytes()),
        Some("p\u{e4}ssw\u{f6}rd\u{4e16}\u{1f600}".as_bytes().to_vec())
    );
}

#[test]
fn a_line_that_is_not_text_gives_no_candidate() {
    assert_eq!(candidate_from_line(&[0xff, 0xfe, b'\n']), None);
    assert_eq!(candidate_from_line(&[b'a', 0x80, b'b']), None);
    assert_eq!(candidate_from_line(&[0xc3, b'\n']), None);
    assert_eq!(candidate_from_line(&[0xed, 0xa0, 0x80]), None);
    assert_eq!(candidate_from_line(&[0xc0, 0xaf, b'\r', b'\n']), None);
}
