use ue4ss_installer::lines::{copy_range, find_byte, join_lines, split_lines, LINE_FEED};

fn split(text: &str) -> Vec<String> {
    split_lines(text.as_bytes())
        .into_iter()
        .map(|line| String::from_utf8(line).unwrap())
        .collect()
}

#[test]
fn a_text_has_a_line_more_than_line_feeds() {
    assert_eq!(split(""), vec![""]);
    assert_eq!(split("a"), vec!["a"]);
    assert_eq!(split("a\n"), vec!["a", ""]);
    assert_eq!(split("a\nb"), vec!["a", "b"]);
    assert_eq!(split("\n\n"), vec!["", "", ""]);
    assert_eq!(split("a\r\nb\r\n"), vec!["a\r", "b\r", ""]);
}

#[test]
fn joining_puts_a_line_feed_between_lines() {
    assert_eq!(join_lines(&vec![]), b"".to_vec());
    assert_eq!(join_lines(&vec![b"a".to_vec()]), b"a".to_vec());
    assert_eq!(join_lines(&vec![b"a".to_vec(), b"".to_vec()]), b"a\n".to_vec());
    assert_eq!(join_lines(&vec![b"".to_vec(), b"b".to_vec(), b"c".to_vec()]), b"\nb\nc".to_vec());
}

#[test]
fn joining_the_lines_of_a_text_gives_the_text() {
    for text in ["", "\n", "a", "a\nb", "a\nb\n", "\n\na\n\n", "\r\n\r\n", "one line, no end"] {
        assert_eq!(join_lines(&split_lines(text.as_bytes())), text.as_bytes().to_vec());
    }
}

#[test]
fn the_first_byte_is_found_from_a_place_on() {
    assert_eq!(find_byte(b"a\nb\nc", LINE_FEED, 0), 1);
    assert_eq!(find_byte(b"a\nb\nc", LINE_FEED, 1), 1);
    assert_eq!(find_byte(b"a\nb\nc", LINE_FEED, 2), 3);
    assert_eq!(find_byte(b"a\nb\nc", LINE_FEED, 4), 5);
    assert_eq!(find_byte(b"a\nb\nc", LINE_FEED, 5), 5);
    assert_eq!(find_byte(b"", LINE_FEED, 0), 0);
}

#[test]
fn a_range_is_copied() {
    assert_eq!(copy_range(b"hello", 1, 3), b"el".to_vec());
    assert_eq!(copy_range(b"hello", 0, 5), b"hello".to_vec());
    assert_eq!(copy_range(b"hello", 5, 5), b"".to_vec());
}
