use minimal::text::byte_len;
use minimal::text::char_width;

#[test]
fn char_width_is_the_utf8_width() {
    assert_eq!(char_width('\0'), 1);
    assert_eq!(char_width('a'), 1);
    assert_eq!(char_width('\u{7f}'), 1);
    assert_eq!(char_width('\u{80}'), 2);
    assert_eq!(char_width('é'), 2);
    assert_eq!(char_width('\u{7ff}'), 2);
    assert_eq!(char_width('\u{800}'), 3);
    assert_eq!(char_width('€'), 3);
    assert_eq!(char_width('\u{ffff}'), 3);
    assert_eq!(char_width('\u{10000}'), 4);
    assert_eq!(char_width('😀'), 4);
    assert_eq!(char_width('\u{10ffff}'), 4);
    for c in ['\0', '7', 'é', '\u{663}', '€', '😀'] {
        assert_eq!(char_width(c), c.len_utf8());
    }
}

#[test]
fn byte_len_counts_bytes_not_characters() {
    assert_eq!(byte_len(""), 0);
    assert_eq!(byte_len("123"), 3);
    assert_eq!(byte_len("é1"), 3);
    assert_eq!(byte_len("€😀"), 7);
    assert_eq!(byte_len("\0"), 1);
}
