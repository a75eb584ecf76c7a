use magic_vlsi::line::{take_line, LINE_FEED};

#[test]
fn line_feed_is_byte_ten() {
    assert_eq!(LINE_FEED, b'\n');
}

#[test]
fn take_line_without_line_feed() {
    assert_eq!(take_line(""), None);
    assert_eq!(take_line("ok"), None);
    assert_eq!(take_line("carriage\rreturn"), None);
}

#[test]
fn take_line_stops_at_the_first_line_feed() {
    assert_eq!(take_line("ok\n"), Some("ok"));
    assert_eq!(take_line("ok\nextra"), Some("ok"));
    assert_eq!(take_line("one\ntwo\nthree\n"), Some("one"));
}

#[test]
fn take_line_of_an_empty_line() {
    assert_eq!(take_line("\n"), Some(""));
    assert_eq!(take_line("\n\n"), Some(""));
    assert_eq!(take_line("\nrest"), Some(""));
}

#[test]
fn take_line_keeps_a_carriage_return() {
    assert_eq!(take_line("ok\r\n"), Some("ok\r"));
}

#[test]
fn take_line_with_characters_of_every_width() {
    assert_eq!(take_line("a\u{e9}\u{20ac}\u{1f600}\nz"), Some("a\u{e9}\u{20ac}\u{1f600}"));
    assert_eq!(take_line("\u{e9}\u{20ac}\u{1f600}"), None);
    assert_eq!(take_line("\u{10a}\u{a0a}\n"), Some("\u{10a}\u{a0a}"));
}
