use led_matrix::url::hex_digit;
use led_matrix::url_decode;

#[test]
fn plus_is_space() {
    assert_eq!(url_decode("HELLO+WORLD"), "HELLO WORLD");
}

#[test]
fn percent_escapes_decode() {
    assert_eq!(url_decode("%48%49%21"), "HI!");
    assert_eq!(url_decode("a%2Bb"), "a+b");
    assert_eq!(url_decode("%e9"), "\u{e9}");
}

#[test]
fn bad_escape_keeps_percent_and_drops_two_characters() {
    assert_eq!(url_decode("%zzAB"), "%AB");
    assert_eq!(url_decode("x%4"), "x%");
    assert_eq!(url_decode("%"), "%");
}

#[test]
fn plain_text_is_unchanged() {
    assert_eq!(url_decode(""), "");
    assert_eq!(url_decode("abc-123"), "abc-123");
}

#[test]
fn hex_digits() {
    assert_eq!(hex_digit('0'), Some(0));
    assert_eq!(hex_digit('9'), Some(9));
    assert_eq!(hex_digit('a'), Some(10));
    assert_eq!(hex_digit('F'), Some(15));
    assert_eq!(hex_digit('g'), None);
}
