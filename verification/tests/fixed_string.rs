use ser_file::FixedString;

fn padded(text: &str, n: usize) -> String {
    let mut s = text.to_string();
    while s.len() < n {
        s.push(' ');
    }
    s
}

#[test]
fn default_text_is_all_zero_bytes() {
    let s: FixedString<40> = FixedString::default();
    assert_eq!(s.to_display_string(), "\0".repeat(40));
}

#[test]
fn from_string_keeps_the_first_bytes() {
    let s: FixedString<8> = FixedString::from_string("Telescope".to_string());
    assert_eq!(s.into_string(), "Telescop");
}

#[test]
fn padded_name_reads_back() {
    let name = padded("Observer", 40);
    let s: FixedString<40> = FixedString::from_string(name.clone());
    assert_eq!(s.to_display_string(), name);
    assert_eq!(s.into_string(), name);
}

#[test]
fn invalid_utf8_is_replaced() {
    // "é" is two bytes; cutting after its first byte leaves invalid UTF-8.
    let s: FixedString<2> = FixedString::from_string("aé".to_string());
    assert_eq!(s.to_display_string(), "a\u{FFFD}");
}

#[test]
fn short_text_is_padded_with_zeros() {
    let s: FixedString<6> = FixedString::from_string("Me".to_string());
    assert_eq!(s.into_string(), "Me\0\0\0\0");
    let s: FixedString<3> = FixedString::from_string(String::new());
    assert_eq!(s.to_display_string(), "\0\0\0");
}
