use orochi::text::{
    chars_ignoring_case, chars_of, parse_u16, push_decimal, same_text, starts_with, string_of,
    trimmed,
};

fn written(n: u64) -> String {
    let mut s = String::from("<");
    push_decimal(&mut s, n);
    s
}

#[test]
fn characters_and_strings_convert() {
    assert_eq!(chars_of("aé\u{1F600}"), vec!['a', 'é', '\u{1F600}']);
    assert_eq!(string_of(&['x', 'ß', '\u{1F600}']), "xß\u{1F600}");
    assert_eq!(string_of(&[]), "");
}

#[test]
fn texts_compare() {
    assert!(same_text("clip", "clip"));
    assert!(!same_text("clip", "clap"));
    assert!(!same_text("clip", "clips"));
    assert!(same_text("", ""));
}

#[test]
fn prefixes_are_found() {
    assert!(starts_with("/ingest?x=1", "/ingest"));
    assert!(starts_with("/ingest", "/ingest"));
    assert!(!starts_with("/inges", "/ingest"));
    assert!(!starts_with("x/ingest", "/ingest"));
    assert!(starts_with("anything", ""));
}

#[test]
fn case_of_ascii_letters_is_ignored() {
    assert!(chars_ignoring_case(&['A', 'z', '-'], &['a', 'Z', '-']));
    assert!(!chars_ignoring_case(&['É'], &['é']));
    assert!(!chars_ignoring_case(&['a'], &['a', 'b']));
    assert!(!chars_ignoring_case(&['@'], &['`']));
}

#[test]
fn white_space_is_trimmed_like_std_does() {
    for s in [
        "",
        "   ",
        " a b ",
        "\t\r\nx\u{b}\u{c}",
        "\u{85}\u{a0}\u{1680}y\u{2000}\u{200a}\u{2028}\u{2029}\u{202f}\u{205f}\u{3000}",
        "\u{200b}z\u{200b}",
        "\u{feff}q",
    ] {
        assert_eq!(trimmed(s), s.trim());
    }
}

#[test]
fn every_white_space_character_is_trimmed() {
    for n in 0u32..=0x10FFFF {
        if let Some(c) = char::from_u32(n) {
            if c.is_whitespace() {
                assert_eq!(trimmed(&format!("{}k{}", c, c)), "k");
            }
        }
    }
    assert_eq!(trimmed("\u{180e}k"), "\u{180e}k");
}

#[test]
fn numbers_are_written_in_decimal() {
    assert_eq!(written(0), "<0");
    assert_eq!(written(9), "<9");
    assert_eq!(written(10), "<10");
    assert_eq!(written(47800), "<47800");
    assert_eq!(written(u64::MAX), "<18446744073709551615");
}

#[test]
fn numbers_are_read_like_std_does() {
    for s in [
        "47800", "0", "65535", "65536", "99999999999999999999", "+1", "+", "-1", "-0", "", " 1",
        "1 ", "1a", "00080", "++1", "+00000000000000007", "\u{661}",
    ] {
        assert_eq!(parse_u16(s), s.parse::<u16>().ok());
    }
    assert_eq!(parse_u16("47800"), Some(47800));
    assert_eq!(parse_u16("65536"), None);
}

#[test]
fn written_numbers_read_back() {
    for n in 0u16..=65535 {
        let mut s = String::new();
        push_decimal(&mut s, n as u64);
        assert_eq!(parse_u16(&s), Some(n));
    }
}
