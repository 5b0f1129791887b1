use voice_input::text::{decimal_string, is_whitespace, trim};

#[test]
fn whitespace_matches_std_on_every_char() {
    for u in 0..=0x10FFFFu32 {
        if let Some(c) = char::from_u32(u) {
            assert_eq!(is_whitespace(c), c.is_whitespace(), "U+{:04X}", u);
        }
    }
}

#[test]
fn trim_matches_std() {
    let cases = [
        "", " ", "a", " a", "a ", "  a b  ", "\t\n x \r", "\u{3000}全角\u{3000}", "\u{85}x\u{a0}",
        "\u{200b}x\u{200b}", "  \n\t  ",
    ];
    for s in cases.iter() {
        assert_eq!(trim(s), s.trim());
    }
}

#[test]
fn decimals() {
    for n in [0usize, 1, 9, 10, 11, 99, 100, 12345, usize::MAX] {
        assert_eq!(decimal_string(n), n.to_string());
    }
}
