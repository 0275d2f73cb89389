use hyprlauncher::text::{is_control, is_whitespace};

#[test]
fn whitespace_table_matches_std_for_every_character() {
    for code in 0u32..=0x10FFFF {
        if let Some(c) = char::from_u32(code) {
            assert_eq!(is_whitespace(c), c.is_whitespace(), "U+{code:04X}");
        }
    }
}

#[test]
fn control_table_matches_std_for_every_character() {
    for code in 0u32..=0x10FFFF {
        if let Some(c) = char::from_u32(code) {
            assert_eq!(is_control(c), c.is_control(), "U+{code:04X}");
        }
    }
}
