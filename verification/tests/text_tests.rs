use typo_compiler::text::{chars_of, find, str_eq, trim_str, trimmed_lines};

#[test]
fn trim_removes_ascii_and_unicode_whitespace() {
    assert_eq!(trim_str("  a b \n"), "a b");
    assert_eq!(trim_str("\u{3000}x\u{A0}"), "x");
    assert_eq!(trim_str(" \t\r\n "), "");
    assert_eq!(trim_str("\u{200B}x"), "\u{200B}x");
}

#[test]
fn find_gives_first_occurrence_in_characters() {
    let hay = chars_of("abcabc");
    assert_eq!(find(&hay, &chars_of("ca")), Some(2));
    assert_eq!(find(&hay, &chars_of("bc")), Some(1));
    assert_eq!(find(&hay, &chars_of("x")), None);
    assert_eq!(find(&hay, &chars_of("")), Some(0));
    assert_eq!(find(&chars_of("é-é"), &chars_of("é")), Some(0));
    assert_eq!(find(&chars_of("ab"), &chars_of("abc")), None);
}

#[test]
fn trimmed_lines_follow_str_lines() {
    assert_eq!(trimmed_lines("a\r\nb\n\n c \n"), vec!["a", "b", "", "c"]);
    assert_eq!(trimmed_lines(""), Vec::<String>::new());
    assert_eq!(trimmed_lines("\n"), vec![""]);
    assert_eq!(trimmed_lines("x"), vec!["x"]);
}

#[test]
fn str_eq_compares_characters() {
    assert!(str_eq("AllRight", "AllRight"));
    assert!(!str_eq("AllRight", "Allright"));
    assert!(!str_eq("All", "AllRight"));
}

#[test]
fn white_space_is_exactly_the_listed_code_points() {
    for u in 0u32..=0x10FFFF {
        if let Some(c) = char::from_u32(u) {
            let listed = matches!(
                u,
                0x09..=0x0D | 0x20 | 0x85 | 0xA0 | 0x1680 | 0x2000..=0x200A | 0x2028 | 0x2029 | 0x202F | 0x205F | 0x3000
            );
            assert_eq!(c.is_whitespace(), listed, "code point {u:#x}");
        }
    }
    assert_eq!(trim_str("\u{85}\u{1680}a\u{2028}\u{205F}"), "a");
    assert_eq!(trim_str("\u{180E}a"), "\u{180E}a");
}
