use csv_ingest::text::{chars_of, is_key, same_text, trimmed, without_line_feeds};

const WHITE_SPACE: [char; 25] = [
    '\u{9}', '\u{A}', '\u{B}', '\u{C}', '\u{D}', ' ', '\u{85}', '\u{A0}', '\u{1680}', '\u{2000}',
    '\u{2001}', '\u{2002}', '\u{2003}', '\u{2004}', '\u{2005}', '\u{2006}', '\u{2007}',
    '\u{2008}', '\u{2009}', '\u{200A}', '\u{2028}', '\u{2029}', '\u{202F}', '\u{205F}',
    '\u{3000}',
];

#[test]
fn trimmed_cuts_both_ends() {
    assert_eq!(trimmed("  PASS \t"), "PASS");
    assert_eq!(trimmed("a b"), "a b");
    assert_eq!(trimmed(" \n "), "");
    assert_eq!(trimmed(""), "");
    assert_eq!(trimmed("\u{3000}合格\u{A0}"), "合格");
}

#[test]
fn trimmed_agrees_with_std_on_every_white_space_character() {
    for c in WHITE_SPACE {
        assert!(c.is_whitespace());
        let s = format!("{c}x{c}y{c}");
        assert_eq!(trimmed(&s), s.trim());
        assert_eq!(trimmed(&s), format!("x{c}y"));
    }
}

#[test]
fn trimmed_keeps_what_is_no_white_space() {
    for c in ['\u{200B}', '\u{180E}', '\u{FEFF}', '\u{1F}', '\u{0}', '\u{2060}', '\u{200C}'] {
        assert!(!c.is_whitespace());
        let s = format!("{c}x{c}");
        assert_eq!(trimmed(&s), s.trim());
        assert_eq!(trimmed(&s), s);
    }
}

#[test]
fn trimmed_agrees_with_std_on_all_characters() {
    let mut c = 0u32;
    while c <= 0x10FFFF {
        if let Some(ch) = char::from_u32(c) {
            let s = format!("{ch}");
            assert_eq!(trimmed(&s).is_empty(), s.trim().is_empty(), "U+{c:04X}");
        }
        c += 1;
    }
}

#[test]
fn is_key_folds_case_and_trims() {
    assert!(is_key("SN", "sn"));
    assert!(is_key(" Sn\t", "sn"));
    assert!(is_key("datetime", "datetime"));
    assert!(is_key("  DateTime  ", "datetime"));
    assert!(is_key("RESULT", "result"));
    assert!(!is_key("S N", "sn"));
    assert!(!is_key("sna", "sn"));
    assert!(!is_key("s", "sn"));
    assert!(!is_key("", "sn"));
    assert!(is_key("", ""));
    // Only ASCII letters are folded: the Kelvin sign is no `k`.
    assert!(!is_key("\u{212A}", "k"));
    assert!(!is_key("É", "é"));
}

#[test]
fn is_key_does_not_fold_the_key() {
    assert!(!is_key("sn", "SN"));
    assert!(!is_key("`", "@"));
    assert!(is_key("@", "@"));
    assert!(!is_key("[", "{"));
}

#[test]
fn without_line_feeds_cuts_only_trailing_line_feeds() {
    assert_eq!(without_line_feeds("a,b\n"), "a,b");
    assert_eq!(without_line_feeds("a,b\n\n\n"), "a,b");
    assert_eq!(without_line_feeds("a\nb"), "a\nb");
    assert_eq!(without_line_feeds("a,b\r\n"), "a,b\r");
    assert_eq!(without_line_feeds("\n"), "");
    assert_eq!(without_line_feeds(""), "");
    assert_eq!(without_line_feeds("a \n"), "a ");
    assert_eq!(without_line_feeds("值\n"), "值");
}

#[test]
fn same_text_compares_character_for_character() {
    assert!(same_text("", ""));
    assert!(same_text("abc", "abc"));
    assert!(!same_text("abc", "abd"));
    assert!(!same_text("abc", "ab"));
    assert!(!same_text("ab", "abc"));
    assert!(same_text("合格", "合格"));
    assert!(!same_text("合格", "合"));
}

#[test]
fn chars_of_lists_the_characters() {
    assert_eq!(chars_of("a合b"), vec!['a', '合', 'b']);
    assert_eq!(chars_of(""), Vec::<char>::new());
}
