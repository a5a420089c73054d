use chat_relay::text::{char_is_whitespace, clean, join, normalize, strip_nul, trim};

#[test]
fn whitespace_agrees_with_std_on_every_char() {
    let mut code: u32 = 0;
    while code <= 0x10FFFF {
        if let Some(c) = char::from_u32(code) {
            assert_eq!(char_is_whitespace(c), c.is_whitespace(), "U+{:04X}", code);
        }
        code += 1;
    }
}

#[test]
fn whitespace_named_characters() {
    assert!(char_is_whitespace(' '));
    assert!(char_is_whitespace('\t'));
    assert!(char_is_whitespace('\n'));
    assert!(char_is_whitespace('\r'));
    assert!(char_is_whitespace('\u{0B}'));
    assert!(char_is_whitespace('\u{0C}'));
    assert!(char_is_whitespace('\u{85}'));
    assert!(char_is_whitespace('\u{A0}'));
    assert!(char_is_whitespace('\u{1680}'));
    assert!(char_is_whitespace('\u{2000}'));
    assert!(char_is_whitespace('\u{200A}'));
    assert!(char_is_whitespace('\u{2028}'));
    assert!(char_is_whitespace('\u{2029}'));
    assert!(char_is_whitespace('\u{202F}'));
    assert!(char_is_whitespace('\u{205F}'));
    assert!(char_is_whitespace('\u{3000}'));
    assert!(!char_is_whitespace('\0'));
    assert!(!char_is_whitespace('a'));
    assert!(!char_is_whitespace('/'));
    assert!(!char_is_whitespace('\u{200B}'));
    assert!(!char_is_whitespace('\u{180E}'));
    assert!(!char_is_whitespace('\u{FFFD}'));
}

#[test]
fn trim_removes_surrounding_whitespace_only() {
    assert_eq!(trim("  alice \n"), "alice");
    assert_eq!(trim("alice"), "alice");
    assert_eq!(trim(""), "");
    assert_eq!(trim("   \t\r\n"), "");
    assert_eq!(trim(" a b "), "a b");
    assert_eq!(trim("\u{A0}x\u{3000}"), "x");
    assert_eq!(trim("\0 a \0"), "\0 a \0");
}

#[test]
fn trim_agrees_with_std() {
    let samples = [
        "",
        " ",
        "a",
        " a",
        "a ",
        "  hello   world  ",
        "\n\t/dm bob hi\r\n",
        "\u{2003}wide\u{2003}",
        "no-space",
        " \0 ",
        "日本語 ",
    ];
    for s in samples.iter() {
        assert_eq!(trim(s), s.trim());
    }
}

#[test]
fn trim_is_idempotent() {
    let once = trim("  a  b  ");
    let twice = trim(&once);
    assert_eq!(once, twice);
}

#[test]
fn strip_nul_drops_every_nul() {
    assert_eq!(strip_nul("a\0b\0"), "ab");
    assert_eq!(strip_nul("\0\0\0"), "");
    assert_eq!(strip_nul("plain"), "plain");
    assert_eq!(strip_nul(""), "");
    assert_eq!(strip_nul("a \0 b"), "a  b");
}

#[test]
fn clean_trims_before_it_strips() {
    assert_eq!(clean(" \0 alice"), " alice");
    assert_eq!(clean("alice \0\0"), "alice ");
    assert_eq!(clean("  alice  "), "alice");
    assert_eq!(clean("al\0ice"), "alice");
    assert_eq!(clean("   "), "");
}

#[test]
fn normalize_decodes_then_cleans() {
    assert_eq!(normalize(b"alice\n"), "alice");
    assert_eq!(normalize(b"  /dm bob hi \r\n"), "/dm bob hi");
    assert_eq!(normalize(b"bob\0\0\0"), "bob");
    assert_eq!(normalize(b"   "), "");
    assert_eq!(normalize(b""), "");
    assert_eq!(normalize("gr\u{FC}\u{DF}e".as_bytes()), "gr\u{FC}\u{DF}e");
}

#[test]
fn normalize_replaces_ill_formed_bytes() {
    assert_eq!(normalize(b"al\xFFice"), "al\u{FFFD}ice");
    assert_eq!(normalize(b"\xC3"), "\u{FFFD}");
    assert_eq!(normalize(b"a\xF0\x9F\x92b"), "a\u{FFFD}b");
    assert_eq!(normalize(&[0xE2, 0x82, 0xAC]), "\u{20AC}");
}

#[test]
fn normalize_trims_unicode_whitespace() {
    assert_eq!(normalize("\u{A0}alice\u{2003}".as_bytes()), "alice");
}

#[test]
fn join_puts_the_separator_between_neighbours() {
    let none: Vec<String> = Vec::new();
    assert_eq!(join(&none, ", "), "");
    assert_eq!(join(&vec!["alice".to_string()], ", "), "alice");
    assert_eq!(join(&vec!["alice".to_string(), "bob".to_string()], ", "), "alice, bob");
    assert_eq!(
        join(&vec!["a".to_string(), "".to_string(), "c".to_string()], "-"),
        "a--c"
    );
    let parts = vec!["x".to_string(), "y".to_string(), "z".to_string()];
    assert_eq!(join(&parts, ""), "xyz");
    assert_eq!(join(&parts, ", "), parts.join(", "));
}
