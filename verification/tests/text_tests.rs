use alt_ime_rs::text::{digits_greater, tail_from, chars_of, find_chars, is_white_space_char, lex_greater_from, skip_white_space, wide};
use alt_ime_rs::wide as root_wide;

fn reference_wide(s: &str) -> Vec<u16> {
    s.encode_utf16().chain(std::iter::once(0)).collect()
}

#[test]
fn wide_matches_std_encoding() {
    for s in ["", "alt-ime-rs", "AltImeRsTray", "自動起動", "a😀b", "\u{FFFF}\u{10000}\u{10FFFF}", "x\0y"] {
        assert_eq!(wide(s), reference_wide(s), "{s:?}");
    }
}

#[test]
fn wide_is_null_terminated_ascii() {
    assert_eq!(wide("ab"), vec![0x61, 0x62, 0]);
    assert_eq!(wide(""), vec![0]);
    assert_eq!(root_wide("open"), reference_wide("open"));
}

#[test]
fn wide_surrogate_pair() {
    assert_eq!(wide("😀"), vec![0xD83D, 0xDE00, 0]);
}

#[test]
fn chars_of_keeps_order() {
    assert_eq!(chars_of("vあ1"), vec!['v', 'あ', '1']);
}

#[test]
fn white_space_agrees_with_std() {
    for v in 0u32..=0x10FFFF {
        if let Some(c) = char::from_u32(v) {
            assert_eq!(is_white_space_char(c), c.is_whitespace(), "U+{v:04X}");
        }
    }
}

#[test]
fn skip_white_space_stops_at_text() {
    let s = chars_of(" \t\u{3000}x y");
    assert_eq!(skip_white_space(&s, 0), 3);
    assert_eq!(skip_white_space(&s, 3), 3);
    assert_eq!(skip_white_space(&s, 4), 5);
    let t = chars_of("   ");
    assert_eq!(skip_white_space(&t, 0), 3);
}

#[test]
fn find_chars_first_occurrence() {
    let s = chars_of("abcabc");
    let p = chars_of("bc");
    assert_eq!(find_chars(&s, &p, 0), Some(1));
    assert_eq!(find_chars(&s, &p, 2), Some(4));
    assert_eq!(find_chars(&s, &p, 5), None);
    assert_eq!(find_chars(&s, &chars_of("x"), 0), None);
}

#[test]
fn lex_order_matches_str_order() {
    let words = ["", "0.1.0", "2026.07.04", "2026.07.04.1", "2026.07.05", "2025.12.31", "v2026", "é", "z", "😀", "\u{FFFF}"];
    for a in words {
        for b in words {
            let ac = chars_of(a);
            let bc = chars_of(b);
            assert_eq!(lex_greater_from(&ac, 0, &bc), a > b, "{a:?} > {b:?}");
        }
    }
    let ac = chars_of("v2026.07.05");
    assert!(lex_greater_from(&ac, 1, &chars_of("2026.07.04")));
}

#[test]
fn digit_strings_compare_as_numbers() {
    let n = |s: &str| chars_of(s);
    assert!(digits_greater(&n("10"), &n("9")));
    assert!(!digits_greater(&n("9"), &n("10")));
    assert!(!digits_greater(&n("010"), &n("10")));
    assert!(digits_greater(&n("011"), &n("10")));
    assert!(!digits_greater(&n(""), &n("0")));
    assert!(digits_greater(&n("1"), &n("")));
    for a in 0u32..120 {
        for b in 0u32..120 {
            assert_eq!(digits_greater(&n(&a.to_string()), &n(&format!("{:03}", b))), a > b);
        }
    }
}

#[test]
fn tail_copies_from_position() {
    let v = chars_of("v1.2");
    assert_eq!(tail_from(&v, 1), chars_of("1.2"));
    assert_eq!(tail_from(&v, 4), Vec::<char>::new());
}
