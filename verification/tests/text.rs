use llama_tray::text::{chars_of, decimal_chars, is_whitespace, parse_u16, signed_decimal_chars, str_lt, string_of, trim_str};

#[test]
fn whitespace_matches_std() {
    for u in 0u32..=0x10FFFF {
        if let Some(c) = char::from_u32(u) {
            assert_eq!(is_whitespace(c), c.is_whitespace(), "char {:#x}", u);
        }
    }
}

#[test]
fn trim_matches_std() {
    for s in ["", "  ", " a ", "\u{3000}x y\u{2028}", "ab", "\t\n a\u{85}"] {
        assert_eq!(trim_str(s), s.trim());
    }
}

#[test]
fn chars_roundtrip() {
    let s = "привет, мир — ok";
    assert_eq!(string_of(&chars_of(s)), s);
}

#[test]
fn parse_u16_matches_std() {
    for s in ["", "+", "-", "-0", "0", "+0", "65535", "65536", "0065535", "1a", " 1", "+12", "++1", "99999999999", "080"] {
        let v = chars_of(s);
        assert_eq!(parse_u16(&v), s.parse::<u16>().ok(), "input {:?}", s);
    }
}

#[test]
fn decimal_matches_display() {
    for n in [0u64, 7, 10, 99, 100, 8080, 65535, u64::MAX] {
        assert_eq!(string_of(&decimal_chars(n)), n.to_string());
    }
    for i in [0i64, -1, 1, -255, 2147483647, -2147483648, i64::MAX] {
        assert_eq!(string_of(&signed_decimal_chars(i)), i.to_string());
    }
}

#[test]
fn port_written_then_parsed() {
    for p in [0u16, 1, 80, 8080, 65535] {
        let d = decimal_chars(p as u64);
        assert_eq!(parse_u16(&d), Some(p));
    }
}

#[test]
fn order_matches_string_ord() {
    let words = ["", "a", "ab", "b", "(root)", "Z", "é", "a/b", "a0"];
    for a in words {
        for b in words {
            assert_eq!(str_lt(a, b), a < b, "{:?} {:?}", a, b);
        }
    }
}
