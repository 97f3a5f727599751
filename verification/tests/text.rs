use tracking::text::{
    chars_of, decimal_text, field_bounds, find_from, index_of_from, is_blank, is_float_text,
    is_space, lines, matches_at, parse_u32, same_text, trim, trim_bounds,
};

fn chars(s: &str) -> Vec<char> {
    s.chars().collect()
}

#[test]
fn chars_of_keeps_every_character() {
    assert_eq!(chars_of(""), Vec::<char>::new());
    assert_eq!(chars_of("a\u{e9}\u{3000}z"), vec!['a', '\u{e9}', '\u{3000}', 'z']);
}

#[test]
fn is_space_is_the_white_space_property() {
    let mut c = 0u32;
    while c <= 0x10ffff {
        if let Some(ch) = char::from_u32(c) {
            assert_eq!(is_space(ch), ch.is_whitespace(), "U+{:04X}", c);
        }
        c += 1;
    }
}

#[test]
fn trim_takes_white_space_off_both_ends() {
    assert_eq!(trim("  ISS (ZARYA) \r\n"), "ISS (ZARYA)");
    assert_eq!(trim("ISS"), "ISS");
    assert_eq!(trim(""), "");
    assert_eq!(trim(" \t\r\n"), "");
    assert_eq!(trim("\u{a0}\u{2003}a b\u{3000}\u{85}"), "a b");
    assert_eq!(trim(" \u{e9}t\u{e9} "), "\u{e9}t\u{e9}");
    assert_eq!(trim("\u{200b}x\u{200b}"), "\u{200b}x\u{200b}");
}

#[test]
fn trim_agrees_with_std() {
    for s in ["", " ", "a", " a", "a ", " a ", "\n\na\tb\n\n", "\u{1680}x y\u{205f}", "  \u{feff} "] {
        assert_eq!(trim(s), s.trim());
        assert_eq!(is_blank(s), s.trim().is_empty());
    }
}

#[test]
fn trim_bounds_are_places_in_the_text() {
    assert_eq!(trim_bounds(&chars("  ab ")), (2, 4));
    assert_eq!(trim_bounds(&chars("ab")), (0, 2));
    assert_eq!(trim_bounds(&chars("   ")), (3, 3));
    assert_eq!(trim_bounds(&chars("")), (0, 0));
}

#[test]
fn is_blank_on_lines() {
    assert!(is_blank(""));
    assert!(is_blank("   \t"));
    assert!(is_blank("\r"));
    assert!(!is_blank(" 1 "));
}

#[test]
fn lines_splits_at_line_feeds() {
    assert_eq!(lines("a\nb\nc"), vec!["a", "b", "c"]);
    assert_eq!(lines("a\nb\nc\n"), vec!["a", "b", "c"]);
    assert_eq!(lines("a\r\nb\r\n"), vec!["a", "b"]);
    assert_eq!(lines(""), Vec::<String>::new());
    assert_eq!(lines("\n"), vec![""]);
    assert_eq!(lines("\n\n"), vec!["", ""]);
    assert_eq!(lines("a\n\nb"), vec!["a", "", "b"]);
    assert_eq!(lines("a\rb\nc\r"), vec!["a\rb", "c\r"]);
    assert_eq!(lines("\r\n\r\n"), vec!["", ""]);
    assert_eq!(lines("a\r\r\nb"), vec!["a\r", "b"]);
}

#[test]
fn lines_agrees_with_std() {
    for s in [
        "", "x", "x\n", "\nx", "x\r\n", "x\r", "\r", "\r\n", "\n\r", "a\n\n\nb", "a\r\n\r\nb\n",
        "ISS\n1 25544U\n2 25544\n", "\u{e9}\n\u{3000}\r\n",
    ] {
        let expected: Vec<String> = s.lines().map(|l| l.to_string()).collect();
        assert_eq!(lines(s), expected, "{:?}", s);
    }
}

#[test]
fn matches_at_compares_in_place() {
    let hay = chars("abcabc");
    assert!(matches_at(&hay, &chars("abc"), 0));
    assert!(matches_at(&hay, &chars("abc"), 3));
    assert!(!matches_at(&hay, &chars("abc"), 1));
    assert!(!matches_at(&hay, &chars("abc"), 4));
    assert!(matches_at(&hay, &chars(""), 6));
    assert!(!matches_at(&hay, &chars(""), 7));
    assert!(!matches_at(&hay, &chars("abcabcd"), 0));
}

#[test]
fn find_from_finds_the_first_place() {
    let hay = chars("xx\"mode\":\"FM\",\"mode\":\"CW\"");
    assert_eq!(find_from(&hay, &chars("\"mode\":\""), 0), Some(2));
    assert_eq!(find_from(&hay, &chars("\"mode\":\""), 2), Some(2));
    assert_eq!(find_from(&hay, &chars("\"mode\":\""), 3), Some(14));
    assert_eq!(find_from(&hay, &chars("\"mode\":\""), 15), None);
    assert_eq!(find_from(&hay, &chars("nothing"), 0), None);
    assert_eq!(find_from(&hay, &chars(""), 5), Some(5));
    assert_eq!(find_from(&hay, &chars(""), hay.len()), Some(hay.len()));
    assert_eq!(find_from(&hay, &chars(""), hay.len() + 1), None);
    assert_eq!(find_from(&chars(""), &chars("a"), 0), None);
    assert_eq!(find_from(&chars("aaa"), &chars("aa"), 1), Some(1));
}

#[test]
fn find_from_agrees_with_std() {
    for (hay, needle) in [("hello world", "o"), ("hello", "hello"), ("hello", "helloo"), ("aab", "ab"), ("", "")] {
        assert_eq!(find_from(&chars(hay), &chars(needle), 0), hay.find(needle));
    }
}

#[test]
fn index_of_from_stops_at_the_character() {
    let text = chars("a,b,c");
    assert_eq!(index_of_from(&text, ',', 0), 1);
    assert_eq!(index_of_from(&text, ',', 1), 1);
    assert_eq!(index_of_from(&text, ',', 2), 3);
    assert_eq!(index_of_from(&text, ',', 4), 5);
    assert_eq!(index_of_from(&text, ',', 5), 5);
}

#[test]
fn field_bounds_frame_the_text_after_a_key() {
    let text = chars("{\"a\":12,\"b\":\"xy\"}");
    assert_eq!(field_bounds(&text, "\"a\":", ','), Some((5, 7)));
    assert_eq!(field_bounds(&text, "\"b\":\"", '"'), Some((13, 15)));
    assert_eq!(field_bounds(&text, "\"c\":", ','), None);
    assert_eq!(field_bounds(&text, "\"b\":", ','), None);
}

#[test]
fn same_text_compares_characters() {
    assert!(same_text("", ""));
    assert!(same_text("AO-91", "AO-91"));
    assert!(!same_text("AO-91", "AO-9"));
    assert!(!same_text("AO-91", "ao-91"));
    assert!(!same_text("a", ""));
}

#[test]
fn decimal_text_writes_numbers() {
    assert_eq!(decimal_text(0), "0");
    assert_eq!(decimal_text(7), "7");
    assert_eq!(decimal_text(10), "10");
    assert_eq!(decimal_text(25544), "25544");
    assert_eq!(decimal_text(1_000_000), "1000000");
    assert_eq!(decimal_text(u32::MAX), "4294967295");
}

#[test]
fn parse_u32_reads_numbers() {
    assert_eq!(parse_u32("25544"), Some(25544));
    assert_eq!(parse_u32("0"), Some(0));
    assert_eq!(parse_u32("+7"), Some(7));
    assert_eq!(parse_u32("007"), Some(7));
    assert_eq!(parse_u32("4294967295"), Some(u32::MAX));
    assert_eq!(parse_u32("00000000000000000000042"), Some(42));
}

#[test]
fn parse_u32_rejects_what_is_no_number() {
    assert_eq!(parse_u32(""), None);
    assert_eq!(parse_u32("+"), None);
    assert_eq!(parse_u32("-"), None);
    assert_eq!(parse_u32("-1"), None);
    assert_eq!(parse_u32("-0"), None);
    assert_eq!(parse_u32("++1"), None);
    assert_eq!(parse_u32("1+"), None);
    assert_eq!(parse_u32(" 1"), None);
    assert_eq!(parse_u32("1 "), None);
    assert_eq!(parse_u32("12a"), None);
    assert_eq!(parse_u32("1.0"), None);
    assert_eq!(parse_u32("ISS"), None);
    assert_eq!(parse_u32("4294967296"), None);
    assert_eq!(parse_u32("99999999999999999999999999"), None);
    assert_eq!(parse_u32("\u{661}\u{662}"), None);
}

#[test]
fn parse_u32_agrees_with_std() {
    for s in ["", "+", "0", "+0", "-0", "1", "01", "4294967295", "4294967296", "42949672950", "1e3", "0x10", "+4294967295", "12345678901"] {
        assert_eq!(parse_u32(s), s.parse::<u32>().ok(), "{:?}", s);
    }
}

#[test]
fn float_text_is_a_signed_number_or_a_special_value() {
    for s in [
        "0", "1", "145800000", "3.14", "-3.14", "+3.14", "5.", ".5", "-.5", "+5.", "1e5", "1E5",
        "1e+5", "1e-5", "2.5E-3", ".5e1", "5.e1", "inf", "INF", "Inf", "-inf", "+inf", "infinity",
        "INFINITY", "-Infinity", "nan", "NaN", "NAN", "-nan", "+nan", "000", "0.0", "00.00e00",
        "1e0000000000000000000000001",
    ] {
        assert!(is_float_text(s), "{:?}", s);
    }
}

#[test]
fn float_text_is_nothing_else() {
    for s in [
        "", "+", "-", ".", "+.", "-.", "e", "e5", ".e5", "1e", "1e+", "1e-", "1e+-5", "1.5.2",
        "1 2", " 1", "1 ", "--1", "+-1", "1e5.0", "1e5e5", "0x10", "1_000", "1,5", "null", "true",
        "in", "infinit", "infinityy", "na", "nann", "i", "1f", "1.0f64", "1d", "\u{661}",
        "\u{130}nf", "in\u{17f}", "\u{ff11}", "1\u{a0}",
    ] {
        assert!(!is_float_text(s), "{:?}", s);
    }
}

#[test]
fn float_text_agrees_with_std() {
    let pieces = ["", "+", "-", "0", "12", ".", "e", "E", "inf", "nan", "infinity", "N", "a", " "];
    for a in pieces {
        for b in pieces {
            for c in pieces {
                for d in pieces {
                    let s = format!("{}{}{}{}", a, b, c, d);
                    assert_eq!(is_float_text(&s), s.parse::<f64>().is_ok(), "{:?}", s);
                }
            }
        }
    }
}
