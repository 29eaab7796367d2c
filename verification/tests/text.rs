use webpg::text::{chars_of, html_escape, decimal_i64, hex_digit, hex_lower_string, parse_i64, trim, white_space};

#[test]
fn trim_removes_outer_white_space() {
    assert_eq!(trim("  Write tests \t\n"), "Write tests");
    assert_eq!(trim("Ship feature"), "Ship feature");
    assert_eq!(trim("   "), "");
    assert_eq!(trim(""), "");
    assert_eq!(trim(" a b "), "a b");
}

#[test]
fn trim_matches_std_on_unicode_white_space() {
    let samples = [
        "\u{00a0}x\u{3000}",
        "\u{2028}\u{2029}y z\u{205f}",
        "\u{85}\u{1680}q\u{200a}",
        "\u{200b}kept\u{200b}",
        "\u{feff}also kept",
    ];
    for s in samples {
        assert_eq!(trim(s), s.trim());
    }
}

#[test]
fn trim_is_idempotent_on_examples() {
    for s in ["  x  ", "\t\ty", "z\r\n", "", "  "] {
        assert_eq!(trim(trim(s)), trim(s));
    }
}

#[test]
fn white_space_matches_std() {
    for u in 0u32..0x3100 {
        if let Some(c) = char::from_u32(u) {
            assert_eq!(white_space(c), c.is_whitespace(), "U+{u:04X}");
        }
    }
}

#[test]
fn chars_of_lists_characters() {
    assert_eq!(chars_of("héllo"), vec!['h', 'é', 'l', 'l', 'o']);
    assert_eq!(chars_of(""), Vec::<char>::new());
}

#[test]
fn parse_i64_accepts_what_std_accepts() {
    let samples = [
        "0", "1", "-1", "+7", "42", "007", "-0", "9223372036854775807", "-9223372036854775808",
        "9223372036854775808", "-9223372036854775809", "", "-", "+", "1a", " 1", "1 ", "1_000",
        "--1", "+-1", "99999999999999999999999",
    ];
    for s in samples {
        assert_eq!(parse_i64(s), s.parse::<i64>().ok(), "{s:?}");
    }
}

#[test]
fn parse_i64_exact_values() {
    assert_eq!(parse_i64("1"), Some(1));
    assert_eq!(parse_i64("-42"), Some(-42));
    assert_eq!(parse_i64("abc"), None);
    assert_eq!(parse_i64("-9223372036854775808"), Some(i64::MIN));
}

#[test]
fn decimal_i64_matches_display() {
    for v in [0i64, 1, 9, 10, 99, 100, -1, -10, 1234567890, i64::MAX, i64::MIN] {
        assert_eq!(decimal_i64(v), v.to_string());
    }
}

#[test]
fn decimal_reads_back() {
    for v in [0i64, 5, -5, 31337, i64::MAX, i64::MIN] {
        assert_eq!(parse_i64(&decimal_i64(v)), Some(v));
    }
}

#[test]
fn hex_lower_matches_format() {
    let bytes = [0x00u8, 0x0f, 0xa0, 0xff, 0x42];
    let expected: String = bytes.iter().map(|b| format!("{b:02x}")).collect();
    assert_eq!(hex_lower_string(&bytes), expected);
    assert_eq!(hex_lower_string(&[]), "");
    assert_eq!(hex_digit(11), 'b');
}

#[test]
fn html_escape_writes_entities() {
    assert_eq!(html_escape("<b>Tom & \"Jerry's\"</b>"), "&lt;b&gt;Tom &amp; &#34;Jerry&#39;s&#34;&lt;/b&gt;");
    assert_eq!(html_escape("plain é"), "plain é");
    assert_eq!(html_escape(""), "");
}
