use ip_report::text::{
    comes_before, decimal_text, from_chars, has, index_of, last_index_of, line_list, only_digits,
    parse_u64, pieces, space, to_chars, to_lower, trimmed, trimmed_end, word,
};
use ip_report::wording::{format_bytes, truncate_str};

#[test]
fn test_format_bytes() {
    assert_eq!(format_bytes(0), "0 B");
    assert_eq!(format_bytes(512), "512 B");
    assert_eq!(format_bytes(1023), "1023 B");
    assert_eq!(format_bytes(1024), "1.0 KB");
    assert_eq!(format_bytes(1536), "1.5 KB");
    assert_eq!(format_bytes(1048576), "1.0 MB");
    assert_eq!(format_bytes(1073741824), "1.0 GB");
    assert_eq!(format_bytes(1099511627776), "1.0 TB");
    assert_eq!(format_bytes(2199023255552), "2.0 TB");
}

fn by_floating_point(bytes: u64) -> String {
    const KB: u64 = 1024;
    const MB: u64 = 1024 * KB;
    const GB: u64 = 1024 * MB;
    const TB: u64 = 1024 * GB;
    if bytes >= TB {
        format!("{:.1} TB", bytes as f64 / TB as f64)
    } else if bytes >= GB {
        format!("{:.1} GB", bytes as f64 / GB as f64)
    } else if bytes >= MB {
        format!("{:.1} MB", bytes as f64 / MB as f64)
    } else if bytes >= KB {
        format!("{:.1} KB", bytes as f64 / KB as f64)
    } else {
        format!("{} B", bytes)
    }
}

#[test]
fn sizes_are_those_of_floating_point() {
    for n in 0..200_000u64 {
        assert_eq!(format_bytes(n), by_floating_point(n));
    }
    let mut x: u64 = 0x9e37_79b9_7f4a_7c15;
    for i in 0..200_000u32 {
        x ^= x << 13;
        x ^= x >> 7;
        x ^= x << 17;
        let n = x >> (i % 64);
        assert_eq!(format_bytes(n), by_floating_point(n));
    }
    for k in 10..64u32 {
        for d in 0..2000u64 {
            let base = 1u64 << k;
            assert_eq!(format_bytes(base + d), by_floating_point(base + d));
            assert_eq!(format_bytes(base - d), by_floating_point(base - d));
            let mid = base + base / 20 * (d % 20);
            assert_eq!(format_bytes(mid), by_floating_point(mid));
        }
    }
    for d in 0..5000u64 {
        assert_eq!(format_bytes(u64::MAX - d), by_floating_point(u64::MAX - d));
    }
    assert_eq!(format_bytes(u64::MAX), "16777216.0 TB");
}

#[test]
fn ties_go_to_the_even_tenth() {
    // 1.25 KB and 1.75 KB lie in the middle of two tenths.
    assert_eq!(format_bytes(1280), "1.2 KB");
    assert_eq!(format_bytes(1792), "1.8 KB");
    // Just below the next unit.
    assert_eq!(format_bytes(1048575), "1024.0 KB");
}

#[test]
fn texts_are_cut() {
    assert_eq!(truncate_str("hello", 5), "hello");
    assert_eq!(truncate_str("hello", 6), "hello");
    assert_eq!(truncate_str("hello", 4), "hel…");
    assert_eq!(truncate_str("hello", 1), "…");
    assert_eq!(truncate_str("hello", 0), "…");
    assert_eq!(truncate_str("", 0), "");
    assert_eq!(truncate_str("äöü", 2), "ä…");
    for max in 1..8 {
        assert!(truncate_str("a longer text", max).chars().count() <= max);
    }
}

#[test]
fn white_space_is_that_of_unicode() {
    for n in 0..0x11_0000u32 {
        if let Some(c) = char::from_u32(n) {
            assert_eq!(space(c), c.is_whitespace());
        }
    }
}

fn strings(v: Vec<&[char]>) -> Vec<String> {
    v.into_iter().map(from_chars).collect()
}

#[test]
fn splitting_is_that_of_str() {
    for s in ["", ",", "a,b", ",a,,b,", "a||b|c", "||", "|||", "äöü,ß", "a\nb"] {
        for d in [",", "|", "||", "", "x", "ö"] {
            let expected: Vec<String> = s.split(d).map(|p| p.to_string()).collect();
            assert_eq!(strings(pieces(&to_chars(s), &to_chars(d))), expected);
        }
    }
}

#[test]
fn lines_are_those_of_str() {
    for s in ["", "\n", "a", "a\n", "a\r\nb", "a\rb\r", "\r\n\r\n", "a\n\nb\n", "x\r\r\n"] {
        let expected: Vec<String> = s.lines().map(|p| p.to_string()).collect();
        assert_eq!(strings(line_list(&to_chars(s))), expected);
    }
}

#[test]
fn trimming_is_that_of_str() {
    for s in ["", " ", " a ", "a b", "\t a\u{a0}", "\u{3000}x\u{2028}", "a\n"] {
        let chars = to_chars(s);
        assert_eq!(from_chars(trimmed(&chars)), s.trim());
        assert_eq!(from_chars(trimmed_end(&chars)), s.trim_end());
        assert_eq!(
            from_chars(word(&chars)),
            s.split_whitespace().next().unwrap_or("")
        );
    }
}

#[test]
fn searching_is_that_of_str() {
    for s in ["", "a", "banana", "aab", "x\"y\"z"] {
        for p in ["", "a", "an", "ana", "aab", "\"", "zz"] {
            let chars = to_chars(s);
            assert_eq!(index_of(&chars, &to_chars(p)), s.find(p));
            assert_eq!(has(&chars, &to_chars(p)), s.contains(p));
        }
        assert_eq!(last_index_of(&to_chars(s), 'a'), s.rfind('a'));
        assert_eq!(last_index_of(&to_chars(s), '"'), s.rfind('"'));
    }
}

#[test]
fn numbers_are_those_of_str() {
    for s in [
        "", "0", "7", "+7", "-7", "007", " 7", "7 ", "1_0", "18446744073709551615",
        "18446744073709551616", "99999999999999999999", "+", "+-1", "٣",
    ] {
        assert_eq!(parse_u64(&to_chars(s)), s.parse::<u64>().ok());
        assert_eq!(
            only_digits(&to_chars(s)),
            s.chars().all(|c| c.is_ascii_digit())
        );
    }
    for n in [0u64, 9, 10, 99, 100, 12345, u64::MAX] {
        assert_eq!(decimal_text(n), n.to_string());
        assert_eq!(parse_u64(&to_chars(&decimal_text(n))), Some(n));
    }
}

#[test]
fn order_is_that_of_str() {
    let words = ["", "a", "aa", "ab", "b", "B", "ä", "z", "10.0.0.2", "10.0.0.10", "\u{10000}", "\u{ffff}"];
    for a in words {
        for b in words {
            assert_eq!(comes_before(&to_chars(a), &to_chars(b)), a <= b);
        }
    }
}

#[test]
fn lower_case_is_that_of_str() {
    for s in ["", "ABC xyz 123", "ÄÖÜ", "İ", "ΑΣ", "@[`{"] {
        assert_eq!(to_lower(s), s.to_lowercase());
    }
    for n in 0..128u8 {
        let s = (n as char).to_string();
        assert_eq!(to_lower(&s), s.to_lowercase());
    }
}
