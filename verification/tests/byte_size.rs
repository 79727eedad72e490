use openraft::can_read_unit;
use openraft::parse_bytes_with_unit;
use openraft::ConfigError;

fn size(src: &str) -> u64 {
    assert!(can_read_unit(src));
    parse_bytes_with_unit(src).unwrap()
}

fn reason(src: &str) -> String {
    assert!(can_read_unit(src));
    match parse_bytes_with_unit(src) {
        Err(ConfigError::InvalidNumber { invalid, reason }) => {
            assert_eq!(invalid, src);
            reason
        }
        other => panic!("{}: {:?}", src, other),
    }
}

#[test]
fn human_readable_forms() {
    assert_eq!(size("204"), 204);
    assert_eq!(size("3MiB"), 3 * 1024 * 1024);
    assert_eq!(size("50.84 MB"), 50_840_000);
    assert_eq!(size("8 bit"), 1);
    assert_eq!(size("16 kbit"), 2000);
    assert_eq!(size("1 Mb"), 125_000);
}

#[test]
fn every_unit() {
    assert_eq!(size("1"), 1);
    assert_eq!(size("1B"), 1);
    for (prefix, factor) in [
        ("k", 1_000),
        ("m", 1_000_000),
        ("g", 1_000_000_000),
        ("t", 1_000_000_000_000),
        ("p", 1_000_000_000_000_000),
        ("e", 1_000_000_000_000_000_000),
        ("ki", 1_u64 << 10),
        ("mi", 1 << 20),
        ("gi", 1 << 30),
        ("ti", 1 << 40),
        ("pi", 1 << 50),
        ("ei", 1 << 60),
    ] {
        for prefix in [prefix.to_string(), prefix.to_uppercase()] {
            assert_eq!(size(&format!("7{}", prefix)), 7 * factor);
            assert_eq!(size(&format!("7{}B", prefix)), 7 * factor);
            assert_eq!(size(&format!("16 {}b", prefix)), 2 * factor);
            assert_eq!(size(&format!("16{}bit", prefix)), 2 * factor);
            assert_eq!(size(&format!("16{}BIT", prefix)), 2 * factor);
            assert_eq!(size(&format!("16{}BiT", prefix)), 2 * factor);
        }
    }
    assert_eq!(size("16 b"), 2);
    assert_eq!(size("16 Bit"), 2);
}

#[test]
fn sizes_are_rounded_up() {
    assert_eq!(size("0"), 0);
    assert_eq!(size("0.0"), 0);
    assert_eq!(size("0bit"), 0);
    assert_eq!(size("1bit"), 1);
    assert_eq!(size("8bit"), 1);
    assert_eq!(size("9bit"), 2);
    assert_eq!(size("0.1"), 1);
    assert_eq!(size("1.0"), 1);
    assert_eq!(size("1.000000001"), 2);
    assert_eq!(size("0.0001kB"), 1);
    assert_eq!(size("1.0015 kB"), 1002);
    assert_eq!(size("0.5 KiB"), 512);
    assert_eq!(size("0.3 KiB"), 308);
    assert_eq!(size("1.1 b"), 1);
    assert_eq!(size("8.1 b"), 2);
}

#[test]
fn the_whole_or_the_fraction_may_be_missing() {
    assert_eq!(size(".5"), 1);
    assert_eq!(size(".5k"), 500);
    assert_eq!(size("5."), 5);
    assert_eq!(size("5.k"), 5000);
    assert_eq!(size("007"), 7);
}

#[test]
fn eight_bits_are_a_byte() {
    for head in ["1", "7.3", "12 k", "0.01 Gi", "999 T", "  3. m"] {
        let bytes = size(&format!("{}B", head));
        assert_eq!(size(&format!("{}b", head)), (bytes + 7) / 8);
    }
}

#[test]
fn white_space_is_ignored() {
    assert_eq!(size("  3 MiB\n"), size("3MiB"));
    assert_eq!(size("\u{3000}3\u{2003}\tMiB\u{a0}"), size("3MiB"));
    assert_eq!(size("3   "), 3);
    assert_eq!(reason("3 M iB"), "unknown byte unit");
    assert_eq!(reason("3 1"), "unknown byte unit");
    assert_eq!(reason("3 M B"), "unknown byte unit");
}

#[test]
fn white_space_is_what_unicode_says() {
    for c in '\0'..=char::MAX {
        let read = parse_bytes_with_unit(&format!("{}5", c));
        if c.is_whitespace() {
            assert_eq!(read, Ok(5));
        } else if c.is_ascii_digit() {
            assert_eq!(read, Ok(10 * (c as u64 - '0' as u64) + 5));
        } else if c == '.' {
            assert_eq!(read, Ok(1));
        } else {
            assert!(read.is_err());
        }
    }
}

#[test]
fn only_units_that_are_known() {
    for c in '\0'..=char::MAX {
        let text = format!("5{}", c);
        if !can_read_unit(&text) {
            assert_eq!(c.len_utf8(), 4);
            continue;
        }
        let read = parse_bytes_with_unit(&text);
        let factor = match c {
            'k' | 'K' => 1_000,
            'm' | 'M' => 1_000_000,
            'g' | 'G' => 1_000_000_000,
            't' | 'T' => 1_000_000_000_000,
            'p' | 'P' => 1_000_000_000_000_000,
            'e' | 'E' => 1_000_000_000_000_000_000,
            'B' | '.' => 1,
            _ if c.is_whitespace() => 1,
            _ => 0,
        };
        if c.is_ascii_digit() {
            assert_eq!(read, Ok(50 + c as u64 - '0' as u64));
        } else if c == 'b' {
            assert_eq!(read, Ok(1));
        } else if factor > 0 {
            assert_eq!(read, Ok(5 * factor));
        } else {
            assert_eq!(
                read,
                Err(ConfigError::InvalidNumber {
                    invalid: text,
                    reason: "unknown byte unit".to_string(),
                })
            );
        }
    }
}

#[test]
fn texts_without_a_number() {
    for text in ["", "   ", ".", "..", "1.2.3", "1..2", ".1.", "MiB", "-1", "+1", "x1", "., 5", "\u{663}"] {
        assert_eq!(reason(text), "expected a non-negative number with an optional unit");
    }
}

#[test]
fn numbers_that_are_too_large() {
    let zeros = |n: usize| "0".repeat(n);
    assert_eq!(size(&format!("1.{}", zeros(37))), 1);
    assert_eq!(size(&format!("1.{}", zeros(38))), 1);
    assert_eq!(reason(&format!("1.{}", zeros(39))), "number has too many fractional digits");
    assert_eq!(reason(&format!("0.{}", zeros(5000))), "number has too many fractional digits");
    assert_eq!(reason(&format!("{}.{}", u128::MAX, zeros(39))), "number has too many fractional digits");

    let whole = "340282366920938463463374607431768211456";
    assert_eq!(reason(whole), "number too large to fit in target type");
    assert_eq!(reason(whole), whole.parse::<u128>().unwrap_err().to_string());
    assert_eq!(reason(&format!("{}.0 nothing", whole)), "number too large to fit in target type");
    assert_eq!(reason(&format!("{}.0 nothing", u128::MAX)), "number is too large");
    assert_eq!(reason("34028236692093846346337460743176821145.6"), "number is too large");
    assert_eq!(reason("34028236692093846346337460743176821145.5 x"), "unknown byte unit");
}

#[test]
fn sizes_that_are_too_large() {
    assert_eq!(reason(&format!("{}k", u128::MAX)), "byte size is too large");
    assert_eq!(reason(&format!("1.{}b", "0".repeat(38))), "byte size is too large");
    assert_eq!(reason("34028236692093846346337460743176821145.5"), "byte size is too large");
    assert_eq!(
        reason("18446744073709551616"),
        "out of range integral type conversion attempted"
    );
    assert_eq!(
        reason(&u128::MAX.to_string()),
        u64::try_from(u128::MAX).unwrap_err().to_string()
    );
    assert_eq!(reason("18446744073709551615.5"), "out of range integral type conversion attempted");
    assert_eq!(reason("16EiB"), "out of range integral type conversion attempted");
    assert_eq!(size("18446744073709551615"), u64::MAX);
    assert_eq!(size("127 Eib"), 127 << 57);
    assert_eq!(size("147573952589676412920 b"), u64::MAX);
}

#[test]
fn units_that_end_in_half_a_character() {
    assert!(!can_read_unit("5 €a"));
    assert!(!can_read_unit("5 \u{10000}"));
    assert!(!can_read_unit("5.5éé"));
    assert!(!can_read_unit("5 x\u{10000}"));

    assert!(can_read_unit("€a"));
    assert!(can_read_unit("5..5 €a"));
    assert_eq!(reason("5 €"), "unknown byte unit");
    assert_eq!(reason("5 é"), "unknown byte unit");
    assert_eq!(reason("5 éb"), "unknown byte unit");
    assert_eq!(reason("5 bé"), "unknown byte unit");
    assert_eq!(reason("5 €bit"), "unknown byte unit");
    assert_eq!(reason("5 \u{212a}"), "unknown byte unit");
    assert_eq!(reason("5 a€"), "unknown byte unit");
}

#[test]
fn half_a_character_is_where_a_slice_would_panic() {
    for unit in ["", "k", "é", "éé", "ééé", "aé", "aaé", "éa", "€", "€a", "a€", "aa€", "€€", "\u{10000}", "a\u{10000}", "\u{10000}a", "\u{10000}aa", "\u{10000}aaa", "éaa", "aaa", "bit", "€bit"] {
        let cut = unit.len() >= 3 && !unit.is_char_boundary(unit.len() - 3);
        assert_eq!(can_read_unit(&format!("12{}", unit)), !cut);
        assert!(can_read_unit(&format!("x12{}", unit)));
    }
}
