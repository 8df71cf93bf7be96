use usage_report::numbers::{format_count_short, format_duration, format_num, format_num_u64};
use usage_report::text::{decimal_text, pad_left, pad_right, trim};

#[test]
fn numbers_are_grouped_by_thousands() {
    for (n, text) in [
        (0, "0"),
        (7, "7"),
        (999, "999"),
        (1_000, "1,000"),
        (12_345, "12,345"),
        (123_456, "123,456"),
        (1_000_000, "1,000,000"),
        (u64::MAX, "18,446,744,073,709,551,615"),
    ] {
        assert_eq!(format_num_u64(n), text);
        assert_eq!(format_num_u64(n).replace(',', ""), n.to_string());
    }
    assert_eq!(format_num(u32::MAX), "4,294,967,295");
}

#[test]
fn durations_leave_out_units_that_are_zero() {
    for (secs, text) in [
        (0, "0m"),
        (59, "0m"),
        (60, "1m"),
        (3_600, "1h"),
        (3_660, "1h 1m"),
        (86_400, "1d"),
        (86_460, "1d 1m"),
        (3 * 86_400 + 6 * 3_600 + 4 * 60 + 59, "3d 6h 4m"),
        (u32::MAX, "49710d 6h 28m"),
    ] {
        assert_eq!(format_duration(secs), text);
    }
}

#[test]
fn counts_are_abbreviated() {
    for (n, text) in [
        (0, "0"),
        (999, "999"),
        (1_000, "1k"),
        (1_600, "1.6k"),
        (45_500_000, "45.5m"),
        (1_000_000_000, "1b"),
        (999_949, "999.9k"),
        (999_950, "1000k"),
        (1_150, "1.1k"),
        (1_250, "1.2k"),
        (1_350, "1.4k"),
        (u64::MAX, "18446744073.7b"),
    ] {
        assert_eq!(format_count_short(n), text);
    }
}

/// The same by floating point arithmetic.
fn short_by_division(n: u64) -> String {
    let (val, suffix) = if n >= 1_000_000_000 {
        (n as f64 / 1e9, "b")
    } else if n >= 1_000_000 {
        (n as f64 / 1e6, "m")
    } else if n >= 1_000 {
        (n as f64 / 1e3, "k")
    } else {
        return n.to_string();
    };
    let s = format!("{val:.1}");
    let s = s.strip_suffix(".0").map(str::to_string).unwrap_or(s);
    format!("{s}{suffix}")
}

#[test]
fn counts_round_as_doubles_do() {
    for n in (0..1_000_000).step_by(50) {
        assert_eq!(format_count_short(n), short_by_division(n), "{n}");
    }
    for tie in (0..20_000).map(|k| 1_050_000 + 100_000 * (k * 7 % 9_989)) {
        assert_eq!(format_count_short(tie), short_by_division(tie), "{tie}");
    }
    for tie in (0..20_000u64).map(|k| 50_000_000 + 100_000_000 * (10 + k * k * k * 23 % 184_467_440_700)) {
        for n in [tie - 1025, tie - 64, tie - 1, tie, tie + 1, tie + 63, tie + 1023] {
            assert_eq!(format_count_short(n), short_by_division(n), "{n}");
        }
    }
    let mut n: u64 = 88_172_645_463_325_252;
    for i in 0..100_000 {
        n ^= n << 13;
        n ^= n >> 7;
        n ^= n << 17;
        let n = n >> (i % 60);
        assert_eq!(format_count_short(n), short_by_division(n), "{n}");
    }
}

#[test]
fn whole_tenths_are_exact() {
    for t in 10..10_000u64 {
        let text = if t % 10 == 0 {
            format!("{}", t / 10)
        } else {
            format!("{}.{}", t / 10, t % 10)
        };
        assert_eq!(format_count_short(t * 100), format!("{text}k"));
        assert_eq!(format_count_short(t * 100_000), format!("{text}m"));
        assert_eq!(format_count_short(t * 100_000_000), format!("{text}b"));
    }
}

#[test]
fn decimals_and_padding_match_the_formatter() {
    for n in [0, 9, 10, 99, 100, 12_345, u64::MAX] {
        assert_eq!(decimal_text(n), n.to_string());
    }
    for s in ["", "a", "abc", "é—", "abcdefgh"] {
        assert_eq!(pad_right(s, 4), format!("{s:<4}"));
        assert_eq!(pad_left(s, 4), format!("{s:>4}"));
    }
}

#[test]
fn white_space_is_that_of_unicode() {
    for c in (0..=0x10ffff).filter_map(char::from_u32) {
        assert_eq!(usage_report::text::white_space(c), c.is_whitespace(), "{c:?}");
    }
    for s in ["", " ", " a ", "\t\u{3000}a b\u{a0}\n", "ab", "\u{200b} a"] {
        assert_eq!(trim(s), s.trim());
    }
}

/// Ten times the number that an abbreviated count stands for.
fn tenths_meant(s: &str) -> u128 {
    let (number, unit) = match s.chars().last().unwrap() {
        'k' => (&s[..s.len() - 1], 1_000),
        'm' => (&s[..s.len() - 1], 1_000_000),
        'b' => (&s[..s.len() - 1], 1_000_000_000),
        _ => (s, 1),
    };
    let tenths: u128 = match number.split_once('.') {
        Some((whole, tenth)) => {
            10 * whole.parse::<u128>().unwrap() + tenth.parse::<u128>().unwrap()
        }
        None => 10 * number.parse::<u128>().unwrap(),
    };
    tenths * unit
}

#[test]
fn a_larger_count_is_not_written_as_less() {
    assert_eq!(format_count_short(999_999), "1000k");
    assert_eq!(format_count_short(1_000_000), "1m");
    assert_eq!(tenths_meant("1000k"), tenths_meant("1m"));
    let mut counts: Vec<u64> = (0..2_000_000).step_by(7).collect();
    for bit in 0..64 {
        let power = 1u64 << bit;
        counts.extend([power - 1, power, power.saturating_add(1), power.saturating_add(power / 3)]);
    }
    for edge in [1_000, 1_000_000, 1_000_000_000, u64::MAX - 5_000] {
        counts.extend(edge - 100..edge + 100);
    }
    counts.sort();
    for pair in counts.windows(2) {
        let (low, high) = (format_count_short(pair[0]), format_count_short(pair[1]));
        assert!(tenths_meant(&low) <= tenths_meant(&high), "{pair:?}");
    }
}

#[test]
fn counts_are_written_to_the_nearest_tenth() {
    for (n, unit) in [
        (8_388_607_049_999_999u64, 1_000_000_000i128),
        (9_007_199_254_740_991, 1_000_000_000),
        (1_049_999, 1_000_000),
        (1_050_001, 1_000_000),
        (1_150, 1_000),
    ] {
        let meant = tenths_meant(&format_count_short(n)) as i128;
        assert!(2 * (meant - 10 * n as i128).abs() <= unit, "{n}");
    }
}
