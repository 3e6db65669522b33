use ccusage::cost::Cost;
use ccusage::figures::short_tokens;
use ccusage::order::{same_text, text_at_or_before};
use ccusage::text::{
    align_left, align_right, byte_length, contains_text, is_blank, join, number, slice_bytes,
    split_all, split_once, starts_with, trim, trim_start, white,
};

#[test]
fn white_space_is_that_of_std() {
    for code in 0..=0x10FFFF_u32 {
        if let Some(c) = char::from_u32(code) {
            assert_eq!(white(c), c.is_whitespace(), "{code:x}");
        }
    }
}

const SAMPLES: [&str; 12] = [
    "", " ", "a", " a", "a ", "\t a b \n", "a,b", ",a,,b,", "é", "\u{3000}x\u{a0}", "ab/cd/ef", "──x",
];

#[test]
fn texts_behave_as_those_of_std() {
    for s in SAMPLES {
        assert_eq!(trim(s), s.trim());
        assert_eq!(trim_start(s), s.trim_start());
        assert_eq!(is_blank(s), s.trim().is_empty());
        assert_eq!(byte_length(s), s.len());
        assert_eq!(split_all(s, ','), s.split(',').map(str::to_string).collect::<Vec<_>>());
        assert_eq!(
            split_once(s, '/'),
            s.split_once('/').map(|(a, b)| (a.to_string(), b.to_string()))
        );
        assert_eq!(align_left(s, 5), format!("{s:<5}"));
        assert_eq!(align_right(s, 5), format!("{s:>5}"));
        for from in 0..6 {
            for to in 0..6 {
                assert_eq!(
                    slice_bytes(s, from, to),
                    s.get(from..to).map(str::to_string),
                    "{s:?} {from} {to}"
                );
            }
        }
        for t in SAMPLES {
            assert_eq!(starts_with(s, t), s.starts_with(t));
            assert_eq!(contains_text(s, t), s.contains(t));
            assert_eq!(same_text(s, t), s == t);
            assert_eq!(text_at_or_before(s, t), s <= t);
        }
    }
    let list: Vec<String> = ["a", "", "b"].iter().map(|t| t.to_string()).collect();
    assert_eq!(join(&list, ", "), list.join(", "));
    for n in [0, 7, 10, 99, 100, u64::MAX] {
        assert_eq!(number(n), n.to_string());
    }
}

fn by_floats(tokens: u64) -> String {
    let value = tokens as f64;
    if tokens >= 1_000_000_000 {
        format!("{:.2}B", value / 1e9)
    } else if tokens >= 1_000_000 {
        let mut text = format!("{:.2}", value / 1e6);
        if text.ends_with("00") {
            text.truncate(text.len() - 3);
        } else if text.ends_with('0') {
            text.truncate(text.len() - 1);
        }
        format!("{text}M")
    } else if tokens >= 1_000 {
        format!("{:.0}k", value / 1e3)
    } else {
        format!("{tokens}")
    }
}

#[test]
fn short_figures_are_those_of_floats() {
    for tokens in 0..20_000 {
        assert_eq!(short_tokens(tokens), by_floats(tokens));
    }
    for step in 0..20_000_u64 {
        for tokens in [
            500 * step,
            5_000 * step + 1_000_000,
            5_000_000 * step + 1_000_000_000,
            u64::MAX - step,
            (1 << 53) + step,
            step.wrapping_mul(0x9E37_79B9_7F4A_7C15),
            step.wrapping_mul(0x9E37_79B9_7F4A_7C15) >> 30,
            step.wrapping_mul(0x9E37_79B9_7F4A_7C15) >> 40,
        ] {
            assert_eq!(short_tokens(tokens), by_floats(tokens), "{tokens}");
        }
    }
}

#[test]
fn short_figures_are_exact() {
    assert_eq!(short_tokens(668), "668");
    assert_eq!(short_tokens(197_000), "197k");
    assert_eq!(short_tokens(1_500), "2k");
    assert_eq!(short_tokens(2_500), "2k");
    assert_eq!(short_tokens(61_750_000), "61.75M");
    assert_eq!(short_tokens(1_500_000), "1.5M");
    assert_eq!(short_tokens(2_000_000), "2M");
    assert_eq!(short_tokens(1_200_000_000), "1.20B");
}

#[test]
fn amounts_compare_with_zero_as_floats_do() {
    for value in [0.0, -0.0, 1.0, -1.0, f64::MIN_POSITIVE, 5e-324, -5e-324, f64::INFINITY, f64::NEG_INFINITY, f64::NAN, -f64::NAN] {
        let cost = Cost { bits: value.to_bits() };
        assert_eq!(cost.is_zero(), value == 0.0, "{value}");
    }
}
