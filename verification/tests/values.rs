use en_2fa_monitor::clock::Moment;
use en_2fa_monitor::text::{decimal_text, split_once, strip_0x, trim};
use en_2fa_monitor::word::U256;

#[test]
fn trim_drops_white_space_at_both_ends_only() {
    assert_eq!(trim("  a b\t\n"), "a b");
    assert_eq!(trim("\u{a0}\u{3000}x\u{2028}"), "x");
    assert_eq!(trim("越"), "越");
    assert_eq!(trim(" \t "), "");
    assert_eq!(trim(""), "");
}

#[test]
fn trim_agrees_with_the_unicode_property() {
    for n in 0..0x11_0000u32 {
        if let Some(c) = char::from_u32(n) {
            let s = c.to_string();
            let white_space = matches!(
                n,
                0x9..=0xd
                    | 0x20
                    | 0x85
                    | 0xa0
                    | 0x1680
                    | 0x2000..=0x200a
                    | 0x2028
                    | 0x2029
                    | 0x202f
                    | 0x205f
                    | 0x3000
            );
            assert_eq!(trim(&s).is_empty(), white_space);
        }
    }
}

#[test]
fn split_once_takes_the_first_separator() {
    assert_eq!(split_once("a=b=c", '='), Some(("a", "b=c")));
    assert_eq!(split_once("=b", '='), Some(("", "b")));
    assert_eq!(split_once("é=", '='), Some(("é", "")));
    assert_eq!(split_once("abc", '='), None);
}

#[test]
fn strip_0x_drops_one_prefix() {
    assert_eq!(strip_0x("0xab"), "ab");
    assert_eq!(strip_0x("0x0xab"), "0xab");
    assert_eq!(strip_0x("0Xab"), "0Xab");
    assert_eq!(strip_0x("0"), "0");
    assert_eq!(strip_0x("0x"), "");
}

#[test]
fn decimal_text_writes_numerals() {
    assert_eq!(decimal_text(0), "0");
    assert_eq!(decimal_text(9), "9");
    assert_eq!(decimal_text(10), "10");
    assert_eq!(decimal_text(3600), "3600");
    assert_eq!(decimal_text(u64::MAX), "18446744073709551615");
}

#[test]
fn words_compare_by_value() {
    assert!(U256(0, 1, 0, 0).less_than(&U256(0, 0, 1, 0)));
    assert!(U256(u64::MAX, 0, 0, 0).less_than(&U256(0, 1, 0, 0)));
    assert!(!U256(5, 0, 0, 7).less_than(&U256(5, 0, 0, 7)));
    assert!(!U256(0, 0, 0, 8).less_than(&U256(9, 9, 9, 7)));
    assert_eq!(U256::from_u64(7), U256(7, 0, 0, 0));
    assert_ne!(U256(7, 0, 0, 0), U256(7, 0, 0, 1));
}

#[test]
fn words_subtract_down_to_zero() {
    assert_eq!(U256(0, 0, 0, 1).saturating_sub(&U256(1, 0, 0, 0)), U256(u64::MAX, u64::MAX, u64::MAX, 0));
    assert_eq!(U256(10, 0, 0, 0).saturating_sub(&U256(3, 0, 0, 0)), U256(7, 0, 0, 0));
    assert_eq!(U256(3, 0, 0, 0).saturating_sub(&U256(10, 0, 0, 0)), U256(0, 0, 0, 0));
    assert_eq!(U256(3, 0, 0, 0).saturating_sub(&U256(0, 0, 0, 1)), U256(0, 0, 0, 0));
}

#[test]
fn words_agree_with_the_chain_library() {
    let samples = [U256(1, 2, 3, 4), U256(4, 3, 2, 1), U256(0, u64::MAX, 0, 0), U256(u64::MAX, 0, 1, 0)];
    for a in samples {
        for b in samples {
            let x = ethers::types::U256([a.0, a.1, a.2, a.3]);
            let y = ethers::types::U256([b.0, b.1, b.2, b.3]);
            assert_eq!(a.less_than(&b), x < y);
            let d = a.saturating_sub(&b);
            assert_eq!(ethers::types::U256([d.0, d.1, d.2, d.3]), x.saturating_sub(y));
        }
    }
}

#[test]
fn moments_measure_time_without_going_below_zero() {
    let early = Moment { nanos: 1_000_000_000 };
    let late = Moment { nanos: 3_000_000_000 };
    assert!(late.at_least_since(&early, 2));
    assert!(!late.at_least_since(&early, 3));
    assert!(late.at_most_since(&early, 2));
    assert!(!late.at_most_since(&early, 1));
    assert!(early.at_least_since(&late, 0));
    assert!(early.at_most_since(&late, 0));
    assert!(!early.at_least_since(&late, 1));
    assert!(late.at_most_since(&early, u64::MAX));
}
