use stock_fn_scraper::text::{
    contains_text, ends_with_text, get_text, parse_fixed, parse_uint, str_to_chars, text_eq,
    trimmed,
};
use stock_fn_scraper::types::{Market, YearMonth};
use core::str::FromStr;

fn chars_of(s: &str) -> Vec<char> {
    s.chars().collect()
}

#[test]
fn trimming_strips_surrounding_whitespace() {
    assert_eq!(trimmed(&chars_of("  1,234 \n")), chars_of("1,234"));
    assert_eq!(trimmed(&chars_of("\u{a0}매출액\u{a0}")), chars_of("매출액"));
    assert_eq!(trimmed(&chars_of("   ")), chars_of(""));
}

#[test]
fn cell_text_joins_trimmed_fragments() {
    let texts = vec![chars_of(" 최근 연간 실적 "), chars_of("\n(IFRS연결)\n")];
    assert_eq!(get_text(&texts), chars_of("최근 연간 실적 (IFRS연결)"));
    let leading_empty = vec![chars_of("  "), chars_of("2023.12")];
    assert_eq!(get_text(&leading_empty), chars_of("2023.12"));
}

#[test]
fn substring_and_suffix_search() {
    assert!(contains_text(&chars_of("기업실적분석 테이블"), &chars_of("기업실적분석")));
    assert!(!contains_text(&chars_of("다른 표"), &chars_of("기업실적분석")));
    assert!(ends_with_text(&chars_of("2023.12(E)"), &chars_of("(E)")));
    assert!(!ends_with_text(&chars_of("2023.12"), &chars_of("(E)")));
    assert!(text_eq(&chars_of("매출액"), &str_to_chars("매출액")));
}

#[test]
fn unsigned_parse_respects_bounds_and_digits() {
    assert_eq!(parse_uint(&chars_of("12"), 255), Some(12));
    assert_eq!(parse_uint(&chars_of("0"), 255), Some(0));
    assert_eq!(parse_uint(&chars_of("256"), 255), None);
    assert_eq!(parse_uint(&chars_of(""), 255), None);
    assert_eq!(parse_uint(&chars_of("1a"), 255), None);
    assert_eq!(parse_uint(&chars_of("18446744073709551615"), u64::MAX), Some(u64::MAX));
}

#[test]
fn fixed_point_parse_examples() {
    assert_eq!(parse_fixed(&chars_of("1,234")), Some(12_340_000));
    assert_eq!(parse_fixed(&chars_of("1,500")), Some(15_000_000));
    assert_eq!(parse_fixed(&chars_of("1.61")), Some(16_100));
    assert_eq!(parse_fixed(&chars_of("-1,234")), Some(-12_340_000));
    assert_eq!(parse_fixed(&chars_of("361.5")), Some(3_615_000));
    assert_eq!(parse_fixed(&chars_of(".5")), Some(5_000));
    assert_eq!(parse_fixed(&chars_of("2.")), Some(20_000));
    assert_eq!(parse_fixed(&chars_of("—")), None);
    assert_eq!(parse_fixed(&chars_of("-")), None);
    assert_eq!(parse_fixed(&chars_of("")), None);
    assert_eq!(parse_fixed(&chars_of("1.2.3")), None);
    // fractional digits beyond the fourth are dropped
    assert_eq!(parse_fixed(&chars_of("1.23456")), Some(12_345));
    // magnitudes beyond the largest representable whole-unit count are rejected
    assert_eq!(parse_fixed(&chars_of("9223372036854775807")), None);
    assert_eq!(parse_fixed(&chars_of("922337203685476")), Some(922_337_203_685_476 * 10_000));
}

#[test]
fn period_parse_accepts_both_separators() {
    assert_eq!(YearMonth::from_str("2023.12").unwrap(), YearMonth::new(2023, 12));
    assert_eq!(YearMonth::from_str("2023-09").unwrap(), YearMonth::new(2023, 9));
    assert!(YearMonth::from_str("2023").is_err());
    assert!(YearMonth::from_str("2023.13").is_err());
    assert!(YearMonth::from_str("2023.0").is_err());
    assert!(YearMonth::from_str("2023.12.31").is_err());
    assert!(YearMonth::from_str("abcd.12").is_err());
}

#[test]
fn period_canonical_text_round_trip() {
    assert_eq!(YearMonth::new(2023, 9).to_text(), chars_of("2023.09"));
    assert_eq!(YearMonth::new(2023, 12).to_text(), chars_of("2023.12"));
    assert_eq!(YearMonth::new(800, 1).to_text(), chars_of("800.01"));
    let ym = YearMonth::new(2024, 3);
    assert_eq!(YearMonth::parse_text(&ym.to_text()), Some(ym));
}

#[test]
fn period_ordering_is_by_year_then_month() {
    let a = YearMonth::new(2022, 12);
    let b = YearMonth::new(2023, 3);
    let c = YearMonth::new(2023, 12);
    assert!(a.is_before(&b));
    assert!(b.is_before(&c));
    assert!(!c.is_before(&a));
    assert!(!a.is_before(&a));
}

#[test]
fn market_text_round_trip() {
    assert_eq!(Market::KOSPI.as_str(), "KOSPI");
    assert_eq!(Market::from_text("KOSDAQ"), Some(Market::KOSDAQ));
    assert_eq!(Market::from_text(Market::ETF.as_str()), Some(Market::ETF));
    assert_eq!(Market::from_text("NYSE"), None);
    assert!(Market::from_str("KOSPI").is_ok());
}
