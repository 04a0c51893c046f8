use stock_fn_scraper::table::Cell;
use stock_fn_scraper::types::{ExtractError, YearMonth};
use stock_fn_scraper::header::decode_header;

fn chars_of(s: &str) -> Vec<char> {
    s.chars().collect()
}

fn cell(text: &str, rowspan: Option<&str>, colspan: Option<&str>) -> Cell {
    Cell {
        rowspan: rowspan.map(|v| v.chars().collect()),
        colspan: colspan.map(|v| v.chars().collect()),
        texts: if text.is_empty() { Vec::new() } else { vec![chars_of(text)] },
    }
}

fn ym(year: u16, month: u8) -> YearMonth {
    YearMonth::new(year, month)
}

#[test]
fn two_axis_header_example() {
    // row 1: the annual marker spans columns 0-2, the quarterly marker 3-5
    let row1 = vec![
        cell("최근 연간 실적", None, Some("3")),
        cell("최근 분기 실적", None, Some("3")),
    ];
    let row2 = vec![
        cell("2022.12", None, None),
        cell("2023.12", None, None),
        cell("2023.12(E)", None, None),
        cell("2023.09", None, None),
        cell("2023.12", None, None),
        cell("2024.03(E)", None, None),
    ];
    let (annual, quarterly) = decode_header(&row1, &row2).unwrap();
    assert_eq!(annual, vec![(ym(2022, 12), 0), (ym(2023, 12), 1)]);
    assert_eq!(quarterly, vec![(ym(2023, 9), 3), (ym(2023, 12), 4)]);
}

#[test]
fn estimate_columns_are_dropped_at_original_indices() {
    // annual columns [2022.12, 2023.12, 2023.12(E)]: the estimate column is
    // dropped and the other periods keep their original column indices
    let row1 = vec![
        cell("최근 연간 실적", None, Some("3")),
        cell("최근 분기 실적", None, Some("1")),
    ];
    let row2 = vec![
        cell("2022.12", None, None),
        cell("2023.12", None, None),
        cell("2023.12(E)", None, None),
        cell("2023.09", None, None),
    ];
    let (annual, _) = decode_header(&row1, &row2).unwrap();
    assert_eq!(annual, vec![(ym(2022, 12), 0), (ym(2023, 12), 1)]);
}

#[test]
fn rowspan_carry_shifts_second_row() {
    // a leading label cell spans both header rows, so the second row's first
    // period label sits at column 1
    let row1 = vec![
        cell("주요재무정보", Some("2"), None),
        cell("최근 연간 실적", None, Some("3")),
        cell("최근 분기 실적", None, Some("3")),
    ];
    let row2 = vec![
        cell("2021.12", None, None),
        cell("2022.12", None, None),
        cell("2023.12(E)", None, None),
        cell("2023.06", None, None),
        cell("2023.09", None, None),
        cell("2023.12(E)", None, None),
    ];
    let (annual, quarterly) = decode_header(&row1, &row2).unwrap();
    assert_eq!(annual, vec![(ym(2021, 12), 1), (ym(2022, 12), 2)]);
    assert_eq!(quarterly, vec![(ym(2023, 6), 4), (ym(2023, 9), 5)]);
}

#[test]
fn missing_quarterly_axis_is_reported() {
    let row1 = vec![cell("최근 연간 실적", None, Some("3"))];
    let row2 = vec![cell("2022.12", None, None)];
    assert_eq!(decode_header(&row1, &row2), Err(ExtractError::MissingAxis));
}

#[test]
fn missing_annual_axis_is_reported() {
    let row1 = vec![cell("최근 분기 실적", None, Some("3"))];
    let row2 = vec![cell("2022.12", None, None)];
    assert_eq!(decode_header(&row1, &row2), Err(ExtractError::MissingAxis));
}

#[test]
fn unparseable_period_is_fatal() {
    let row1 = vec![
        cell("최근 연간 실적", None, Some("2")),
        cell("최근 분기 실적", None, Some("1")),
    ];
    let row2 = vec![cell("not a period", None, None)];
    assert_eq!(decode_header(&row1, &row2), Err(ExtractError::MalformedPeriod));
}

#[test]
fn empty_header_cells_yield_no_period() {
    let row1 = vec![
        cell("최근 연간 실적", None, Some("2")),
        cell("최근 분기 실적", None, Some("2")),
    ];
    let row2 = vec![
        cell("", None, None),
        cell("2023.12", None, None),
        cell("2023.09", None, None),
        cell("", None, None),
    ];
    let (annual, quarterly) = decode_header(&row1, &row2).unwrap();
    assert_eq!(annual, vec![(ym(2023, 12), 1)]);
    assert_eq!(quarterly, vec![(ym(2023, 9), 2)]);
}
