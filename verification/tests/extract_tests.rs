use stock_fn_scraper::extract::extract;
use stock_fn_scraper::fi_registry::Financials;
use stock_fn_scraper::table::Cell;
use stock_fn_scraper::types::{ExtractError, YearMonth};

fn ym(year: u16, month: u8) -> YearMonth {
    YearMonth::new(year, month)
}

fn chars_of(s: &str) -> Vec<char> {
    s.chars().collect()
}

fn data_cell(text: &str) -> Cell {
    Cell {
        rowspan: None,
        colspan: None,
        texts: if text.is_empty() { Vec::new() } else { vec![chars_of(text)] },
    }
}

const PAGE: &str = r#"<html><body>
<table><caption>기업실적분석</caption>
<thead>
<tr><th rowspan="2">주요재무정보</th><th colspan="3">최근 연간 실적</th><th colspan="3">최근 분기 실적</th></tr>
<tr><th>2022.12</th><th>2023.12</th><th>2023.12(E)</th><th>2023.09</th><th>2023.12</th><th>2024.03(E)</th></tr>
</thead>
<tbody>
<tr><th>매출액</th><td>1,234</td><td>1,500</td><td>—</td><td>300</td><td>400</td><td>-</td></tr>
<tr><th>영업이익</th><td>100</td><td>120</td><td></td><td>30</td><td>40</td><td></td></tr>
<tr><th>구분선</th><td>1</td><td>2</td><td>3</td><td>4</td><td>5</td><td>6</td></tr>
</tbody>
</table>
</body></html>"#;

#[test]
fn extract_decodes_both_axes() {
    let fin = extract(PAGE, "005930").unwrap();

    assert_eq!(fin.annuals.len(), 2);
    let a0 = &fin.annuals.list[0];
    assert_eq!(a0.stock_code, "005930");
    assert_eq!(a0.year_month, ym(2022, 12));
    assert_eq!(a0.sales, Some(12_340_000));
    assert_eq!(a0.profit, Some(1_000_000));
    assert_eq!(a0.net_income, None);
    let a1 = &fin.annuals.list[1];
    assert_eq!(a1.year_month, ym(2023, 12));
    assert_eq!(a1.sales, Some(15_000_000));
    assert_eq!(a1.profit, Some(1_200_000));

    assert_eq!(fin.quarters.len(), 2);
    let q0 = &fin.quarters.list[0];
    assert_eq!(q0.year_month, ym(2023, 9));
    assert_eq!(q0.sales, Some(3_000_000));
    assert_eq!(q0.profit, Some(300_000));
    let q1 = &fin.quarters.list[1];
    assert_eq!(q1.year_month, ym(2023, 12));
    assert_eq!(q1.sales, Some(4_000_000));
    assert_eq!(q1.profit, Some(400_000));
}

#[test]
fn extract_skips_rows_with_unrecognized_labels() {
    // the "구분선" row of PAGE carries parseable numbers, but its label is not
    // one of the five recognized metrics, so it contributes nothing
    let fin = extract(PAGE, "005930").unwrap();
    for fi in fin.annuals.list.iter().chain(fin.quarters.list.iter()) {
        assert_eq!(fi.net_income, None);
        assert_eq!(fi.dividend, None);
        assert_eq!(fi.dividend_yield, None);
    }
}

#[test]
fn extract_without_matching_caption_is_not_found() {
    let page = "<html><body><table><caption>다른 표</caption></table></body></html>";
    assert_eq!(extract(page, "005930").err(), Some(ExtractError::NotFound));
}

#[test]
fn extract_with_two_matching_tables_is_ambiguous() {
    let page = r#"<html><body>
<table><caption>기업실적분석</caption></table>
<table><caption>기업실적분석 2</caption></table>
</body></html>"#;
    assert_eq!(extract(page, "005930").err(), Some(ExtractError::AmbiguousTable));
}

#[test]
fn extract_without_second_header_row_misses_the_axes() {
    let page = r#"<html><body><table><caption>기업실적분석</caption>
<thead><tr><th colspan="2">최근 연간 실적</th><th>최근 분기 실적</th></tr></thead>
<tbody></tbody></table></body></html>"#;
    assert_eq!(extract(page, "005930").err(), Some(ExtractError::MissingAxis));
}

#[test]
fn extract_with_bad_period_label_is_malformed() {
    let page = r#"<html><body><table><caption>기업실적분석</caption>
<thead>
<tr><th colspan="1">최근 연간 실적</th><th colspan="1">최근 분기 실적</th></tr>
<tr><th>연간</th><th>2023.09</th></tr>
</thead><tbody></tbody></table></body></html>"#;
    assert_eq!(extract(page, "005930").err(), Some(ExtractError::MalformedPeriod));
}

#[test]
fn extract_deduplicates_same_year_annual_columns() {
    let page = r#"<html><body><table><caption>기업실적분석</caption>
<thead>
<tr><th rowspan="2">주요재무정보</th><th colspan="2">최근 연간 실적</th><th colspan="1">최근 분기 실적</th></tr>
<tr><th>2023.03</th><th>2023.12</th><th>2023.09</th></tr>
</thead>
<tbody>
<tr><th>매출액</th><td>10</td><td>20</td><td>30</td></tr>
</tbody></table></body></html>"#;
    let fin = extract(page, "005930").unwrap();
    assert_eq!(fin.annuals.len(), 1);
    assert_eq!(fin.annuals.list[0].year_month, ym(2023, 12));
    assert_eq!(fin.annuals.list[0].sales, Some(200_000));
    assert_eq!(fin.quarters.len(), 1);
    assert_eq!(fin.quarters.list[0].year_month, ym(2023, 9));
    assert_eq!(fin.quarters.list[0].sales, Some(300_000));
}

#[test]
fn decode_row_example() {
    // a data row ["매출액","1,234","1,500","—"] with the metric at column 0
    // and annual periods mapped to columns 1 and 2 yields two observations;
    // the dash cell yields none
    let row = vec![
        data_cell("매출액"),
        data_cell("1,234"),
        data_cell("1,500"),
        data_cell("—"),
    ];
    let annual_map = vec![(ym(2022, 12), 1usize), (ym(2023, 12), 2usize)];
    let quarter_map: Vec<(YearMonth, usize)> = Vec::new();
    let mut fin = Financials::new("005930");
    fin.decode_row(&row, &annual_map, &quarter_map);
    assert_eq!(fin.annuals.len(), 2);
    assert_eq!(fin.annuals.list[0].year_month, ym(2022, 12));
    assert_eq!(fin.annuals.list[0].sales, Some(12_340_000));
    assert_eq!(fin.annuals.list[1].year_month, ym(2023, 12));
    assert_eq!(fin.annuals.list[1].sales, Some(15_000_000));
    assert_eq!(fin.quarters.len(), 0);
}

#[test]
fn decode_row_without_metric_contributes_nothing() {
    let row = vec![data_cell("합계"), data_cell("1,234")];
    let annual_map = vec![(ym(2022, 12), 1usize)];
    let quarter_map: Vec<(YearMonth, usize)> = Vec::new();
    let mut fin = Financials::new("005930");
    fin.decode_row(&row, &annual_map, &quarter_map);
    assert_eq!(fin.annuals.len(), 0);
    assert_eq!(fin.quarters.len(), 0);
}
