use stock_fn_scraper::fi_registry::{FinancialInfoRegistry, Financials};
use stock_fn_scraper::reconcile::records_equal;
use stock_fn_scraper::types::YearMonth;

fn ym(year: u16, month: u8) -> YearMonth {
    YearMonth::new(year, month)
}

#[test]
fn register_creates_then_updates_in_place() {
    let mut reg = FinancialInfoRegistry::new("005930");
    assert!(reg.is_empty());
    reg.register(ym(2023, 12), "매출액", Some(12_340_000));
    assert_eq!(reg.len(), 1);
    reg.register(ym(2023, 12), "영업이익", Some(1_000_000));
    assert_eq!(reg.len(), 1);
    let fi = &reg.list[0];
    assert_eq!(fi.stock_code, "005930");
    assert_eq!(fi.year_month, ym(2023, 12));
    assert_eq!(fi.sales, Some(12_340_000));
    assert_eq!(fi.profit, Some(1_000_000));
    assert_eq!(fi.net_income, None);
    reg.register(ym(2022, 12), "매출액", Some(11_000_000));
    assert_eq!(reg.len(), 2);
    assert_eq!(reg.list[1].year_month, ym(2022, 12));
}

#[test]
fn register_twice_same_observation_is_idempotent() {
    let mut once = FinancialInfoRegistry::new("005930");
    once.register(ym(2023, 12), "매출액", Some(12_340_000));
    let mut twice = FinancialInfoRegistry::new("005930");
    twice.register(ym(2023, 12), "매출액", Some(12_340_000));
    twice.register(ym(2023, 12), "매출액", Some(12_340_000));
    assert_eq!(once.len(), twice.len());
    assert!(records_equal(&once.list[0], &twice.list[0]));
}

#[test]
fn unrecognized_metric_name_is_ignored() {
    let mut reg = FinancialInfoRegistry::new("005930");
    reg.register(ym(2023, 12), "매출액", Some(1_000_000));
    reg.register(ym(2023, 12), "알 수 없는 항목", Some(77));
    let fi = &reg.list[0];
    assert_eq!(fi.sales, Some(1_000_000));
    assert_eq!(fi.profit, None);
    assert_eq!(fi.net_income, None);
    assert_eq!(fi.dividend, None);
    assert_eq!(fi.dividend_yield, None);
}

#[test]
fn all_five_metrics_land_in_their_fields() {
    let mut reg = FinancialInfoRegistry::new("005930");
    let p = ym(2023, 12);
    reg.register(p, "매출액", Some(1));
    reg.register(p, "영업이익", Some(2));
    reg.register(p, "당기순이익", Some(3));
    reg.register(p, "주당배당금(원)", Some(4));
    reg.register(p, "시가배당률(%)", Some(5));
    let fi = &reg.list[0];
    assert_eq!(fi.sales, Some(1));
    assert_eq!(fi.profit, Some(2));
    assert_eq!(fi.net_income, Some(3));
    assert_eq!(fi.dividend, Some(4));
    assert_eq!(fi.dividend_yield, Some(5));
}

#[test]
fn dedup_keeps_latest_period_per_year() {
    let mut fin = Financials::new("005930");
    fin.annuals.register(ym(2022, 3), "매출액", Some(1));
    fin.annuals.register(ym(2022, 12), "매출액", Some(2));
    fin.annuals.register(ym(2022, 6), "매출액", Some(3));
    fin.annuals.register(ym(2023, 12), "매출액", Some(4));
    fin.quarters.register(ym(2022, 3), "매출액", Some(9));
    fin.remove_duplicate();
    assert_eq!(fin.annuals.len(), 2);
    assert_eq!(fin.annuals.list[0].year_month, ym(2022, 12));
    assert_eq!(fin.annuals.list[1].year_month, ym(2023, 12));
    // the quarterly records are untouched
    assert_eq!(fin.quarters.len(), 1);
    assert_eq!(fin.quarters.list[0].year_month, ym(2022, 3));
}

#[test]
fn dedup_twice_changes_nothing() {
    let mut fin = Financials::new("005930");
    fin.annuals.register(ym(2022, 3), "매출액", Some(1));
    fin.annuals.register(ym(2022, 12), "매출액", Some(2));
    fin.annuals.register(ym(2023, 12), "매출액", Some(3));
    fin.remove_duplicate();
    let first: Vec<(u16, u8)> = fin
        .annuals
        .list
        .iter()
        .map(|fi| (fi.year_month.year, fi.year_month.month))
        .collect();
    fin.remove_duplicate();
    let second: Vec<(u16, u8)> = fin
        .annuals
        .list
        .iter()
        .map(|fi| (fi.year_month.year, fi.year_month.month))
        .collect();
    assert_eq!(first, second);
}
