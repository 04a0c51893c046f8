use stock_fn_scraper::fi_registry::{FinancialInfo, Financials};
use stock_fn_scraper::reconcile::{reconcile, Axis, WriteIntent};
use stock_fn_scraper::types::YearMonth;

fn ym(year: u16, month: u8) -> YearMonth {
    YearMonth::new(year, month)
}

fn record(code: &str, period: YearMonth, sales: Option<i64>) -> FinancialInfo {
    FinancialInfo {
        stock_code: code.to_string(),
        year_month: period,
        sales,
        profit: None,
        net_income: None,
        dividend: None,
        dividend_yield: None,
    }
}

#[test]
fn update_and_insert_for_changed_and_new_years() {
    // fresh annual records for 2022 and 2023; storage holds only 2022 with a
    // different sales value: one update for 2022, one insert for 2023
    let mut fin = Financials::new("005930");
    fin.annuals.register(ym(2022, 12), "매출액", Some(12_340_000));
    fin.annuals.register(ym(2023, 12), "매출액", Some(15_000_000));
    let stored = vec![record("005930", ym(2022, 12), Some(11_110_000))];
    let intents = fin.reconcile_annuals(&stored);
    assert_eq!(intents.len(), 2);
    match &intents[0] {
        WriteIntent::Update { stored_period, fresh } => {
            assert_eq!(*stored_period, ym(2022, 12));
            assert_eq!(fresh.year_month, ym(2022, 12));
            assert_eq!(fresh.sales, Some(12_340_000));
        },
        other => panic!("expected an update, got {:?}", intent_kind(other)),
    }
    match &intents[1] {
        WriteIntent::Insert(fresh) => {
            assert_eq!(fresh.year_month, ym(2023, 12));
            assert_eq!(fresh.sales, Some(15_000_000));
        },
        other => panic!("expected an insert, got {:?}", intent_kind(other)),
    }
}

fn intent_kind(it: &WriteIntent) -> &'static str {
    match it {
        WriteIntent::Insert(_) => "insert",
        WriteIntent::Update { .. } => "update",
    }
}

#[test]
fn identical_record_yields_no_intent() {
    let mut fin = Financials::new("005930");
    fin.annuals.register(ym(2022, 12), "매출액", Some(12_340_000));
    let stored = vec![record("005930", ym(2022, 12), Some(12_340_000))];
    let intents = fin.reconcile_annuals(&stored);
    assert_eq!(intents.len(), 0);
}

#[test]
fn annual_identity_is_the_year_alone() {
    // the stored record for the same year carries another month and a
    // different value: the record is updated in place of that year's row,
    // never inserted twice
    let mut fin = Financials::new("005930");
    fin.annuals.register(ym(2022, 12), "매출액", Some(12_340_000));
    let stored = vec![record("005930", ym(2022, 3), Some(11_110_000))];
    let intents = fin.reconcile_annuals(&stored);
    assert_eq!(intents.len(), 1);
    match &intents[0] {
        WriteIntent::Update { stored_period, fresh } => {
            assert_eq!(*stored_period, ym(2022, 3));
            assert_eq!(fresh.year_month, ym(2022, 12));
        },
        _ => panic!("expected an update"),
    }
}

#[test]
fn equal_fields_emit_nothing_even_when_the_month_moved() {
    // only the five numeric fields are compared: a stored record of the same
    // year whose values all match the fresh one yields no intent, even though
    // its period carries another month
    let mut fin = Financials::new("005930");
    fin.annuals.register(ym(2022, 12), "매출액", Some(12_340_000));
    let stored = vec![record("005930", ym(2022, 3), Some(12_340_000))];
    assert_eq!(fin.reconcile_annuals(&stored).len(), 0);
}

#[test]
fn quarterly_identity_is_the_full_period() {
    let mut fin = Financials::new("005930");
    fin.quarters.register(ym(2023, 9), "매출액", Some(3_000_000));
    // same year, different month: on the quarterly axis this is a new row
    let stored = vec![record("005930", ym(2023, 6), Some(3_000_000))];
    let intents = fin.reconcile_quarters(&stored);
    assert_eq!(intents.len(), 1);
    assert!(matches!(&intents[0], WriteIntent::Insert(_)));
}

#[test]
fn stored_records_without_fresh_counterpart_are_left_alone() {
    // storage knows years the fresh scrape did not observe: nothing is
    // emitted for them, and nothing resembling a delete exists at all
    let mut fin = Financials::new("005930");
    fin.annuals.register(ym(2023, 12), "매출액", Some(15_000_000));
    let stored = vec![
        record("005930", ym(2020, 12), Some(1)),
        record("005930", ym(2021, 12), Some(2)),
    ];
    let intents = fin.reconcile_annuals(&stored);
    assert_eq!(intents.len(), 1);
    match &intents[0] {
        WriteIntent::Insert(fresh) => assert_eq!(fresh.year_month.year, 2023),
        _ => panic!("expected an insert for the one fresh year"),
    }
}

#[test]
fn empty_fresh_set_emits_nothing() {
    let fin = Financials::new("005930");
    let stored = vec![record("005930", ym(2020, 12), Some(1))];
    assert_eq!(fin.reconcile_annuals(&stored).len(), 0);
    assert_eq!(fin.reconcile_quarters(&stored).len(), 0);
}

#[test]
fn reconcile_free_function_matches_axis_semantics() {
    let fresh = vec![record("005930", ym(2022, 12), Some(5))];
    let stored = vec![record("005930", ym(2022, 3), Some(7))];
    // annual: same year with another value, so an update of the stored row
    let annual = reconcile(Axis::Annual, &fresh, &stored);
    assert_eq!(annual.len(), 1);
    assert!(matches!(&annual[0], WriteIntent::Update { .. }));
    // quarterly: different period, so an insert
    let quarterly = reconcile(Axis::Quarterly, &fresh, &stored);
    assert_eq!(quarterly.len(), 1);
    assert!(matches!(&quarterly[0], WriteIntent::Insert(_)));
}
