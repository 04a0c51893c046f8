//! The financial fact registry: accumulation of decoded observations into
//! per-period records, and the annual de-duplication rule.

use vstd::prelude::*;
use crate::text::{str_to_chars, text_eq};
use crate::types::YearMonth;

verus! {

/// One per-period record of financial facts for one entity. Numeric fields
/// are fixed-point values in ten-thousandths (see `crate::text::SCALE`);
/// a `None` field was never observed.
pub struct FinancialInfo {
    pub stock_code: String,
    pub year_month: YearMonth,
    pub sales: Option<i64>,
    pub profit: Option<i64>,
    pub net_income: Option<i64>,
    pub dividend: Option<i64>,
    pub dividend_yield: Option<i64>,
}

/// The mathematical value of a record.
pub ghost struct RecordModel {
    pub code: Seq<char>,
    pub year_month: YearMonth,
    pub sales: Option<i64>,
    pub profit: Option<i64>,
    pub net_income: Option<i64>,
    pub dividend: Option<i64>,
    pub dividend_yield: Option<i64>,
}

impl View for FinancialInfo {
    type V = RecordModel;

    open spec fn view(&self) -> RecordModel {
        RecordModel {
            code: self.stock_code@,
            year_month: self.year_month,
            sales: self.sales,
            profit: self.profit,
            net_income: self.net_income,
            dividend: self.dividend,
            dividend_yield: self.dividend_yield,
        }
    }
}

/// The mathematical values of a list of records, in order.
pub open spec fn record_views(s: Seq<FinancialInfo>) -> Seq<RecordModel> {
    s.map_values(|fi: FinancialInfo| fi@)
}

/// A record with the given identity and no observed facts.
pub open spec fn blank_record(code: Seq<char>, ym: YearMonth) -> RecordModel {
    RecordModel {
        code: code,
        year_month: ym,
        sales: None,
        profit: None,
        net_income: None,
        dividend: None,
        dividend_yield: None,
    }
}

/// Builds a fresh copy of a record.
pub fn clone_record(fi: &FinancialInfo) -> (r: FinancialInfo)
    ensures
        r@ == fi@,
{
    FinancialInfo {
        stock_code: fi.stock_code.clone(),
        year_month: fi.year_month,
        sales: fi.sales,
        profit: fi.profit,
        net_income: fi.net_income,
        dividend: fi.dividend,
        dividend_yield: fi.dividend_yield,
    }
}

/// The five recognized metrics, one per sparse record field.
#[derive(PartialEq, Eq, Structural, Clone, Copy, Debug)]
pub enum Metric {
    Sales,
    OperatingProfit,
    NetIncome,
    DividendPerShare,
    DividendYield,
}

/// The metric named by a row-label text, if it is one of the five recognized
/// labels; any other label is ignored.
pub open spec fn metric_of(name: Seq<char>) -> Option<Metric> {
    if name == "매출액"@ {
        Some(Metric::Sales)
    } else if name == "영업이익"@ {
        Some(Metric::OperatingProfit)
    } else if name == "당기순이익"@ {
        Some(Metric::NetIncome)
    } else if name == "주당배당금(원)"@ {
        Some(Metric::DividendPerShare)
    } else if name == "시가배당률(%)"@ {
        Some(Metric::DividendYield)
    } else {
        None
    }
}

/// Looks a row-label text up among the recognized metric labels.
pub fn metric_lookup(name: &Vec<char>) -> (m: Option<Metric>)
    ensures
        m == metric_of(name@),
{
    if text_eq(name, &str_to_chars("매출액")) {
        Some(Metric::Sales)
    } else if text_eq(name, &str_to_chars("영업이익")) {
        Some(Metric::OperatingProfit)
    } else if text_eq(name, &str_to_chars("당기순이익")) {
        Some(Metric::NetIncome)
    } else if text_eq(name, &str_to_chars("주당배당금(원)")) {
        Some(Metric::DividendPerShare)
    } else if text_eq(name, &str_to_chars("시가배당률(%)")) {
        Some(Metric::DividendYield)
    } else {
        None
    }
}

/// `r` with the field for metric `m` set to `value`; `r` unchanged when no
/// metric is named.
pub open spec fn set_metric_spec(r: RecordModel, m: Option<Metric>, value: Option<i64>) -> RecordModel {
    match m {
        None => r,
        Some(Metric::Sales) => RecordModel { sales: value, ..r },
        Some(Metric::OperatingProfit) => RecordModel { profit: value, ..r },
        Some(Metric::NetIncome) => RecordModel { net_income: value, ..r },
        Some(Metric::DividendPerShare) => RecordModel { dividend: value, ..r },
        Some(Metric::DividendYield) => RecordModel { dividend_yield: value, ..r },
    }
}

/// The first index among `rs` holding a record for period `ym`.
pub open spec fn find_ym(rs: Seq<RecordModel>, ym: YearMonth) -> Option<int>
    decreases rs.len(),
{
    if rs.len() == 0 {
        None
    } else if rs[0].year_month == ym {
        Some(0)
    } else {
        match find_ym(rs.drop_first(), ym) {
            Some(i) => Some(i + 1),
            None => None,
        }
    }
}

pub proof fn lemma_find_ym(rs: Seq<RecordModel>, ym: YearMonth)
    ensures
        match find_ym(rs, ym) {
            Some(i) => 0 <= i < rs.len() && rs[i].year_month == ym && forall|j: int|
                0 <= j < i ==> rs[j].year_month != ym,
            None => forall|j: int| 0 <= j < rs.len() ==> rs[j].year_month != ym,
        },
    decreases rs.len(),
{
    if rs.len() > 0 && rs[0].year_month != ym {
        let d = rs.drop_first();
        lemma_find_ym(d, ym);
        assert(forall|j: int| 1 <= j < rs.len() ==> rs[j] == d[j - 1]);
    }
}

pub proof fn lemma_find_ym_is(rs: Seq<RecordModel>, ym: YearMonth, i: int)
    requires
        0 <= i < rs.len(),
        rs[i].year_month == ym,
        forall|j: int| 0 <= j < i ==> rs[j].year_month != ym,
    ensures
        find_ym(rs, ym) == Some(i),
    decreases rs.len(),
{
    if i > 0 {
        let d = rs.drop_first();
        assert(forall|j: int| 0 <= j < d.len() ==> d[j] == rs[j + 1]);
        lemma_find_ym_is(d, ym, i - 1);
    }
}

/// What `register` does: the first record for the period gets the metric's
/// field set; with no such record a new blank one is appended, its field set.
pub open spec fn register_spec(
    rs: Seq<RecordModel>,
    code: Seq<char>,
    ym: YearMonth,
    name: Seq<char>,
    value: Option<i64>,
) -> Seq<RecordModel> {
    match find_ym(rs, ym) {
        Some(i) => rs.update(i, set_metric_spec(rs[i], metric_of(name), value)),
        None => rs.push(set_metric_spec(blank_record(code, ym), metric_of(name), value)),
    }
}

/// Accumulates observations into per-period records, in insertion order.
pub struct FinancialInfoRegistry {
    pub stock_code: String,
    pub list: Vec<FinancialInfo>,
}

impl FinancialInfoRegistry {
    /// The entity code the registry stamps on new records.
    pub open spec fn code_spec(&self) -> Seq<char> {
        self.stock_code@
    }

    /// The accumulated records as mathematical values, in insertion order.
    pub open spec fn records(&self) -> Seq<RecordModel> {
        record_views(self.list@)
    }

    /// An empty registry for the given entity.
    pub fn new(stock_code: &str) -> (r: Self)
        ensures
            r.code_spec() == stock_code@,
            r.records() == Seq::<RecordModel>::empty(),
    {
        let r = Self { stock_code: stock_code.to_owned(), list: Vec::new() };
        proof {
            assert(r.records() =~= Seq::<RecordModel>::empty());
        }
        r
    }

    /// Sets the field named by `data_name` to `value`; a record with an
    /// unrecognized name is left unchanged.
    pub fn set_fi_property(fi: &mut FinancialInfo, data_name: &str, value: Option<i64>)
        ensures
            final(fi)@ == set_metric_spec(old(fi)@, metric_of(data_name@), value),
    {
        let name = str_to_chars(data_name);
        Self::set_fi_property_text(fi, &name, value)
    }

    /// As `set_fi_property`, with the name already given as characters.
    pub fn set_fi_property_text(fi: &mut FinancialInfo, data_name: &Vec<char>, value: Option<i64>)
        ensures
            final(fi)@ == set_metric_spec(old(fi)@, metric_of(data_name@), value),
    {
        match metric_lookup(data_name) {
            None => (),
            Some(Metric::Sales) => {
                fi.sales = value;
            },
            Some(Metric::OperatingProfit) => {
                fi.profit = value;
            },
            Some(Metric::NetIncome) => {
                fi.net_income = value;
            },
            Some(Metric::DividendPerShare) => {
                fi.dividend = value;
            },
            Some(Metric::DividendYield) => {
                fi.dividend_yield = value;
            },
        }
    }

    /// Records one observation: the record for `year_month` (created blank if
    /// absent) gets the field named by `data_name` set to `value`.
    pub fn register(&mut self, year_month: YearMonth, data_name: &str, value: Option<i64>)
        ensures
            final(self).records() == register_spec(
                old(self).records(),
                old(self).code_spec(),
                year_month,
                data_name@,
                value,
            ),
            final(self).code_spec() == old(self).code_spec(),
    {
        let name = str_to_chars(data_name);
        self.register_text(year_month, &name, value)
    }

    /// As `register`, with the name already given as characters.
    pub fn register_text(&mut self, year_month: YearMonth, data_name: &Vec<char>, value: Option<i64>)
        ensures
            final(self).records() == register_spec(
                old(self).records(),
                old(self).code_spec(),
                year_month,
                data_name@,
                value,
            ),
            final(self).code_spec() == old(self).code_spec(),
    {
        let ghost rs = self.records();
        let mut i: usize = 0;
        while i < self.list.len()
            invariant
                i <= self.list.len(),
                rs == self.records(),
                *self == *old(self),
                forall|j: int| 0 <= j < i ==> rs[j].year_month != year_month,
            decreases self.list.len() - i,
        {
            if self.list[i].year_month == year_month {
                proof {
                    lemma_find_ym_is(rs, year_month, i as int);
                }
                let mut updated = clone_record(&self.list[i]);
                Self::set_fi_property_text(&mut updated, data_name, value);
                self.list.set(i, updated);
                proof {
                    assert(self.records() =~= rs.update(
                        i as int,
                        set_metric_spec(rs[i as int], metric_of(data_name@), value),
                    ));
                }
                return ;
            }
            i = i + 1;
        }
        proof {
            lemma_find_ym(rs, year_month);
            assert(find_ym(rs, year_month) is None);
        }
        let mut fi = FinancialInfo {
            stock_code: self.stock_code.clone(),
            year_month,
            sales: None,
            profit: None,
            net_income: None,
            dividend: None,
            dividend_yield: None,
        };
        Self::set_fi_property_text(&mut fi, data_name, value);
        self.list.push(fi);
        proof {
            assert(self.records() =~= rs.push(
                set_metric_spec(
                    blank_record(old(self).code_spec(), year_month),
                    metric_of(data_name@),
                    value,
                ),
            ));
        }
    }

    /// Whether no record has been accumulated.
    pub fn is_empty(&self) -> (b: bool)
        ensures
            b == (self.records().len() == 0),
    {
        self.list.is_empty()
    }

    /// How many records have been accumulated.
    pub fn len(&self) -> (n: usize)
        ensures
            n == self.records().len(),
    {
        self.list.len()
    }
}

/// Registering the same observation twice leaves the records exactly as
/// registering it once does.
pub proof fn lemma_register_idempotent(
    rs: Seq<RecordModel>,
    code: Seq<char>,
    ym: YearMonth,
    name: Seq<char>,
    value: Option<i64>,
)
    ensures
        register_spec(register_spec(rs, code, ym, name, value), code, ym, name, value)
            == register_spec(rs, code, ym, name, value),
{
    let m = metric_of(name);
    let r1 = register_spec(rs, code, ym, name, value);
    lemma_find_ym(rs, ym);
    match find_ym(rs, ym) {
        Some(i) => {
            let x = set_metric_spec(rs[i], m, value);
            assert(x.year_month == rs[i].year_month);
            assert(r1 == rs.update(i, x));
            assert(forall|j: int| 0 <= j < i ==> r1[j] == rs[j]);
            lemma_find_ym_is(r1, ym, i);
            assert(set_metric_spec(r1[i], m, value) == x);
            assert(r1.update(i, x) =~= r1);
        },
        None => {
            let x = set_metric_spec(blank_record(code, ym), m, value);
            assert(x.year_month == ym);
            assert(r1 == rs.push(x));
            assert(r1[rs.len() as int] == x);
            assert(forall|j: int| 0 <= j < rs.len() ==> r1[j] == rs[j]);
            lemma_find_ym_is(r1, ym, rs.len() as int);
            assert(set_metric_spec(r1[rs.len() as int], m, value) == x);
            assert(r1.update(rs.len() as int, x) =~= r1);
        },
    }
}

/// Whether the record at index `i` survives annual de-duplication: no other
/// record of the same calendar year has a later period, and no earlier record
/// has the very same period.
pub open spec fn keeps(rs: Seq<RecordModel>, i: int) -> bool {
    &&& 0 <= i < rs.len()
    &&& forall|j: int|
        0 <= j < rs.len() && j != i && rs[j].year_month.year == rs[i].year_month.year ==> !(
        rs[i].year_month.lt_spec(rs[j].year_month) || (rs[j].year_month == rs[i].year_month && j
            < i))
}

/// The surviving records among the first `k`, in their original order.
pub open spec fn dedup_pre(rs: Seq<RecordModel>, k: int) -> Seq<RecordModel>
    decreases k,
{
    if k <= 0 {
        Seq::empty()
    } else {
        let p = dedup_pre(rs, k - 1);
        if keeps(rs, k - 1) {
            p.push(rs[k - 1])
        } else {
            p
        }
    }
}

/// Annual de-duplication: for every calendar year only the record with the
/// greatest period survives (the earliest such record, should two share the
/// greatest period); order is otherwise preserved.
pub open spec fn dedup_spec(rs: Seq<RecordModel>) -> Seq<RecordModel> {
    dedup_pre(rs, rs.len() as int)
}

/// The two per-axis registries of one entity's decoded facts.
pub struct Financials {
    pub annuals: FinancialInfoRegistry,
    pub quarters: FinancialInfoRegistry,
}

impl Financials {
    /// Two empty registries for the given entity.
    pub fn new(stock_code: &str) -> (r: Self)
        ensures
            r.annuals.code_spec() == stock_code@,
            r.quarters.code_spec() == stock_code@,
            r.annuals.records() == Seq::<RecordModel>::empty(),
            r.quarters.records() == Seq::<RecordModel>::empty(),
    {
        Self {
            annuals: FinancialInfoRegistry::new(stock_code),
            quarters: FinancialInfoRegistry::new(stock_code),
        }
    }

    /// Collapses same-year annual records to the one with the latest period.
    /// The quarterly records are never touched.
    pub fn remove_duplicate(&mut self)
        ensures
            final(self).annuals.records() == dedup_spec(old(self).annuals.records()),
            final(self).annuals.code_spec() == old(self).annuals.code_spec(),
            final(self).quarters == old(self).quarters,
    {
        let ghost rs = self.annuals.records();
        let n = self.annuals.list.len();
        let mut out: Vec<FinancialInfo> = Vec::new();
        let mut i: usize = 0;
        while i < n
            invariant
                i <= n,
                n == self.annuals.list.len(),
                *self == *old(self),
                rs == self.annuals.records(),
                out@.map_values(|fi: FinancialInfo| fi@) == dedup_pre(rs, i as int),
            decreases n - i,
        {
            let mut beaten = false;
            let mut j: usize = 0;
            while j < n
                invariant
                    j <= n,
                    i < n,
                    n == self.annuals.list.len(),
                    *self == *old(self),
                    rs == self.annuals.records(),
                    beaten == exists|jj: int|
                        0 <= jj < j && jj != i && rs[jj].year_month.year == rs[i as int].year_month.year && (rs[i as int].year_month.lt_spec(rs[jj].year_month)
                            || (rs[jj].year_month == rs[i as int].year_month && jj < i)),
                decreases n - j,
            {
                if j != i {
                    let same_year = self.annuals.list[j].year_month.year
                        == self.annuals.list[i].year_month.year;
                    let later = self.annuals.list[i].year_month.is_before(
                        &self.annuals.list[j].year_month,
                    );
                    let tie_earlier = self.annuals.list[j].year_month
                        == self.annuals.list[i].year_month && j < i;
                    if same_year && (later || tie_earlier) {
                        beaten = true;
                        proof {
                            assert(rs[j as int] == self.annuals.list@[j as int]@);
                        }
                    }
                }
                proof {
                    assert(rs[j as int] == self.annuals.list@[j as int]@);
                    assert(rs[i as int] == self.annuals.list@[i as int]@);
                }
                j = j + 1;
            }
            if !beaten {
                proof {
                    assert(keeps(rs, i as int));
                }
                out.push(clone_record(&self.annuals.list[i]));
                proof {
                    assert(out@.map_values(|fi: FinancialInfo| fi@) =~= dedup_pre(rs, i + 1));
                }
            } else {
                proof {
                    assert(!keeps(rs, i as int));
                }
            }
            i = i + 1;
        }
        self.annuals.list = out;
        proof {
            assert(rs.len() == n);
        }
    }
}

/// The input index that the `a`-th surviving record of `dedup_pre(rs, k)`
/// came from.
pub open spec fn origin_idx(rs: Seq<RecordModel>, k: int, a: int) -> int
    decreases k,
{
    if k <= 0 {
        0
    } else if keeps(rs, k - 1) && a == dedup_pre(rs, k - 1).len() {
        k - 1
    } else {
        origin_idx(rs, k - 1, a)
    }
}

/// Every record of the de-duplicated list comes from a surviving index of
/// the input: `dedup_pre(rs, k)[a]` is `rs[origin_idx(rs, k, a)]`.
pub proof fn lemma_dedup_origin_at(rs: Seq<RecordModel>, k: int, a: int)
    requires
        0 <= k <= rs.len(),
        0 <= a < dedup_pre(rs, k).len(),
    ensures
        0 <= origin_idx(rs, k, a) < k,
        keeps(rs, origin_idx(rs, k, a)),
        dedup_pre(rs, k)[a] == rs[origin_idx(rs, k, a)],
    decreases k,
{
    if k > 0 {
        if !(keeps(rs, k - 1) && a == dedup_pre(rs, k - 1).len()) {
            lemma_dedup_origin_at(rs, k - 1, a);
        }
    }
}

/// Two surviving records keep the order of the input indices they came from.
pub proof fn lemma_dedup_origin_mono(rs: Seq<RecordModel>, k: int, a: int, b: int)
    requires
        0 <= k <= rs.len(),
        0 <= a < b < dedup_pre(rs, k).len(),
    ensures
        origin_idx(rs, k, a) < origin_idx(rs, k, b),
    decreases k,
{
    if k > 0 {
        if keeps(rs, k - 1) && b == dedup_pre(rs, k - 1).len() {
            lemma_dedup_origin_at(rs, k - 1, a);
        } else {
            lemma_dedup_origin_mono(rs, k - 1, a, b);
        }
    }
}

/// After de-duplication no two distinct records share a calendar year.
pub proof fn lemma_dedup_years_distinct(rs: Seq<RecordModel>)
    ensures
        forall|a: int, b: int|
            0 <= a < b < dedup_spec(rs).len() ==> dedup_spec(rs)[a].year_month.year != dedup_spec(rs)[b].year_month.year,
{
    let d = dedup_spec(rs);
    assert forall|a: int, b: int|
        0 <= a < b < d.len() implies d[a].year_month.year != d[b].year_month.year by {
        lemma_dedup_origin_at(rs, rs.len() as int, a);
        lemma_dedup_origin_at(rs, rs.len() as int, b);
        lemma_dedup_origin_mono(rs, rs.len() as int, a, b);
        let p = origin_idx(rs, rs.len() as int, a);
        let q = origin_idx(rs, rs.len() as int, b);
        if rs[p].year_month.year == rs[q].year_month.year {
            assert(!(rs[p].year_month.lt_spec(rs[q].year_month) || (rs[q].year_month
                == rs[p].year_month && q < p)));
            assert(!(rs[q].year_month.lt_spec(rs[p].year_month) || (rs[p].year_month
                == rs[q].year_month && p < q)));
            assert(rs[p].year_month.month == rs[q].year_month.month);
            assert(rs[p].year_month == rs[q].year_month);
            assert(false);
        }
    }
}

proof fn lemma_dedup_all_kept(rs: Seq<RecordModel>, k: int)
    requires
        0 <= k <= rs.len(),
        forall|i: int| 0 <= i < rs.len() ==> keeps(rs, i),
    ensures
        dedup_pre(rs, k) == rs.take(k),
    decreases k,
{
    if k == 0 {
        assert(dedup_pre(rs, 0) =~= rs.take(0));
    } else {
        lemma_dedup_all_kept(rs, k - 1);
        assert(keeps(rs, k - 1));
        assert(rs.take(k - 1).push(rs[k - 1]) =~= rs.take(k));
    }
}

/// De-duplication is idempotent: running it on an already de-duplicated list
/// changes nothing.
pub proof fn lemma_dedup_idempotent(rs: Seq<RecordModel>)
    ensures
        dedup_spec(dedup_spec(rs)) == dedup_spec(rs),
{
    let d = dedup_spec(rs);
    lemma_dedup_years_distinct(rs);
    assert forall|i: int| 0 <= i < d.len() implies keeps(d, i) by {
        assert forall|j: int|
            0 <= j < d.len() && j != i && d[j].year_month.year == d[i].year_month.year implies !(d[i].year_month.lt_spec(d[j].year_month) || (d[j].year_month == d[i].year_month && j
            < i)) by {
            if i < j {
                assert(d[i].year_month.year != d[j].year_month.year);
            } else {
                assert(d[j].year_month.year != d[i].year_month.year);
            }
        }
    }
    lemma_dedup_all_kept(d, d.len() as int);
    assert(d.take(d.len() as int) =~= d);
}

/// A record whose period is strictly later than every other same-year
/// record's period survives de-duplication.
pub proof fn lemma_dedup_retains_latest(rs: Seq<RecordModel>, i: int)
    requires
        0 <= i < rs.len(),
        forall|j: int|
            0 <= j < rs.len() && j != i && rs[j].year_month.year == rs[i].year_month.year ==> rs[j].year_month.lt_spec(rs[i].year_month),
    ensures
        keeps(rs, i),
        dedup_spec(rs).contains(rs[i]),
{
    assert forall|j: int|
        0 <= j < rs.len() && j != i && rs[j].year_month.year == rs[i].year_month.year implies !(rs[i].year_month.lt_spec(rs[j].year_month) || (rs[j].year_month == rs[i].year_month && j < i)) by {
        assert(rs[j].year_month.lt_spec(rs[i].year_month));
    }
    lemma_dedup_member(rs, i, rs.len() as int);
}

/// A record dominated by a later same-year record does not survive.
pub proof fn lemma_dedup_drops_superseded(rs: Seq<RecordModel>, i: int, j: int)
    requires
        0 <= i < rs.len(),
        0 <= j < rs.len(),
        i != j,
        rs[j].year_month.year == rs[i].year_month.year,
        rs[i].year_month.lt_spec(rs[j].year_month),
    ensures
        !keeps(rs, i),
{
}

proof fn lemma_dedup_member(rs: Seq<RecordModel>, i: int, k: int)
    requires
        keeps(rs, i),
        i < k <= rs.len(),
    ensures
        dedup_pre(rs, k).contains(rs[i]),
    decreases k,
{
    if k - 1 == i {
        assert(dedup_pre(rs, k) == dedup_pre(rs, k - 1).push(rs[i]));
        assert(dedup_pre(rs, k)[dedup_pre(rs, k).len() - 1] == rs[i]);
    } else {
        lemma_dedup_member(rs, i, k - 1);
        let d1 = dedup_pre(rs, k - 1);
        let a = choose|a: int| 0 <= a < d1.len() && d1[a] == rs[i];
        if keeps(rs, k - 1) {
            assert(dedup_pre(rs, k)[a] == rs[i]);
        } else {
            assert(dedup_pre(rs, k)[a] == rs[i]);
        }
    }
}

} // verus!
