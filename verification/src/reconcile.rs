//! Reconciliation of freshly decoded records against previously stored ones:
//! a minimal list of insert and update intents. Stored records without a
//! fresh counterpart are always left untouched — the library never deletes
//! a historical fact it failed to re-observe.

use vstd::prelude::*;
use crate::fi_registry::{clone_record, record_views, FinancialInfo, Financials, RecordModel};
use crate::types::YearMonth;

verus! {

/// The two independent time dimensions of the decoded facts.
#[derive(PartialEq, Eq, Structural, Clone, Copy, Debug)]
pub enum Axis {
    Annual,
    Quarterly,
}

/// Whether a stored and a fresh record name the same row of storage: on the
/// annual axis the calendar year alone, on the quarterly axis the full
/// period.
pub open spec fn same_identity(axis: Axis, stored: RecordModel, fresh: RecordModel) -> bool {
    match axis {
        Axis::Annual => stored.year_month.year == fresh.year_month.year,
        Axis::Quarterly => stored.year_month == fresh.year_month,
    }
}

/// A decided write, not yet applied to storage.
pub enum WriteIntent {
    /// Store this record anew.
    Insert(FinancialInfo),
    /// Replace the values of the stored record whose period is
    /// `stored_period` with those of `fresh` (on the annual axis the fresh
    /// period's month replaces the stored one as well).
    Update { stored_period: YearMonth, fresh: FinancialInfo },
}

/// The mathematical value of a write intent.
pub ghost enum IntentModel {
    Insert(RecordModel),
    Update { stored_period: YearMonth, fresh: RecordModel },
}

impl View for WriteIntent {
    type V = IntentModel;

    open spec fn view(&self) -> IntentModel {
        match self {
            WriteIntent::Insert(fi) => IntentModel::Insert(fi@),
            WriteIntent::Update { stored_period, fresh } => IntentModel::Update {
                stored_period: *stored_period,
                fresh: fresh@,
            },
        }
    }
}

/// The mathematical values of a list of intents, in order.
pub open spec fn intent_views(s: Seq<WriteIntent>) -> Seq<IntentModel> {
    s.map_values(|it: WriteIntent| it@)
}

/// The fresh record an intent carries.
pub open spec fn intent_fresh(it: IntentModel) -> RecordModel {
    match it {
        IntentModel::Insert(r) => r,
        IntentModel::Update { fresh, .. } => fresh,
    }
}

/// The first stored index with the same identity as `f`.
pub open spec fn find_match(axis: Axis, stored: Seq<RecordModel>, f: RecordModel) -> Option<int>
    decreases stored.len(),
{
    if stored.len() == 0 {
        None
    } else if same_identity(axis, stored[0], f) {
        Some(0)
    } else {
        match find_match(axis, stored.drop_first(), f) {
            Some(i) => Some(i + 1),
            None => None,
        }
    }
}

pub proof fn lemma_find_match(axis: Axis, stored: Seq<RecordModel>, f: RecordModel)
    ensures
        match find_match(axis, stored, f) {
            Some(i) => 0 <= i < stored.len() && same_identity(axis, stored[i], f) && forall|j: int|
                0 <= j < i ==> !same_identity(axis, stored[j], f),
            None => forall|j: int| 0 <= j < stored.len() ==> !same_identity(axis, stored[j], f),
        },
    decreases stored.len(),
{
    if stored.len() > 0 && !same_identity(axis, stored[0], f) {
        let d = stored.drop_first();
        lemma_find_match(axis, d, f);
        assert(forall|j: int| 1 <= j < stored.len() ==> stored[j] == d[j - 1]);
    }
}

pub proof fn lemma_find_match_is(axis: Axis, stored: Seq<RecordModel>, f: RecordModel, i: int)
    requires
        0 <= i < stored.len(),
        same_identity(axis, stored[i], f),
        forall|j: int| 0 <= j < i ==> !same_identity(axis, stored[j], f),
    ensures
        find_match(axis, stored, f) == Some(i),
    decreases stored.len(),
{
    if i > 0 {
        let d = stored.drop_first();
        assert(forall|j: int| 0 <= j < d.len() ==> d[j] == stored[j + 1]);
        lemma_find_match_is(axis, d, f, i - 1);
    }
}

/// Whether two records agree on the five optional numeric fields. The entity
/// code and the period are deliberately not compared: they are what records
/// are matched by, not observed values.
pub open spec fn same_fields(a: RecordModel, b: RecordModel) -> bool {
    &&& a.sales == b.sales
    &&& a.profit == b.profit
    &&& a.net_income == b.net_income
    &&& a.dividend == b.dividend
    &&& a.dividend_yield == b.dividend_yield
}

/// Whether a fresh record gives rise to an intent: always when storage has no
/// record of its identity, otherwise only when the stored record differs on
/// one of the five numeric fields.
pub open spec fn pushes_intent(axis: Axis, stored: Seq<RecordModel>, f: RecordModel) -> bool {
    match find_match(axis, stored, f) {
        None => true,
        Some(i) => !same_fields(stored[i], f),
    }
}

/// The intent a fresh record gives rise to.
pub open spec fn step_intent(axis: Axis, stored: Seq<RecordModel>, f: RecordModel) -> IntentModel {
    match find_match(axis, stored, f) {
        None => IntentModel::Insert(f),
        Some(i) => IntentModel::Update { stored_period: stored[i].year_month, fresh: f },
    }
}

/// The intents produced by the first `k` fresh records, in order.
pub open spec fn reconcile_pre(
    axis: Axis,
    fresh: Seq<RecordModel>,
    stored: Seq<RecordModel>,
    k: int,
) -> Seq<IntentModel>
    decreases k,
{
    if k <= 0 {
        Seq::empty()
    } else {
        let pre = reconcile_pre(axis, fresh, stored, k - 1);
        if pushes_intent(axis, stored, fresh[k - 1]) {
            pre.push(step_intent(axis, stored, fresh[k - 1]))
        } else {
            pre
        }
    }
}

/// What reconciliation produces: for each fresh record in order, an `Insert`
/// when storage has no record of its identity, an `Update` when the stored
/// record differs on one of the five numeric fields, and nothing when the
/// fields all agree.
pub open spec fn reconcile_spec(
    axis: Axis,
    fresh: Seq<RecordModel>,
    stored: Seq<RecordModel>,
) -> Seq<IntentModel> {
    reconcile_pre(axis, fresh, stored, fresh.len() as int)
}

fn same_identity_exec(axis: Axis, stored: &FinancialInfo, fresh: &FinancialInfo) -> (b: bool)
    ensures
        b == same_identity(axis, stored@, fresh@),
{
    match axis {
        Axis::Annual => stored.year_month.year == fresh.year_month.year,
        Axis::Quarterly => stored.year_month == fresh.year_month,
    }
}

fn opt_i64_eq(a: Option<i64>, b: Option<i64>) -> (r: bool)
    ensures
        r == (a == b),
{
    match (a, b) {
        (None, None) => true,
        (Some(x), Some(y)) => x == y,
        _ => false,
    }
}

/// Equality of two records on the five optional numeric fields alone; the
/// entity code and period are not compared.
pub fn fields_equal(a: &FinancialInfo, b: &FinancialInfo) -> (r: bool)
    ensures
        r == same_fields(a@, b@),
{
    opt_i64_eq(a.sales, b.sales) && opt_i64_eq(a.profit, b.profit) && opt_i64_eq(
        a.net_income,
        b.net_income,
    ) && opt_i64_eq(a.dividend, b.dividend) && opt_i64_eq(a.dividend_yield, b.dividend_yield)
}

/// Equality of two whole records: identity and the five numeric fields.
pub fn records_equal(a: &FinancialInfo, b: &FinancialInfo) -> (r: bool)
    ensures
        r == (a@ == b@),
{
    let r = a.stock_code == b.stock_code && a.year_month == b.year_month && fields_equal(a, b);
    proof {
        if r {
            assert(a@ == b@);
        } else {
            assert(a@ != b@);
        }
    }
    r
}

/// Diffs fresh records against stored ones on the given axis and returns the
/// write intents, in fresh-record order.
pub fn reconcile(axis: Axis, fresh: &Vec<FinancialInfo>, stored: &Vec<FinancialInfo>) -> (out: Vec<
    WriteIntent,
>)
    ensures
        intent_views(out@) == reconcile_spec(axis, record_views(fresh@), record_views(stored@)),
{
    let ghost fs = record_views(fresh@);
    let ghost ss = record_views(stored@);
    let mut out: Vec<WriteIntent> = Vec::new();
    let mut i: usize = 0;
    while i < fresh.len()
        invariant
            i <= fresh.len(),
            fs == record_views(fresh@),
            ss == record_views(stored@),
            intent_views(out@) == reconcile_pre(axis, fs, ss, i as int),
        decreases fresh.len() - i,
    {
        let f = &fresh[i];
        proof {
            assert(fs[i as int] == fresh@[i as int]@);
        }
        let mut j: usize = 0;
        let mut matched = false;
        while j < stored.len() && !matched
            invariant
                j <= stored.len(),
                i < fresh.len(),
                fs == record_views(fresh@),
                ss == record_views(stored@),
                f == &fresh@[i as int],
                matched ==> j < stored.len() && same_identity(axis, ss[j as int], fs[i as int]),
                forall|jj: int| 0 <= jj < j ==> !same_identity(axis, ss[jj], fs[i as int]),
            decreases stored.len() - j, (if matched { 0int } else { 1int }),
        {
            proof {
                assert(ss[j as int] == stored@[j as int]@);
            }
            if same_identity_exec(axis, &stored[j], f) {
                matched = true;
            } else {
                j = j + 1;
            }
        }
        if matched {
            proof {
                lemma_find_match_is(axis, ss, fs[i as int], j as int);
            }
            if !fields_equal(&stored[j], f) {
                proof {
                    assert(ss[j as int] == stored@[j as int]@);
                }
                out.push(
                    WriteIntent::Update { stored_period: stored[j].year_month, fresh: clone_record(f) },
                );
                proof {
                    assert(intent_views(out@) =~= reconcile_pre(axis, fs, ss, i + 1));
                }
            } else {
                proof {
                    assert(ss[j as int] == stored@[j as int]@);
                    assert(!pushes_intent(axis, ss, fs[i as int]));
                }
            }
        } else {
            proof {
                lemma_find_match(axis, ss, fs[i as int]);
                assert(find_match(axis, ss, fs[i as int]) is None);
            }
            out.push(WriteIntent::Insert(clone_record(f)));
            proof {
                assert(intent_views(out@) =~= reconcile_pre(axis, fs, ss, i + 1));
            }
        }
        i = i + 1;
    }
    out
}

impl Financials {
    /// Write intents for the annual axis: stored rows are matched by calendar
    /// year.
    pub fn reconcile_annuals(&self, stored: &Vec<FinancialInfo>) -> (out: Vec<WriteIntent>)
        ensures
            intent_views(out@) == reconcile_spec(
                Axis::Annual,
                self.annuals.records(),
                record_views(stored@),
            ),
    {
        reconcile(Axis::Annual, &self.annuals.list, stored)
    }

    /// Write intents for the quarterly axis: stored rows are matched by the
    /// full period.
    pub fn reconcile_quarters(&self, stored: &Vec<FinancialInfo>) -> (out: Vec<WriteIntent>)
        ensures
            intent_views(out@) == reconcile_spec(
                Axis::Quarterly,
                self.quarters.records(),
                record_views(stored@),
            ),
    {
        reconcile(Axis::Quarterly, &self.quarters.list, stored)
    }
}

/// The fresh index that the `a`-th intent of `reconcile_pre(..., k)` came
/// from.
pub open spec fn intent_origin(
    axis: Axis,
    fresh: Seq<RecordModel>,
    stored: Seq<RecordModel>,
    k: int,
    a: int,
) -> int
    decreases k,
{
    if k <= 0 {
        0
    } else if pushes_intent(axis, stored, fresh[k - 1]) && a == reconcile_pre(
        axis,
        fresh,
        stored,
        k - 1,
    ).len() {
        k - 1
    } else {
        intent_origin(axis, fresh, stored, k - 1, a)
    }
}

/// Every intent comes from one fresh record: the `a`-th intent is exactly the
/// step intent of the fresh record at `intent_origin(..., a)`, and that
/// record does give rise to an intent.
pub proof fn lemma_intent_origin_at(
    axis: Axis,
    fresh: Seq<RecordModel>,
    stored: Seq<RecordModel>,
    k: int,
    a: int,
)
    requires
        0 <= k <= fresh.len(),
        0 <= a < reconcile_pre(axis, fresh, stored, k).len(),
    ensures
        0 <= intent_origin(axis, fresh, stored, k, a) < k,
        pushes_intent(axis, stored, fresh[intent_origin(axis, fresh, stored, k, a)]),
        reconcile_pre(axis, fresh, stored, k)[a] == step_intent(
            axis,
            stored,
            fresh[intent_origin(axis, fresh, stored, k, a)],
        ),
    decreases k,
{
    if k > 0 {
        if !(pushes_intent(axis, stored, fresh[k - 1]) && a == reconcile_pre(
            axis,
            fresh,
            stored,
            k - 1,
        ).len()) {
            lemma_intent_origin_at(axis, fresh, stored, k - 1, a);
        }
    }
}

/// Two intents keep the order of the fresh records they came from.
pub proof fn lemma_intent_origin_mono(
    axis: Axis,
    fresh: Seq<RecordModel>,
    stored: Seq<RecordModel>,
    k: int,
    a: int,
    b: int,
)
    requires
        0 <= k <= fresh.len(),
        0 <= a < b < reconcile_pre(axis, fresh, stored, k).len(),
    ensures
        intent_origin(axis, fresh, stored, k, a) < intent_origin(axis, fresh, stored, k, b),
    decreases k,
{
    if k > 0 {
        if pushes_intent(axis, stored, fresh[k - 1]) && b == reconcile_pre(
            axis,
            fresh,
            stored,
            k - 1,
        ).len() {
            lemma_intent_origin_at(axis, fresh, stored, k - 1, a);
        } else {
            lemma_intent_origin_mono(axis, fresh, stored, k - 1, a, b);
        }
    }
}

/// The fresh record of a step intent is the record itself.
pub proof fn lemma_step_intent_fresh(axis: Axis, stored: Seq<RecordModel>, f: RecordModel)
    ensures
        intent_fresh(step_intent(axis, stored, f)) == f,
{
}

/// Reconciliation never emits two intents for the same identity — in
/// particular never both an `Insert` and an `Update` — provided the fresh
/// records carry pairwise distinct identities.
pub proof fn lemma_reconcile_identities_distinct(
    axis: Axis,
    fresh: Seq<RecordModel>,
    stored: Seq<RecordModel>,
)
    requires
        forall|i: int, j: int|
            0 <= i < j < fresh.len() ==> !same_identity(axis, fresh[i], fresh[j]),
    ensures
        forall|a: int, b: int|
            0 <= a < b < reconcile_spec(axis, fresh, stored).len() ==> !same_identity(
                axis,
                intent_fresh(reconcile_spec(axis, fresh, stored)[a]),
                intent_fresh(reconcile_spec(axis, fresh, stored)[b]),
            ),
{
    let out = reconcile_spec(axis, fresh, stored);
    let k = fresh.len() as int;
    assert forall|a: int, b: int| 0 <= a < b < out.len() implies !same_identity(
        axis,
        intent_fresh(out[a]),
        intent_fresh(out[b]),
    ) by {
        lemma_intent_origin_at(axis, fresh, stored, k, a);
        lemma_intent_origin_at(axis, fresh, stored, k, b);
        lemma_intent_origin_mono(axis, fresh, stored, k, a, b);
        let p = intent_origin(axis, fresh, stored, k, a);
        let q = intent_origin(axis, fresh, stored, k, b);
        lemma_step_intent_fresh(axis, stored, fresh[p]);
        lemma_step_intent_fresh(axis, stored, fresh[q]);
        assert(!same_identity(axis, fresh[p], fresh[q]));
    }
}

/// A fresh record whose five numeric fields equal its stored counterpart's
/// yields no intent at all: no emitted intent carries its identity, provided
/// the fresh records carry pairwise distinct identities.
pub proof fn lemma_reconcile_no_intent_when_identical(
    axis: Axis,
    fresh: Seq<RecordModel>,
    stored: Seq<RecordModel>,
    j: int,
)
    requires
        0 <= j < fresh.len(),
        forall|x: int, y: int|
            0 <= x < y < fresh.len() ==> !same_identity(axis, fresh[x], fresh[y]),
        !pushes_intent(axis, stored, fresh[j]),
    ensures
        forall|a: int|
            0 <= a < reconcile_spec(axis, fresh, stored).len() ==> !same_identity(
                axis,
                intent_fresh(reconcile_spec(axis, fresh, stored)[a]),
                fresh[j],
            ),
{
    let out = reconcile_spec(axis, fresh, stored);
    let k = fresh.len() as int;
    assert forall|a: int| 0 <= a < out.len() implies !same_identity(
        axis,
        intent_fresh(out[a]),
        fresh[j],
    ) by {
        lemma_intent_origin_at(axis, fresh, stored, k, a);
        let p = intent_origin(axis, fresh, stored, k, a);
        lemma_step_intent_fresh(axis, stored, fresh[p]);
        assert(p != j);
        if p < j {
            assert(!same_identity(axis, fresh[p], fresh[j]));
        } else {
            assert(!same_identity(axis, fresh[j], fresh[p]));
        }
    }
}

/// A stored record with no fresh counterpart is left untouched: no intent
/// carries its identity (and intents are only inserts and updates — there is
/// no delete-equivalent to emit).
pub proof fn lemma_reconcile_leaves_unmatched_stored(
    axis: Axis,
    fresh: Seq<RecordModel>,
    stored: Seq<RecordModel>,
    s: int,
)
    requires
        0 <= s < stored.len(),
        forall|j: int| 0 <= j < fresh.len() ==> !same_identity(axis, stored[s], fresh[j]),
    ensures
        forall|a: int|
            0 <= a < reconcile_spec(axis, fresh, stored).len() ==> !same_identity(
                axis,
                stored[s],
                intent_fresh(reconcile_spec(axis, fresh, stored)[a]),
            ),
{
    let out = reconcile_spec(axis, fresh, stored);
    let k = fresh.len() as int;
    assert forall|a: int| 0 <= a < out.len() implies !same_identity(
        axis,
        stored[s],
        intent_fresh(out[a]),
    ) by {
        lemma_intent_origin_at(axis, fresh, stored, k, a);
        let p = intent_origin(axis, fresh, stored, k, a);
        lemma_step_intent_fresh(axis, stored, fresh[p]);
        assert(!same_identity(axis, stored[s], fresh[p]));
    }
}

} // verus!
