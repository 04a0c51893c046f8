//! The span-aware header decoder: two physical header rows describe two
//! independent period axes. The first row fixes the column ranges of the two
//! axes and records vertical carry-overs; the second row assigns a period to
//! each column that shows one.

use vstd::prelude::*;
use crate::table::{
    Cell, CellModel, ledger_get_spec, ledger_remove_spec, ledger_set_spec, row_views, sat_add,
    sat_add_exec, span_of, span_val, RowSpanLedger,
};
use crate::text::{
    cell_text_spec, contains_text, ends_with_spec, ends_with_text, get_text, has_sub, str_to_chars,
};
use crate::types::{ym_parse_spec, ExtractError, YearMonth};

verus! {

/// The header marker naming the annual axis.
pub open spec fn annual_marker() -> Seq<char> {
    "최근 연간 실적"@
}

/// The header marker naming the quarterly axis.
pub open spec fn quarterly_marker() -> Seq<char> {
    "최근 분기 실적"@
}

/// The suffix marking an estimated (forward-looking) column, which never
/// becomes a historical fact.
pub open spec fn estimate_marker() -> Seq<char> {
    "(E)"@
}

/// The first text fragment of a cell, raw; the first header row is matched on
/// this, exactly as the markup shows it.
pub open spec fn cell_first_text(c: CellModel) -> Option<Seq<char>> {
    if c.texts.len() > 0 {
        Some(c.texts[0])
    } else {
        None
    }
}

/// The state of the first header row's scan: the running column cursor, the
/// carry-over ledger, and the axis column ranges found so far (half-open).
pub ghost struct AxisScan {
    pub col: usize,
    pub spans: Seq<(usize, usize)>,
    pub annual: Option<(usize, usize)>,
    pub quarter: Option<(usize, usize)>,
}

/// The scan state before any cell.
pub open spec fn axis_scan_init() -> AxisScan {
    AxisScan { col: 0, spans: Seq::empty(), annual: None, quarter: None }
}

/// One cell of the first header row: a vertical span above one is recorded in
/// the ledger at the cell's starting column; a first text fragment holding an
/// axis marker fixes that axis's column range (the annual marker takes
/// precedence); the cursor advances by the cell's column span.
pub open spec fn axis_step(st: AxisScan, c: CellModel) -> AxisScan {
    let rs = span_val(c.rowspan);
    let cs = span_val(c.colspan);
    let spans1 = if rs > 1 {
        ledger_set_spec(st.spans, st.col, rs)
    } else {
        st.spans
    };
    let ncol = sat_add(st.col, cs);
    match cell_first_text(c) {
        None => AxisScan { col: ncol, spans: spans1, ..st },
        Some(t) => if has_sub(t, annual_marker()) {
            AxisScan {
                col: ncol,
                spans: spans1,
                annual: Some((st.col, sat_add(st.col, cs))),
                quarter: st.quarter,
            }
        } else if has_sub(t, quarterly_marker()) {
            AxisScan {
                col: ncol,
                spans: spans1,
                annual: st.annual,
                quarter: Some((st.col, sat_add(st.col, cs))),
            }
        } else {
            AxisScan { col: ncol, spans: spans1, ..st }
        },
    }
}

/// The scan state after the first `k` cells of the first header row.
pub open spec fn axis_scan(cells: Seq<CellModel>, k: int) -> AxisScan
    decreases k,
{
    if k <= 0 {
        axis_scan_init()
    } else {
        axis_step(axis_scan(cells, k - 1), cells[k - 1])
    }
}

/// The state of the second header row's scan: the column cursor, the ledger
/// carried over from the first row, and the per-axis (period, column) lists
/// built so far.
pub ghost struct PeriodScan {
    pub col: usize,
    pub spans: Seq<(usize, usize)>,
    pub annual_cols: Seq<(YearMonth, usize)>,
    pub quarter_cols: Seq<(YearMonth, usize)>,
}

/// Whether `col` lies in the half-open column range `r`.
pub open spec fn in_range(r: (usize, usize), col: usize) -> bool {
    r.0 <= col < r.1
}

/// The second header row's scan. At a column with a pending carry-over the
/// cursor moves on by one without consuming a cell (the carry-over count is
/// decremented, and dropped at one). Otherwise the next cell is consumed:
/// empty text and text ending in the estimate marker yield no period; any
/// other text must parse as a period (`Err` otherwise) and is appended, with
/// its column, to the list of every axis whose range holds the column.
pub open spec fn period_scan(
    cells: Seq<CellModel>,
    idx: int,
    st: PeriodScan,
    ar: (usize, usize),
    qr: (usize, usize),
) -> Result<PeriodScan, ()>
    decreases cells.len() - idx, usize::MAX - st.col,
{
    if idx < 0 || idx >= cells.len() {
        Ok(st)
    } else if ledger_get_spec(st.spans, st.col) is Some && st.col < usize::MAX {
        let rs = match ledger_get_spec(st.spans, st.col) {
            Some(r) => r,
            None => 0,
        };
        let spans1 = if rs > 2 {
            ledger_set_spec(st.spans, st.col, (rs - 1) as usize)
        } else {
            ledger_remove_spec(st.spans, st.col)
        };
        period_scan(
            cells,
            idx,
            PeriodScan { col: (st.col + 1) as usize, spans: spans1, ..st },
            ar,
            qr,
        )
    } else {
        let c = cells[idx];
        let cs = span_val(c.colspan);
        let t = cell_text_spec(c.texts);
        let ncol = sat_add(st.col, cs);
        if t.len() == 0 || ends_with_spec(t, estimate_marker()) {
            period_scan(cells, idx + 1, PeriodScan { col: ncol, ..st }, ar, qr)
        } else {
            match ym_parse_spec(t) {
                None => Err(()),
                Some(ym) => period_scan(
                    cells,
                    idx + 1,
                    PeriodScan {
                        col: ncol,
                        spans: st.spans,
                        annual_cols: if in_range(ar, st.col) {
                            st.annual_cols.push((ym, st.col))
                        } else {
                            st.annual_cols
                        },
                        quarter_cols: if in_range(qr, st.col) {
                            st.quarter_cols.push((ym, st.col))
                        } else {
                            st.quarter_cols
                        },
                    },
                    ar,
                    qr,
                ),
            }
        }
    }
}

/// What decoding a two-row header yields: the two ordered (period, column)
/// lists, or the error naming what made the header unusable.
pub open spec fn decode_header_spec(r1: Seq<CellModel>, r2: Seq<CellModel>) -> Result<
    (Seq<(YearMonth, usize)>, Seq<(YearMonth, usize)>),
    ExtractError,
> {
    let sc = axis_scan(r1, r1.len() as int);
    match (sc.annual, sc.quarter) {
        (Some(ar), Some(qr)) => match period_scan(
            r2,
            0,
            PeriodScan {
                col: 0,
                spans: sc.spans,
                annual_cols: Seq::empty(),
                quarter_cols: Seq::empty(),
            },
            ar,
            qr,
        ) {
            Ok(ps) => Ok((ps.annual_cols, ps.quarter_cols)),
            Err(_) => Err(ExtractError::MalformedPeriod),
        },
        _ => Err(ExtractError::MissingAxis),
    }
}

/// Decodes the two header rows into the annual and quarterly (period, column)
/// lists.
pub fn decode_header(row1: &Vec<Cell>, row2: &Vec<Cell>) -> (r: Result<
    (Vec<(YearMonth, usize)>, Vec<(YearMonth, usize)>),
    ExtractError,
>)
    ensures
        match (r, decode_header_spec(row_views(row1@), row_views(row2@))) {
            (Ok(v), Ok(m)) => v.0@ == m.0 && v.1@ == m.1,
            (Err(e), Err(em)) => e == em,
            _ => false,
        },
{
    let ghost r1v = row_views(row1@);
    let mut ledger = RowSpanLedger::new();
    let mut col: usize = 0;
    let mut annual_rng: Option<(usize, usize)> = None;
    let mut quarter_rng: Option<(usize, usize)> = None;
    let mut i: usize = 0;
    proof {
        assert(axis_scan(r1v, 0) == AxisScan {
            col: col,
            spans: ledger.entries@,
            annual: annual_rng,
            quarter: quarter_rng,
        });
    }
    while i < row1.len()
        invariant
            i <= row1.len(),
            r1v == row_views(row1@),
            axis_scan(r1v, i as int) == (AxisScan {
                col: col,
                spans: ledger.entries@,
                annual: annual_rng,
                quarter: quarter_rng,
            }),
        decreases row1.len() - i,
    {
        proof {
            assert(r1v[i as int] == row1@[i as int]@);
        }
        let c = &row1[i];
        let rs = span_of(&c.rowspan);
        let cs = span_of(&c.colspan);
        if rs > 1 {
            ledger.set(col, rs);
        }
        if c.texts.len() > 0 {
            proof {
                assert(c@.texts[0] == c.texts@[0]@);
            }
            let t = &c.texts[0];
            if contains_text(t, &str_to_chars("최근 연간 실적")) {
                annual_rng = Some((col, sat_add_exec(col, cs)));
            } else if contains_text(t, &str_to_chars("최근 분기 실적")) {
                quarter_rng = Some((col, sat_add_exec(col, cs)));
            }
        }
        col = sat_add_exec(col, cs);
        proof {
            assert(axis_scan(r1v, i + 1) == axis_step(axis_scan(r1v, i as int), r1v[i as int]));
        }
        i = i + 1;
    }
    proof {
        assert(i == row1@.len());
        assert(axis_scan(r1v, r1v.len() as int) == (AxisScan {
            col: col,
            spans: ledger.entries@,
            annual: annual_rng,
            quarter: quarter_rng,
        }));
    }
    let ar = match annual_rng {
        Some(ar) => ar,
        None => {
            return Err(ExtractError::MissingAxis);
        },
    };
    let qr = match quarter_rng {
        Some(qr) => qr,
        None => {
            return Err(ExtractError::MissingAxis);
        },
    };
    let ghost r2v = row_views(row2@);
    let ghost total = period_scan(
        r2v,
        0,
        PeriodScan {
            col: 0,
            spans: ledger.entries@,
            annual_cols: Seq::empty(),
            quarter_cols: Seq::empty(),
        },
        ar,
        qr,
    );
    let mut annual_cols: Vec<(YearMonth, usize)> = Vec::new();
    let mut quarter_cols: Vec<(YearMonth, usize)> = Vec::new();
    let mut col2: usize = 0;
    let mut idx: usize = 0;
    proof {
        assert(annual_cols@ =~= Seq::<(YearMonth, usize)>::empty());
        assert(quarter_cols@ =~= Seq::<(YearMonth, usize)>::empty());
        assert(decode_header_spec(row_views(row1@), row_views(row2@)) == (match total {
            Ok(ps) => Ok::<(Seq<(YearMonth, usize)>, Seq<(YearMonth, usize)>), ExtractError>(
                (ps.annual_cols, ps.quarter_cols),
            ),
            Err(_) => Err(ExtractError::MalformedPeriod),
        }));
    }
    while idx < row2.len()
        invariant
            idx <= row2.len(),
            r2v == row_views(row2@),
            decode_header_spec(row_views(row1@), row_views(row2@)) == (match total {
                Ok(ps) => Ok::<(Seq<(YearMonth, usize)>, Seq<(YearMonth, usize)>), ExtractError>(
                    (ps.annual_cols, ps.quarter_cols),
                ),
                Err(_) => Err(ExtractError::MalformedPeriod),
            }),
            total == period_scan(
                r2v,
                idx as int,
                PeriodScan {
                    col: col2,
                    spans: ledger.entries@,
                    annual_cols: annual_cols@,
                    quarter_cols: quarter_cols@,
                },
                ar,
                qr,
            ),
        decreases row2.len() - idx, usize::MAX - col2,
    {
        let carry = ledger.get(col2);
        match carry {
            Some(rs) if col2 < usize::MAX => {
                if rs > 2 {
                    ledger.set(col2, rs - 1);
                } else {
                    ledger.remove_col(col2);
                }
                col2 = col2 + 1;
            },
            _ => {
                proof {
                    assert(r2v[idx as int] == row2@[idx as int]@);
                }
                let c = &row2[idx];
                let cs = span_of(&c.colspan);
                let t = get_text(&c.texts);
                if t.len() == 0 || ends_with_text(&t, &str_to_chars("(E)")) {
                    col2 = sat_add_exec(col2, cs);
                } else {
                    match YearMonth::parse_text(&t) {
                        None => {
                            return Err(ExtractError::MalformedPeriod);
                        },
                        Some(ym) => {
                            if ar.0 <= col2 && col2 < ar.1 {
                                annual_cols.push((ym, col2));
                            }
                            if qr.0 <= col2 && col2 < qr.1 {
                                quarter_cols.push((ym, col2));
                            }
                            col2 = sat_add_exec(col2, cs);
                        },
                    }
                }
                idx = idx + 1;
            },
        }
    }
    proof {
        assert(total == Ok::<PeriodScan, ()>(
            PeriodScan {
                col: col2,
                spans: ledger.entries@,
                annual_cols: annual_cols@,
                quarter_cols: quarter_cols@,
            },
        ));
    }
    Ok((annual_cols, quarter_cols))
}

/// Every entry of a (period, column) list lies within the range `r`.
pub open spec fn cols_within(m: Seq<(YearMonth, usize)>, r: (usize, usize)) -> bool {
    forall|a: int| 0 <= a < m.len() ==> in_range(r, m[a].1)
}

/// The column indices of a (period, column) list are strictly increasing.
pub open spec fn cols_increasing(m: Seq<(YearMonth, usize)>) -> bool {
    forall|a: int, b: int| 0 <= a < b < m.len() ==> m[a].1 < m[b].1
}

/// Every column index of a (period, column) list lies below `c`.
pub open spec fn cols_below(m: Seq<(YearMonth, usize)>, c: int) -> bool {
    forall|a: int| 0 <= a < m.len() ==> m[a].1 < c
}

/// The total column span of the cells from `idx` on.
pub open spec fn colspan_total(cells: Seq<CellModel>, idx: int) -> int
    decreases cells.len() - idx,
{
    if idx < 0 || idx >= cells.len() {
        0
    } else {
        span_val(cells[idx].colspan) + colspan_total(cells, idx + 1)
    }
}

/// How many ledger entries still lie at or beyond column `col`.
pub open spec fn live_spans(s: Seq<(usize, usize)>, col: usize) -> int
    decreases s.len(),
{
    if s.len() == 0 {
        0
    } else {
        (if s[0].0 >= col {
            1int
        } else {
            0int
        }) + live_spans(s.drop_first(), col)
    }
}

proof fn lemma_colspan_total_nonneg(cells: Seq<CellModel>, idx: int)
    ensures
        colspan_total(cells, idx) >= 0,
    decreases cells.len() - idx,
{
    if 0 <= idx < cells.len() {
        lemma_colspan_total_nonneg(cells, idx + 1);
    }
}

proof fn lemma_live_mono(s: Seq<(usize, usize)>, col1: usize, col2: usize)
    requires
        col1 <= col2,
    ensures
        live_spans(s, col2) <= live_spans(s, col1),
    decreases s.len(),
{
    if s.len() > 0 {
        lemma_live_mono(s.drop_first(), col1, col2);
    }
}

proof fn lemma_live_nonneg(s: Seq<(usize, usize)>, col: usize)
    ensures
        live_spans(s, col) >= 0,
    decreases s.len(),
{
    if s.len() > 0 {
        lemma_live_nonneg(s.drop_first(), col);
    }
}

proof fn lemma_live_found(s: Seq<(usize, usize)>, col: usize)
    requires
        crate::table::ledger_find(s, col) is Some,
        col < usize::MAX,
    ensures
        live_spans(s, (col + 1) as usize) < live_spans(s, col),
    decreases s.len(),
{
    let d = s.drop_first();
    if s[0].0 == col {
        lemma_live_mono(d, col, (col + 1) as usize);
    } else {
        lemma_live_found(d, col);
    }
}

proof fn lemma_live_update_same_key(s: Seq<(usize, usize)>, i: int, n: usize, c: usize)
    requires
        0 <= i < s.len(),
    ensures
        live_spans(s.update(i, (s[i].0, n)), c) == live_spans(s, c),
    decreases i,
{
    let u = s.update(i, (s[i].0, n));
    if i == 0 {
        assert(u.drop_first() =~= s.drop_first());
    } else {
        assert(u.drop_first() =~= s.drop_first().update(i - 1, (s.drop_first()[i - 1].0, n)));
        lemma_live_update_same_key(s.drop_first(), i - 1, n, c);
    }
}

proof fn lemma_live_remove(s: Seq<(usize, usize)>, i: int, c: usize)
    requires
        0 <= i < s.len(),
    ensures
        live_spans(s.remove(i), c) <= live_spans(s, c),
    decreases i,
{
    if i == 0 {
        assert(s.remove(0) =~= s.drop_first());
        lemma_live_nonneg(s.drop_first(), c);
    } else {
        assert(s.remove(i).drop_first() =~= s.drop_first().remove(i - 1));
        lemma_live_remove(s.drop_first(), i - 1, c);
    }
}

proof fn lemma_live_set(s: Seq<(usize, usize)>, col: usize, n: usize, c: usize)
    requires
        crate::table::ledger_find(s, col) is Some,
    ensures
        live_spans(ledger_set_spec(s, col, n), c) == live_spans(s, c),
{
    let i = match crate::table::ledger_find(s, col) {
        Some(i) => i,
        None => 0,
    };
    lemma_ledger_find_props(s, col);
    assert(s[i].0 == col);
    lemma_live_update_same_key(s, i, n, c);
}

proof fn lemma_ledger_find_props(s: Seq<(usize, usize)>, col: usize)
    ensures
        match crate::table::ledger_find(s, col) {
            Some(i) => 0 <= i < s.len() && s[i].0 == col,
            None => true,
        },
    decreases s.len(),
{
    if s.len() > 0 && s[0].0 != col {
        lemma_ledger_find_props(s.drop_first(), col);
    }
}

proof fn lemma_live_remove_spec(s: Seq<(usize, usize)>, col: usize, c: usize)
    ensures
        live_spans(ledger_remove_spec(s, col), c) <= live_spans(s, c),
{
    lemma_ledger_find_props(s, col);
    match crate::table::ledger_find(s, col) {
        Some(i) => {
            lemma_live_remove(s, i, c);
        },
        None => (),
    }
}

/// The columns recorded by the second header row's scan: every entry lies
/// within its axis's range; and, when every remaining cell spans at least one
/// column and the width left to cover fits below the saturation point, the
/// column indices within each list are strictly increasing.
pub proof fn lemma_period_scan_columns(
    cells: Seq<CellModel>,
    idx: int,
    st: PeriodScan,
    ar: (usize, usize),
    qr: (usize, usize),
)
    requires
        forall|i: int| idx <= i < cells.len() ==> span_val(cells[i].colspan) >= 1,
        st.col + colspan_total(cells, idx) + live_spans(st.spans, st.col) <= usize::MAX,
        cols_within(st.annual_cols, ar),
        cols_within(st.quarter_cols, qr),
        cols_increasing(st.annual_cols),
        cols_increasing(st.quarter_cols),
        cols_below(st.annual_cols, st.col as int),
        cols_below(st.quarter_cols, st.col as int),
    ensures
        period_scan(cells, idx, st, ar, qr) matches Ok(ps) ==> cols_within(ps.annual_cols, ar)
            && cols_within(ps.quarter_cols, qr) && cols_increasing(ps.annual_cols)
            && cols_increasing(ps.quarter_cols),
    decreases cells.len() - idx, usize::MAX - st.col,
{
    lemma_live_nonneg(st.spans, st.col);
    lemma_colspan_total_nonneg(cells, idx);
    if idx < 0 || idx >= cells.len() {
    } else if ledger_get_spec(st.spans, st.col) is Some && st.col < usize::MAX {
        let rs = match ledger_get_spec(st.spans, st.col) {
            Some(r) => r,
            None => 0,
        };
        let spans1 = if rs > 2 {
            ledger_set_spec(st.spans, st.col, (rs - 1) as usize)
        } else {
            ledger_remove_spec(st.spans, st.col)
        };
        let ncol = (st.col + 1) as usize;
        lemma_live_found(st.spans, st.col);
        if rs > 2 {
            lemma_live_set(st.spans, st.col, (rs - 1) as usize, ncol);
            assert(live_spans(spans1, ncol) == live_spans(st.spans, ncol));
        } else {
            lemma_live_remove_spec(st.spans, st.col, ncol);
            assert(live_spans(spans1, ncol) <= live_spans(st.spans, ncol));
        }
        assert(live_spans(st.spans, ncol) < live_spans(st.spans, st.col));
        let st1 = PeriodScan { col: ncol, spans: spans1, ..st };
        lemma_period_scan_columns(cells, idx, st1, ar, qr);
    } else {
        let c = cells[idx];
        let cs = span_val(c.colspan);
        let t = cell_text_spec(c.texts);
        lemma_colspan_total_nonneg(cells, idx + 1);
        assert(cs >= 1);
        assert(st.col + cs <= usize::MAX);
        let ncol = sat_add(st.col, cs);
        assert(ncol == st.col + cs);
        lemma_live_mono(st.spans, st.col, ncol);
        if t.len() == 0 || ends_with_spec(t, estimate_marker()) {
            lemma_period_scan_columns(cells, idx + 1, PeriodScan { col: ncol, ..st }, ar, qr);
        } else {
            match ym_parse_spec(t) {
                None => (),
                Some(ym) => {
                    let a1 = if in_range(ar, st.col) {
                        st.annual_cols.push((ym, st.col))
                    } else {
                        st.annual_cols
                    };
                    let q1 = if in_range(qr, st.col) {
                        st.quarter_cols.push((ym, st.col))
                    } else {
                        st.quarter_cols
                    };
                    assert(cols_within(a1, ar));
                    assert(cols_within(q1, qr));
                    assert(cols_increasing(a1));
                    assert(cols_increasing(q1));
                    assert(cols_below(a1, ncol as int));
                    assert(cols_below(q1, ncol as int));
                    let st1 = PeriodScan {
                        col: ncol,
                        spans: st.spans,
                        annual_cols: a1,
                        quarter_cols: q1,
                    };
                    lemma_period_scan_columns(cells, idx + 1, st1, ar, qr);
                },
            }
        }
    }
}

/// For a well-formed two-row header — both axis markers present, their two
/// column ranges not overlapping, every second-row cell spanning at least one
/// column, and the total width below the saturation point — the decoded
/// period lists lie each within its own axis range, carry strictly increasing
/// column indices, and are disjoint in column index: no header column feeds
/// both axes, and within an axis no column is recorded twice.
pub proof fn lemma_decode_header_columns(r1: Seq<CellModel>, r2: Seq<CellModel>)
    requires
        forall|i: int| 0 <= i < r2.len() ==> span_val(r2[i].colspan) >= 1,
        colspan_total(r2, 0) + live_spans(axis_scan(r1, r1.len() as int).spans, 0) <= usize::MAX,
        ({
            let sc = axis_scan(r1, r1.len() as int);
            match (sc.annual, sc.quarter) {
                (Some(ar), Some(qr)) => ar.1 <= qr.0 || qr.1 <= ar.0,
                _ => true,
            }
        }),
    ensures
        decode_header_spec(r1, r2) matches Ok(m) ==> ({
            let sc = axis_scan(r1, r1.len() as int);
            &&& sc.annual matches Some(ar) && cols_within(m.0, ar)
            &&& sc.quarter matches Some(qr) && cols_within(m.1, qr)
            &&& cols_increasing(m.0)
            &&& cols_increasing(m.1)
            &&& forall|a: int, b: int|
                0 <= a < m.0.len() && 0 <= b < m.1.len() ==> m.0[a].1 != m.1[b].1
        }),
{
    let sc = axis_scan(r1, r1.len() as int);
    match (sc.annual, sc.quarter) {
        (Some(ar), Some(qr)) => {
            let st0 = PeriodScan {
                col: 0,
                spans: sc.spans,
                annual_cols: Seq::empty(),
                quarter_cols: Seq::empty(),
            };
            lemma_period_scan_columns(r2, 0, st0, ar, qr);
            match period_scan(r2, 0, st0, ar, qr) {
                Ok(ps) => {
                    assert forall|a: int, b: int|
                        0 <= a < ps.annual_cols.len() && 0 <= b
                            < ps.quarter_cols.len() implies ps.annual_cols[a].1
                        != ps.quarter_cols[b].1 by {
                        assert(in_range(ar, ps.annual_cols[a].1));
                        assert(in_range(qr, ps.quarter_cols[b].1));
                    }
                },
                Err(_) => (),
            }
        },
        _ => (),
    }
}

/// The cursor column at which the second row's scan consumes the cell at
/// index `k`: the same walk as `period_scan`, with only the cursor and the
/// carry-over ledger tracked.
pub open spec fn scan_col(
    cells: Seq<CellModel>,
    idx: int,
    col: usize,
    spans: Seq<(usize, usize)>,
    k: int,
) -> usize
    decreases cells.len() - idx, usize::MAX - col,
{
    if idx < 0 || idx >= cells.len() {
        col
    } else if ledger_get_spec(spans, col) is Some && col < usize::MAX {
        let rs = match ledger_get_spec(spans, col) {
            Some(r) => r,
            None => 0,
        };
        let spans1 = if rs > 2 {
            ledger_set_spec(spans, col, (rs - 1) as usize)
        } else {
            ledger_remove_spec(spans, col)
        };
        scan_col(cells, idx, (col + 1) as usize, spans1, k)
    } else if idx == k {
        col
    } else {
        scan_col(cells, idx + 1, sat_add(col, span_val(cells[idx].colspan)), spans, k)
    }
}

/// The scan only appends: the lists it returns start with the lists it was
/// given, and every appended entry's column is at least the starting cursor.
pub proof fn lemma_period_scan_extends(
    cells: Seq<CellModel>,
    idx: int,
    st: PeriodScan,
    ar: (usize, usize),
    qr: (usize, usize),
)
    ensures
        period_scan(cells, idx, st, ar, qr) matches Ok(ps) ==> {
            &&& st.annual_cols.len() <= ps.annual_cols.len()
            &&& st.quarter_cols.len() <= ps.quarter_cols.len()
            &&& forall|a: int|
                0 <= a < st.annual_cols.len() ==> ps.annual_cols[a] == st.annual_cols[a]
            &&& forall|a: int|
                0 <= a < st.quarter_cols.len() ==> ps.quarter_cols[a] == st.quarter_cols[a]
            &&& forall|a: int|
                st.annual_cols.len() <= a < ps.annual_cols.len() ==> ps.annual_cols[a].1 >= st.col
            &&& forall|a: int|
                st.quarter_cols.len() <= a < ps.quarter_cols.len() ==> ps.quarter_cols[a].1
                    >= st.col
        },
    decreases cells.len() - idx, usize::MAX - st.col,
{
    if idx < 0 || idx >= cells.len() {
    } else if ledger_get_spec(st.spans, st.col) is Some && st.col < usize::MAX {
        let rs = match ledger_get_spec(st.spans, st.col) {
            Some(r) => r,
            None => 0,
        };
        let spans1 = if rs > 2 {
            ledger_set_spec(st.spans, st.col, (rs - 1) as usize)
        } else {
            ledger_remove_spec(st.spans, st.col)
        };
        let st1 = PeriodScan { col: (st.col + 1) as usize, spans: spans1, ..st };
        lemma_period_scan_extends(cells, idx, st1, ar, qr);
    } else {
        let c = cells[idx];
        let cs = span_val(c.colspan);
        let t = cell_text_spec(c.texts);
        let ncol = sat_add(st.col, cs);
        if t.len() == 0 || ends_with_spec(t, estimate_marker()) {
            lemma_period_scan_extends(cells, idx + 1, PeriodScan { col: ncol, ..st }, ar, qr);
        } else {
            match ym_parse_spec(t) {
                None => (),
                Some(ym) => {
                    let st1 = PeriodScan {
                        col: ncol,
                        spans: st.spans,
                        annual_cols: if in_range(ar, st.col) {
                            st.annual_cols.push((ym, st.col))
                        } else {
                            st.annual_cols
                        },
                        quarter_cols: if in_range(qr, st.col) {
                            st.quarter_cols.push((ym, st.col))
                        } else {
                            st.quarter_cols
                        },
                    };
                    lemma_period_scan_extends(cells, idx + 1, st1, ar, qr);
                },
            }
        }
    }
}

/// What the scan records for one cell. With the same well-formedness bundle
/// as `lemma_period_scan_columns`: on success, the cell consumed at cursor
/// column `ck` contributes one `(period, ck)` entry to each axis whose range
/// holds `ck` if its text is non-empty and not estimate-marked, and no entry
/// at `ck` exists on any other axis or for an empty, estimate-marked or
/// out-of-range cell.
pub proof fn lemma_period_scan_cell_cover(
    cells: Seq<CellModel>,
    idx: int,
    st: PeriodScan,
    ar: (usize, usize),
    qr: (usize, usize),
    k: int,
)
    requires
        0 <= idx <= k < cells.len(),
        forall|i: int| idx <= i < cells.len() ==> span_val(cells[i].colspan) >= 1,
        st.col + colspan_total(cells, idx) + live_spans(st.spans, st.col) <= usize::MAX,
        cols_below(st.annual_cols, st.col as int),
        cols_below(st.quarter_cols, st.col as int),
    ensures
        period_scan(cells, idx, st, ar, qr) matches Ok(ps) ==> ({
            let ck = scan_col(cells, idx, st.col, st.spans, k);
            let t = cell_text_spec(cells[k].texts);
            if t.len() == 0 || ends_with_spec(t, estimate_marker()) {
                &&& forall|a: int|
                    #![trigger ps.annual_cols[a]]
                    0 <= a < ps.annual_cols.len() ==> ps.annual_cols[a].1 != ck
                &&& forall|a: int|
                    #![trigger ps.quarter_cols[a]]
                    0 <= a < ps.quarter_cols.len() ==> ps.quarter_cols[a].1 != ck
            } else {
                &&& ym_parse_spec(t) matches Some(ym) && {
                    &&& in_range(ar, ck) ==> ps.annual_cols.contains((ym, ck))
                    &&& in_range(qr, ck) ==> ps.quarter_cols.contains((ym, ck))
                }
                &&& !in_range(ar, ck) ==> forall|a: int|
                    #![trigger ps.annual_cols[a]]
                    0 <= a < ps.annual_cols.len() ==> ps.annual_cols[a].1 != ck
                &&& !in_range(qr, ck) ==> forall|a: int|
                    #![trigger ps.quarter_cols[a]]
                    0 <= a < ps.quarter_cols.len() ==> ps.quarter_cols[a].1 != ck
            }
        }),
    decreases cells.len() - idx, usize::MAX - st.col,
{
    lemma_live_nonneg(st.spans, st.col);
    lemma_colspan_total_nonneg(cells, idx);
    if ledger_get_spec(st.spans, st.col) is Some && st.col < usize::MAX {
        let rs = match ledger_get_spec(st.spans, st.col) {
            Some(r) => r,
            None => 0,
        };
        let spans1 = if rs > 2 {
            ledger_set_spec(st.spans, st.col, (rs - 1) as usize)
        } else {
            ledger_remove_spec(st.spans, st.col)
        };
        let ncol = (st.col + 1) as usize;
        lemma_live_found(st.spans, st.col);
        if rs > 2 {
            lemma_live_set(st.spans, st.col, (rs - 1) as usize, ncol);
        } else {
            lemma_live_remove_spec(st.spans, st.col, ncol);
        }
        let st1 = PeriodScan { col: ncol, spans: spans1, ..st };
        lemma_period_scan_cell_cover(cells, idx, st1, ar, qr, k);
    } else {
        let c = cells[idx];
        let cs = span_val(c.colspan);
        let t0 = cell_text_spec(c.texts);
        lemma_colspan_total_nonneg(cells, idx + 1);
        assert(cs >= 1);
        let ncol = sat_add(st.col, cs);
        assert(ncol == st.col + cs);
        lemma_live_mono(st.spans, st.col, ncol);
        if idx == k {
            let ck = st.col;
            if t0.len() == 0 || ends_with_spec(t0, estimate_marker()) {
                let st1 = PeriodScan { col: ncol, ..st };
                lemma_period_scan_extends(cells, idx + 1, st1, ar, qr);
                match period_scan(cells, idx + 1, st1, ar, qr) {
                    Ok(ps) => {
                        assert forall|a: int| 0 <= a < ps.annual_cols.len() implies ps.annual_cols[a].1
                            != ck by {
                            if a >= st.annual_cols.len() {
                                assert(ps.annual_cols[a].1 >= ncol > ck);
                            }
                        }
                        assert forall|a: int| 0 <= a < ps.quarter_cols.len() implies ps.quarter_cols[a].1
                            != ck by {
                            if a >= st.quarter_cols.len() {
                                assert(ps.quarter_cols[a].1 >= ncol > ck);
                            }
                        }
                    },
                    Err(_) => (),
                }
            } else {
                match ym_parse_spec(t0) {
                    None => (),
                    Some(ym) => {
                        let a1 = if in_range(ar, ck) {
                            st.annual_cols.push((ym, ck))
                        } else {
                            st.annual_cols
                        };
                        let q1 = if in_range(qr, ck) {
                            st.quarter_cols.push((ym, ck))
                        } else {
                            st.quarter_cols
                        };
                        let st1 = PeriodScan {
                            col: ncol,
                            spans: st.spans,
                            annual_cols: a1,
                            quarter_cols: q1,
                        };
                        lemma_period_scan_extends(cells, idx + 1, st1, ar, qr);
                        match period_scan(cells, idx + 1, st1, ar, qr) {
                            Ok(ps) => {
                                if in_range(ar, ck) {
                                    assert(ps.annual_cols.contains((ym, ck))) by {
                                        assert(a1[st.annual_cols.len() as int] == (ym, ck));
                                        assert(ps.annual_cols[st.annual_cols.len() as int] == (
                                        ym,
                                        ck,
                                        ));
                                    }
                                } else {
                                    assert forall|a: int|
                                        0 <= a < ps.annual_cols.len() implies ps.annual_cols[a].1
                                        != ck by {
                                        if a >= a1.len() {
                                            assert(ps.annual_cols[a].1 >= ncol > ck);
                                        } else {
                                            assert(ps.annual_cols[a] == st.annual_cols[a]);
                                        }
                                    }
                                }
                                if in_range(qr, ck) {
                                    assert(ps.quarter_cols.contains((ym, ck))) by {
                                        assert(q1[st.quarter_cols.len() as int] == (ym, ck));
                                        assert(ps.quarter_cols[st.quarter_cols.len() as int] == (
                                        ym,
                                        ck,
                                        ));
                                    }
                                } else {
                                    assert forall|a: int|
                                        0 <= a < ps.quarter_cols.len() implies ps.quarter_cols[a].1
                                        != ck by {
                                        if a >= q1.len() {
                                            assert(ps.quarter_cols[a].1 >= ncol > ck);
                                        } else {
                                            assert(ps.quarter_cols[a] == st.quarter_cols[a]);
                                        }
                                    }
                                }
                            },
                            Err(_) => (),
                        }
                    },
                }
            }
        } else {
            if t0.len() == 0 || ends_with_spec(t0, estimate_marker()) {
                let st1 = PeriodScan { col: ncol, ..st };
                lemma_period_scan_cell_cover(cells, idx + 1, st1, ar, qr, k);
            } else {
                match ym_parse_spec(t0) {
                    None => (),
                    Some(ym) => {
                        let st1 = PeriodScan {
                            col: ncol,
                            spans: st.spans,
                            annual_cols: if in_range(ar, st.col) {
                                st.annual_cols.push((ym, st.col))
                            } else {
                                st.annual_cols
                            },
                            quarter_cols: if in_range(qr, st.col) {
                                st.quarter_cols.push((ym, st.col))
                            } else {
                                st.quarter_cols
                            },
                        };
                        lemma_period_scan_cell_cover(cells, idx + 1, st1, ar, qr, k);
                    },
                }
            }
        }
    }
}

/// For a well-formed two-row header, decoding covers the second row exactly:
/// the cell consumed at cursor column `ck` yields, if its text is non-empty
/// and not estimate-marked, exactly one `(period, ck)` entry on each axis
/// whose range holds `ck` (at most one axis when the ranges are disjoint),
/// and no entry at `ck` otherwise; an empty, estimate-marked or out-of-range
/// cell yields none.
pub proof fn lemma_decode_header_cover(r1: Seq<CellModel>, r2: Seq<CellModel>, k: int)
    requires
        0 <= k < r2.len(),
        forall|i: int| 0 <= i < r2.len() ==> span_val(r2[i].colspan) >= 1,
        colspan_total(r2, 0) + live_spans(axis_scan(r1, r1.len() as int).spans, 0) <= usize::MAX,
    ensures
        decode_header_spec(r1, r2) matches Ok(m) ==> ({
            let sc = axis_scan(r1, r1.len() as int);
            let ck = scan_col(r2, 0, 0, sc.spans, k);
            let t = cell_text_spec(r2[k].texts);
            &&& sc.annual matches Some(ar) && sc.quarter matches Some(qr) && ({
                if t.len() == 0 || ends_with_spec(t, estimate_marker()) {
                    &&& forall|a: int|
                        #![trigger m.0[a]]
                        0 <= a < m.0.len() ==> m.0[a].1 != ck
                    &&& forall|a: int|
                        #![trigger m.1[a]]
                        0 <= a < m.1.len() ==> m.1[a].1 != ck
                } else {
                    &&& ym_parse_spec(t) matches Some(ym) && {
                        &&& in_range(ar, ck) ==> m.0.contains((ym, ck))
                        &&& in_range(qr, ck) ==> m.1.contains((ym, ck))
                    }
                    &&& !in_range(ar, ck) ==> forall|a: int|
                        #![trigger m.0[a]]
                        0 <= a < m.0.len() ==> m.0[a].1 != ck
                    &&& !in_range(qr, ck) ==> forall|a: int|
                        #![trigger m.1[a]]
                        0 <= a < m.1.len() ==> m.1[a].1 != ck
                }
            })
            &&& forall|a: int, b: int|
                0 <= a < b < m.0.len() ==> m.0[a].1 != m.0[b].1
            &&& forall|a: int, b: int|
                0 <= a < b < m.1.len() ==> m.1[a].1 != m.1[b].1
        }),
{
    let sc = axis_scan(r1, r1.len() as int);
    match (sc.annual, sc.quarter) {
        (Some(ar), Some(qr)) => {
            let st0 = PeriodScan {
                col: 0,
                spans: sc.spans,
                annual_cols: Seq::empty(),
                quarter_cols: Seq::empty(),
            };
            lemma_period_scan_cell_cover(r2, 0, st0, ar, qr, k);
            lemma_period_scan_columns(r2, 0, st0, ar, qr);
        },
        _ => (),
    }
}

} // verus!
