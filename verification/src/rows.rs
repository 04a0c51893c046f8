//! The data-row decoder: each row's first column carries a metric label; every
//! later cell whose column shows a known period contributes one observation.

use vstd::prelude::*;
use crate::fi_registry::{metric_lookup, metric_of, register_spec, Financials, RecordModel};
use crate::table::{opt_text_view, row_views, rows_views, sat_add, sat_add_exec, span_of, span_val, Cell, CellModel};
use crate::text::{cell_text_spec, get_text, parse_fixed, parse_fixed_spec};
use crate::types::YearMonth;

verus! {

/// The period mapped to column `col`, if the map's first entry for that
/// column gives one.
pub open spec fn find_col(map: Seq<(YearMonth, usize)>, col: usize) -> Option<YearMonth>
    decreases map.len(),
{
    if map.len() == 0 {
        None
    } else if map[0].1 == col {
        Some(map[0].0)
    } else {
        find_col(map.drop_first(), col)
    }
}

proof fn lemma_find_col(map: Seq<(YearMonth, usize)>, col: usize)
    ensures
        match find_col(map, col) {
            Some(ym) => exists|i: int|
                0 <= i < map.len() && map[i].1 == col && map[i].0 == ym && forall|j: int|
                    0 <= j < i ==> map[j].1 != col,
            None => forall|j: int| 0 <= j < map.len() ==> map[j].1 != col,
        },
    decreases map.len(),
{
    if map.len() > 0 && map[0].1 != col {
        let d = map.drop_first();
        lemma_find_col(d, col);
        assert(forall|j: int| 1 <= j < map.len() ==> map[j] == d[j - 1]);
        if find_col(d, col) is Some {
            let i = choose|i: int|
                0 <= i < d.len() && d[i].1 == col && d[i].0 == find_col(d, col)->0 && forall|j: int|
                    0 <= j < i ==> d[j].1 != col;
            assert(map[i + 1].1 == col && map[i + 1].0 == find_col(map, col)->0);
            assert(forall|j: int| 0 <= j < i + 1 ==> map[j].1 != col);
        }
    }
}

proof fn lemma_find_col_is(map: Seq<(YearMonth, usize)>, col: usize, i: int)
    requires
        0 <= i < map.len(),
        map[i].1 == col,
        forall|j: int| 0 <= j < i ==> map[j].1 != col,
    ensures
        find_col(map, col) == Some(map[i].0),
    decreases map.len(),
{
    if i > 0 {
        let d = map.drop_first();
        assert(forall|j: int| 0 <= j < d.len() ==> d[j] == map[j + 1]);
        lemma_find_col_is(d, col, i - 1);
    }
}

/// Looks a column up in a (period, column) map, first entry winning.
pub fn col_lookup(map: &Vec<(YearMonth, usize)>, col: usize) -> (r: Option<YearMonth>)
    ensures
        r == find_col(map@, col),
{
    let mut i: usize = 0;
    while i < map.len()
        invariant
            i <= map.len(),
            forall|j: int| 0 <= j < i ==> map@[j].1 != col,
        decreases map.len() - i,
    {
        if map[i].1 == col {
            proof {
                lemma_find_col_is(map@, col, i as int);
            }
            return Some(map[i].0);
        }
        i = i + 1;
    }
    proof {
        lemma_find_col(map@, col);
    }
    None
}

/// The mathematical value of the row decoder's running state: the column
/// cursor, the metric label the row carries (once recognized), and the two
/// record lists being accumulated.
pub ghost struct RowState {
    pub col: usize,
    pub metric: Option<Seq<char>>,
    pub annuals: Seq<RecordModel>,
    pub quarters: Seq<RecordModel>,
}

/// One data cell. A cell with empty text is skipped. At column zero a text
/// equal to one of the recognized metric labels becomes the row's metric.
/// Elsewhere, if the row carries a metric and the column shows a period on an
/// axis and the text reads as a number, that observation is registered on
/// that axis; otherwise the cell contributes nothing. The cursor advances by
/// the cell's column span.
pub open spec fn row_step(
    st: RowState,
    c: CellModel,
    code: Seq<char>,
    amap: Seq<(YearMonth, usize)>,
    qmap: Seq<(YearMonth, usize)>,
) -> RowState {
    let cs = span_val(c.colspan);
    let t = cell_text_spec(c.texts);
    let ncol = sat_add(st.col, cs);
    if t.len() == 0 {
        RowState { col: ncol, ..st }
    } else if st.col == 0 {
        RowState {
            col: ncol,
            metric: if metric_of(t) is Some {
                Some(t)
            } else {
                st.metric
            },
            ..st
        }
    } else {
        match st.metric {
            None => RowState { col: ncol, ..st },
            Some(name) => {
                let val = parse_fixed_spec(t);
                let a1 = match (find_col(amap, st.col), val) {
                    (Some(ym), Some(v)) => register_spec(st.annuals, code, ym, name, Some(v)),
                    _ => st.annuals,
                };
                let q1 = match (find_col(qmap, st.col), val) {
                    (Some(ym), Some(v)) => register_spec(st.quarters, code, ym, name, Some(v)),
                    _ => st.quarters,
                };
                RowState { col: ncol, metric: st.metric, annuals: a1, quarters: q1 }
            },
        }
    }
}

/// The row decoder's state after the cells from `k` on: the scan stops early
/// when the cursor has left column zero with no recognized metric (such a row
/// is a separator or carries an unmodeled label).
pub open spec fn row_scan(
    cells: Seq<CellModel>,
    k: int,
    st: RowState,
    code: Seq<char>,
    amap: Seq<(YearMonth, usize)>,
    qmap: Seq<(YearMonth, usize)>,
) -> RowState
    decreases cells.len() - k,
{
    if k < 0 || k >= cells.len() {
        st
    } else if st.col > 0 && st.metric is None {
        st
    } else {
        row_scan(cells, k + 1, row_step(st, cells[k], code, amap, qmap), code, amap, qmap)
    }
}

/// The two record lists after decoding the first `k` data rows, each row
/// starting at column zero with no metric.
pub open spec fn rows_scan(
    rows: Seq<Seq<CellModel>>,
    k: int,
    annuals: Seq<RecordModel>,
    quarters: Seq<RecordModel>,
    code: Seq<char>,
    amap: Seq<(YearMonth, usize)>,
    qmap: Seq<(YearMonth, usize)>,
) -> (Seq<RecordModel>, Seq<RecordModel>)
    decreases k,
{
    if k <= 0 {
        (annuals, quarters)
    } else {
        let (a, q) = rows_scan(rows, k - 1, annuals, quarters, code, amap, qmap);
        let st = row_scan(
            rows[k - 1],
            0,
            RowState { col: 0, metric: None, annuals: a, quarters: q },
            code,
            amap,
            qmap,
        );
        (st.annuals, st.quarters)
    }
}

impl Financials {
    /// Decodes one data row into observations, registering them on the two
    /// axes as `row_scan` says.
    pub fn decode_row(
        &mut self,
        row: &Vec<Cell>,
        annual_cols: &Vec<(YearMonth, usize)>,
        quarter_cols: &Vec<(YearMonth, usize)>,
    )
        requires
            old(self).annuals.code_spec() == old(self).quarters.code_spec(),
        ensures
            ({
                let st = row_scan(
                    row_views(row@),
                    0,
                    RowState {
                        col: 0,
                        metric: None,
                        annuals: old(self).annuals.records(),
                        quarters: old(self).quarters.records(),
                    },
                    old(self).annuals.code_spec(),
                    annual_cols@,
                    quarter_cols@,
                );
                final(self).annuals.records() == st.annuals && final(self).quarters.records()
                    == st.quarters
            }),
            final(self).annuals.code_spec() == old(self).annuals.code_spec(),
            final(self).quarters.code_spec() == old(self).quarters.code_spec(),
    {
        let ghost cells = row_views(row@);
        let ghost code = old(self).annuals.code_spec();
        let ghost total = row_scan(
            cells,
            0,
            RowState {
                col: 0,
                metric: None,
                annuals: old(self).annuals.records(),
                quarters: old(self).quarters.records(),
            },
            code,
            annual_cols@,
            quarter_cols@,
        );
        let mut col: usize = 0;
        let mut metric: Option<Vec<char>> = None;
        let mut k: usize = 0;
        while k < row.len()
            invariant
                k <= row.len(),
                cells == row_views(row@),
                self.annuals.code_spec() == code,
                self.quarters.code_spec() == code,
                total == row_scan(
                    cells,
                    k as int,
                    RowState {
                        col: col,
                        metric: opt_text_view(metric),
                        annuals: self.annuals.records(),
                        quarters: self.quarters.records(),
                    },
                    code,
                    annual_cols@,
                    quarter_cols@,
                ),
            ensures
                total == (RowState {
                    col: col,
                    metric: opt_text_view(metric),
                    annuals: self.annuals.records(),
                    quarters: self.quarters.records(),
                }),
            decreases row.len() - k,
        {
            let stop = match &metric {
                None => col > 0,
                Some(_) => false,
            };
            if stop {
                break ;
            }
            proof {
                assert(cells[k as int] == row@[k as int]@);
            }
            let c = &row[k];
            let cs = span_of(&c.colspan);
            let t = get_text(&c.texts);
            if t.len() == 0 {
                col = sat_add_exec(col, cs);
            } else if col == 0 {
                if metric_lookup(&t).is_some() {
                    metric = Some(t);
                }
                col = sat_add_exec(col, cs);
            } else {
                match &metric {
                    None => {
                        proof {
                            assert(false);
                        }
                    },
                    Some(name) => {
                        let val = parse_fixed(&t);
                        match (col_lookup(annual_cols, col), val) {
                            (Some(ym), Some(v)) => {
                                self.annuals.register_text(ym, name, Some(v));
                            },
                            _ => {},
                        }
                        match (col_lookup(quarter_cols, col), val) {
                            (Some(ym), Some(v)) => {
                                self.quarters.register_text(ym, name, Some(v));
                            },
                            _ => {},
                        }
                        col = sat_add_exec(col, cs);
                    },
                }
            }
            k = k + 1;
        }
    }

    /// Decodes every data row of a table.
    pub fn decode_rows(
        &mut self,
        rows: &Vec<Vec<Cell>>,
        annual_cols: &Vec<(YearMonth, usize)>,
        quarter_cols: &Vec<(YearMonth, usize)>,
    )
        requires
            old(self).annuals.code_spec() == old(self).quarters.code_spec(),
        ensures
            ({
                let (a, q) = rows_scan(
                    rows_views(rows@),
                    rows@.len() as int,
                    old(self).annuals.records(),
                    old(self).quarters.records(),
                    old(self).annuals.code_spec(),
                    annual_cols@,
                    quarter_cols@,
                );
                final(self).annuals.records() == a && final(self).quarters.records() == q
            }),
            final(self).annuals.code_spec() == old(self).annuals.code_spec(),
            final(self).quarters.code_spec() == old(self).quarters.code_spec(),
    {
        let ghost code = old(self).annuals.code_spec();
        let ghost rv = rows_views(rows@);
        let ghost a0 = old(self).annuals.records();
        let ghost q0 = old(self).quarters.records();
        let mut r: usize = 0;
        while r < rows.len()
            invariant
                r <= rows.len(),
                rv == rows_views(rows@),
                self.annuals.code_spec() == code,
                self.quarters.code_spec() == code,
                (self.annuals.records(), self.quarters.records()) == rows_scan(
                    rv,
                    r as int,
                    a0,
                    q0,
                    code,
                    annual_cols@,
                    quarter_cols@,
                ),
            decreases rows.len() - r,
        {
            proof {
                assert(rv[r as int] == row_views(rows@[r as int]@));
            }
            self.decode_row(&rows[r], annual_cols, quarter_cols);
            r = r + 1;
        }
    }
}

} // verus!
