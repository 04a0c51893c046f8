//! The library's own model of a spanning HTML table: cells with raw span
//! attributes and text fragments, rows, and the transient row-span ledger
//! used while decoding headers.

use vstd::prelude::*;
use crate::text::{parse_uint, parse_uint_spec, views_of};

verus! {

/// One table cell: its raw `rowspan` / `colspan` attribute texts (absent when
/// the markup has none) and its text fragments in document order.
pub struct Cell {
    pub rowspan: Option<Vec<char>>,
    pub colspan: Option<Vec<char>>,
    pub texts: Vec<Vec<char>>,
}

/// The mathematical value of a cell.
pub ghost struct CellModel {
    pub rowspan: Option<Seq<char>>,
    pub colspan: Option<Seq<char>>,
    pub texts: Seq<Seq<char>>,
}

impl View for Cell {
    type V = CellModel;

    open spec fn view(&self) -> CellModel {
        CellModel {
            rowspan: match self.rowspan {
                Some(v) => Some(v@),
                None => None,
            },
            colspan: match self.colspan {
                Some(v) => Some(v@),
                None => None,
            },
            texts: views_of(self.texts@),
        }
    }
}

/// The view of an optional text.
pub open spec fn opt_text_view(m: Option<Vec<char>>) -> Option<Seq<char>> {
    match m {
        Some(v) => Some(v@),
        None => None,
    }
}

/// The mathematical values of a row of cells.
pub open spec fn row_views(r: Seq<Cell>) -> Seq<CellModel> {
    r.map_values(|c: Cell| c@)
}

/// The mathematical values of a list of rows.
pub open spec fn rows_views(rs: Seq<Vec<Cell>>) -> Seq<Seq<CellModel>> {
    rs.map_values(|r: Vec<Cell>| row_views(r@))
}

/// One table: the first text fragment of its caption (absent when it has no
/// caption or the caption holds no text), its header rows, and its data rows.
pub struct Table {
    pub caption: Option<Vec<char>>,
    pub head: Vec<Vec<Cell>>,
    pub body: Vec<Vec<Cell>>,
}

/// The mathematical value of a table.
pub ghost struct TableModel {
    pub caption: Option<Seq<char>>,
    pub head: Seq<Seq<CellModel>>,
    pub body: Seq<Seq<CellModel>>,
}

impl View for Table {
    type V = TableModel;

    open spec fn view(&self) -> TableModel {
        TableModel {
            caption: match self.caption {
                Some(v) => Some(v@),
                None => None,
            },
            head: rows_views(self.head@),
            body: rows_views(self.body@),
        }
    }
}

/// The effective value of a span attribute: a missing or unreadable attribute
/// counts as one.
pub open spec fn span_val(attr: Option<Seq<char>>) -> usize {
    match attr {
        None => 1,
        Some(s) => match parse_uint_spec(s, usize::MAX as int) {
            Some(n) => n as usize,
            None => 1,
        },
    }
}

/// Reads a span attribute; a missing or unreadable attribute counts as one.
pub fn span_of(attr: &Option<Vec<char>>) -> (n: usize)
    ensures
        n == span_val(
            match *attr {
                Some(ref v) => Some(v@),
                None => None,
            },
        ),
{
    match attr {
        None => 1,
        Some(v) => match parse_uint(v, usize::MAX as u64) {
            Some(n) => n as usize,
            None => 1,
        },
    }
}

/// `a + b`, stopped at the largest column index. A table wide enough to
/// saturate is treated as having its trailing columns merged.
pub open spec fn sat_add(a: usize, b: usize) -> usize {
    if a + b > usize::MAX {
        usize::MAX
    } else {
        (a + b) as usize
    }
}

/// Adds two column counts, stopping at the largest column index.
pub fn sat_add_exec(a: usize, b: usize) -> (r: usize)
    ensures
        r == sat_add(a, b),
{
    if a > usize::MAX - b {
        usize::MAX
    } else {
        a + b
    }
}

/// The first ledger entry for column `col`.
pub open spec fn ledger_find(s: Seq<(usize, usize)>, col: usize) -> Option<int>
    decreases s.len(),
{
    if s.len() == 0 {
        None
    } else if s[0].0 == col {
        Some(0)
    } else {
        match ledger_find(s.drop_first(), col) {
            Some(i) => Some(i + 1),
            None => None,
        }
    }
}

/// The pending carry-over count for column `col`, if any.
pub open spec fn ledger_get_spec(s: Seq<(usize, usize)>, col: usize) -> Option<usize> {
    match ledger_find(s, col) {
        Some(i) => Some(s[i].1),
        None => None,
    }
}

/// The ledger with the entry for `col` set to `n` (added if absent).
pub open spec fn ledger_set_spec(s: Seq<(usize, usize)>, col: usize, n: usize) -> Seq<
    (usize, usize),
> {
    match ledger_find(s, col) {
        Some(i) => s.update(i, (col, n)),
        None => s.push((col, n)),
    }
}

/// The ledger with the entry for `col` removed (unchanged if absent).
pub open spec fn ledger_remove_spec(s: Seq<(usize, usize)>, col: usize) -> Seq<(usize, usize)> {
    match ledger_find(s, col) {
        Some(i) => s.remove(i),
        None => s,
    }
}

proof fn lemma_ledger_find(s: Seq<(usize, usize)>, col: usize)
    ensures
        match ledger_find(s, col) {
            Some(i) => 0 <= i < s.len() && s[i].0 == col && forall|j: int|
                0 <= j < i ==> s[j].0 != col,
            None => forall|j: int| 0 <= j < s.len() ==> s[j].0 != col,
        },
    decreases s.len(),
{
    if s.len() > 0 && s[0].0 != col {
        let d = s.drop_first();
        lemma_ledger_find(d, col);
        assert(forall|j: int| 1 <= j < s.len() ==> s[j] == d[j - 1]);
    }
}

proof fn lemma_ledger_find_is(s: Seq<(usize, usize)>, col: usize, i: int)
    requires
        0 <= i < s.len(),
        s[i].0 == col,
        forall|j: int| 0 <= j < i ==> s[j].0 != col,
    ensures
        ledger_find(s, col) == Some(i),
    decreases s.len(),
{
    if i > 0 {
        let d = s.drop_first();
        assert(forall|j: int| 0 <= j < d.len() ==> d[j] == s[j + 1]);
        lemma_ledger_find_is(d, col, i - 1);
    }
}

/// The transient map from column index to remaining vertical carry-over,
/// live only while a header is decoded.
pub struct RowSpanLedger {
    pub entries: Vec<(usize, usize)>,
}

impl RowSpanLedger {
    /// An empty ledger.
    pub fn new() -> (r: Self)
        ensures
            r.entries@ == Seq::<(usize, usize)>::empty(),
    {
        let r = RowSpanLedger { entries: Vec::new() };
        proof {
            assert(r.entries@ =~= Seq::<(usize, usize)>::empty());
        }
        r
    }

    fn find_idx(&self, col: usize) -> (r: Option<usize>)
        ensures
            match r {
                Some(i) => i < self.entries@.len() && ledger_find(self.entries@, col) == Some(
                    i as int,
                ),
                None => ledger_find(self.entries@, col) is None,
            },
    {
        let mut i: usize = 0;
        while i < self.entries.len()
            invariant
                i <= self.entries.len(),
                forall|j: int| 0 <= j < i ==> self.entries@[j].0 != col,
            decreases self.entries.len() - i,
        {
            if self.entries[i].0 == col {
                proof {
                    lemma_ledger_find_is(self.entries@, col, i as int);
                }
                return Some(i);
            }
            i = i + 1;
        }
        proof {
            lemma_ledger_find(self.entries@, col);
        }
        None
    }

    /// The pending carry-over count for column `col`, if any.
    pub fn get(&self, col: usize) -> (r: Option<usize>)
        ensures
            r == ledger_get_spec(self.entries@, col),
    {
        proof {
            lemma_ledger_find(self.entries@, col);
        }
        match self.find_idx(col) {
            Some(i) => Some(self.entries[i].1),
            None => None,
        }
    }

    /// Sets the carry-over count for column `col` to `n`.
    pub fn set(&mut self, col: usize, n: usize)
        ensures
            final(self).entries@ == ledger_set_spec(old(self).entries@, col, n),
    {
        match self.find_idx(col) {
            Some(i) => {
                self.entries.set(i, (col, n));
            },
            None => {
                self.entries.push((col, n));
            },
        }
    }

    /// Removes the entry for column `col`, if any.
    pub fn remove_col(&mut self, col: usize)
        ensures
            final(self).entries@ == ledger_remove_spec(old(self).entries@, col),
    {
        match self.find_idx(col) {
            Some(i) => {
                self.entries.remove(i);
            },
            None => (),
        }
    }
}

} // verus!
