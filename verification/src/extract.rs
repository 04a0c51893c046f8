//! The top of the pipeline: locate the table by its caption, read it back as
//! plain values, decode its header and rows, and de-duplicate the annual
//! records.

use vstd::prelude::*;
use crate::dom::{
    body_cell, body_cell_count, body_row_count, doc_model, head_cell, head_cell_count,
    head_row_count, parse_document, parsed_doc, table_caption, table_count, DocModel,
};
use crate::fi_registry::{dedup_spec, Financials, RecordModel};
use crate::header::{decode_header, decode_header_spec};
use crate::rows::rows_scan;
use crate::table::{row_views, rows_views, Cell, Table, TableModel};
use crate::text::{contains_text, has_sub, str_to_chars};
use crate::types::ExtractError;

verus! {

/// The caption text that names the table of interest.
pub open spec fn caption_marker() -> Seq<char> {
    "기업실적분석"@
}

/// Whether a table's caption names the table of interest.
pub open spec fn caption_matches(tm: TableModel) -> bool {
    match tm.caption {
        Some(t) => has_sub(t, caption_marker()),
        None => false,
    }
}

/// The first table whose caption matches.
pub open spec fn find_caption(tables: Seq<TableModel>) -> Option<int>
    decreases tables.len(),
{
    if tables.len() == 0 {
        None
    } else if caption_matches(tables[0]) {
        Some(0)
    } else {
        match find_caption(tables.drop_first()) {
            Some(i) => Some(i + 1),
            None => None,
        }
    }
}

proof fn lemma_find_caption(tables: Seq<TableModel>)
    ensures
        match find_caption(tables) {
            Some(i) => 0 <= i < tables.len() && caption_matches(tables[i]) && forall|j: int|
                0 <= j < i ==> !caption_matches(tables[j]),
            None => forall|j: int| 0 <= j < tables.len() ==> !caption_matches(tables[j]),
        },
    decreases tables.len(),
{
    if tables.len() > 0 && !caption_matches(tables[0]) {
        let d = tables.drop_first();
        lemma_find_caption(d);
        assert(forall|j: int| 1 <= j < tables.len() ==> tables[j] == d[j - 1]);
    }
}

proof fn lemma_find_caption_is(tables: Seq<TableModel>, i: int)
    requires
        0 <= i < tables.len(),
        caption_matches(tables[i]),
        forall|j: int| 0 <= j < i ==> !caption_matches(tables[j]),
    ensures
        find_caption(tables) == Some(i),
    decreases tables.len(),
{
    if i > 0 {
        let d = tables.drop_first();
        assert(forall|j: int| 0 <= j < d.len() ==> d[j] == tables[j + 1]);
        lemma_find_caption_is(d, i - 1);
    }
}

/// Which table the pipeline works on: the unique one whose caption holds the
/// marker. No match is `NotFound`; more than one match is rejected as
/// `AmbiguousTable` rather than guessed at.
pub open spec fn locate_spec(tables: Seq<TableModel>) -> Result<int, ExtractError> {
    match find_caption(tables) {
        None => Err(ExtractError::NotFound),
        Some(i) => if exists|j: int| i < j < tables.len() && caption_matches(tables[j]) {
            Err(ExtractError::AmbiguousTable)
        } else {
            Ok(i)
        },
    }
}

/// Finds the unique matching table of the document.
pub fn locate_table(d: &scraper::Html) -> (r: Result<usize, ExtractError>)
    ensures
        match (r, locate_spec(doc_model(*d).tables)) {
            (Ok(i), Ok(im)) => i as int == im && i < doc_model(*d).tables.len(),
            (Err(e), Err(em)) => e == em,
            _ => false,
        },
{
    let ghost tables = doc_model(*d).tables;
    let n = table_count(d);
    let marker = str_to_chars("기업실적분석");
    let mut found: Option<usize> = None;
    let mut t: usize = 0;
    while t < n
        invariant
            t <= n,
            n == tables.len(),
            tables == doc_model(*d).tables,
            marker@ == caption_marker(),
            match found {
                Some(i) => i < t && caption_matches(tables[i as int]) && forall|j: int|
                    0 <= j < t && j != i ==> !caption_matches(tables[j]),
                None => forall|j: int| 0 <= j < t ==> !caption_matches(tables[j]),
            },
        decreases n - t,
    {
        let cap = table_caption(d, t);
        let matches_here = match &cap {
            Some(text) => contains_text(text, &marker),
            None => false,
        };
        proof {
            assert(matches_here == caption_matches(tables[t as int]));
        }
        if matches_here {
            match found {
                None => {
                    found = Some(t);
                },
                Some(i) => {
                    proof {
                        lemma_find_caption_is(tables, i as int);
                        assert(i < t < tables.len() && caption_matches(tables[t as int]));
                    }
                    return Err(ExtractError::AmbiguousTable);
                },
            }
        }
        t = t + 1;
    }
    match found {
        None => {
            proof {
                lemma_find_caption(tables);
                assert(find_caption(tables) is None);
            }
            Err(ExtractError::NotFound)
        },
        Some(i) => {
            proof {
                lemma_find_caption_is(tables, i as int);
            }
            Ok(i)
        },
    }
}

/// Reads one table of the document back as plain values.
pub fn read_table(d: &scraper::Html, t: usize) -> (tb: Table)
    requires
        t < doc_model(*d).tables.len(),
    ensures
        tb@ == doc_model(*d).tables[t as int],
{
    let ghost tm = doc_model(*d).tables[t as int];
    let caption = table_caption(d, t);
    let mut head: Vec<Vec<Cell>> = Vec::new();
    let hn = head_row_count(d, t);
    let mut r: usize = 0;
    proof {
        assert(rows_views(head@) =~= tm.head.take(0));
    }
    while r < hn
        invariant
            r <= hn,
            t < doc_model(*d).tables.len(),
            tm == doc_model(*d).tables[t as int],
            hn == tm.head.len(),
            rows_views(head@) == tm.head.take(r as int),
        decreases hn - r,
    {
        let mut row: Vec<Cell> = Vec::new();
        let cn = head_cell_count(d, t, r);
        let mut c: usize = 0;
        proof {
            assert(row_views(row@) =~= tm.head[r as int].take(0));
        }
        while c < cn
            invariant
                c <= cn,
                r < hn,
                t < doc_model(*d).tables.len(),
                tm == doc_model(*d).tables[t as int],
                hn == tm.head.len(),
                cn == tm.head[r as int].len(),
                row_views(row@) == tm.head[r as int].take(c as int),
            decreases cn - c,
        {
            let ghost rowpre = row@;
            match head_cell(d, t, r, c) {
                Some(cellv) => {
                    proof {
                        assert(cellv@ == tm.head[r as int][c as int]);
                    }
                    row.push(cellv);
                    proof {
                        assert(row@ == rowpre.push(cellv));
                        assert(row_views(rowpre).len() == rowpre.len());
                        assert(rowpre.len() == c);
                        assert(row@.len() == c + 1);
                        assert(row@[c as int] == cellv);
                        assert(row_views(row@).len() == c + 1);
                        assert(row_views(row@)[c as int] == cellv@);
                        assert forall|i: int| 0 <= i < c + 1 implies row_views(row@)[i] == tm.head[
                        r as int].take(c + 1)[i] by {
                            if i < c {
                                assert(row_views(rowpre)[i] == tm.head[r as int].take(c as int)[i]);
                            }
                        }
                        assert(row_views(row@) =~= tm.head[r as int].take(c + 1));
                    }
                },
                None => {
                    proof {
                        assert(false);
                    }
                },
            }
            c = c + 1;
        }
        proof {
            assert(row_views(row@) =~= tm.head[r as int]);
        }
        let ghost headpre = head@;
        let ghost rowv = row@;
        head.push(row);
        proof {
            assert(head@ == headpre.push(row));
            assert(rows_views(headpre).len() == headpre.len());
            assert(headpre.len() == r);
            assert(head@.len() == r + 1);
            assert(rows_views(head@).len() == r + 1);
            assert(rows_views(head@)[r as int] == row_views(rowv));
            assert(rows_views(head@) =~= tm.head.take(r + 1));
        }
        r = r + 1;
    }
    let mut body: Vec<Vec<Cell>> = Vec::new();
    let bn = body_row_count(d, t);
    let mut r2: usize = 0;
    proof {
        assert(rows_views(body@) =~= tm.body.take(0));
    }
    while r2 < bn
        invariant
            r2 <= bn,
            t < doc_model(*d).tables.len(),
            tm == doc_model(*d).tables[t as int],
            bn == tm.body.len(),
            rows_views(body@) == tm.body.take(r2 as int),
        decreases bn - r2,
    {
        let mut row: Vec<Cell> = Vec::new();
        let cn = body_cell_count(d, t, r2);
        let mut c: usize = 0;
        proof {
            assert(row_views(row@) =~= tm.body[r2 as int].take(0));
        }
        while c < cn
            invariant
                c <= cn,
                r2 < bn,
                t < doc_model(*d).tables.len(),
                tm == doc_model(*d).tables[t as int],
                bn == tm.body.len(),
                cn == tm.body[r2 as int].len(),
                row_views(row@) == tm.body[r2 as int].take(c as int),
            decreases cn - c,
        {
            let ghost rowpre = row@;
            match body_cell(d, t, r2, c) {
                Some(cellv) => {
                    proof {
                        assert(cellv@ == tm.body[r2 as int][c as int]);
                    }
                    row.push(cellv);
                    proof {
                        assert(row@ == rowpre.push(cellv));
                        assert(row_views(rowpre).len() == rowpre.len());
                        assert(rowpre.len() == c);
                        assert(row@.len() == c + 1);
                        assert(row@[c as int] == cellv);
                        assert(row_views(row@).len() == c + 1);
                        assert(row_views(row@)[c as int] == cellv@);
                        assert forall|i: int| 0 <= i < c + 1 implies row_views(row@)[i] == tm.body[
                        r2 as int].take(c + 1)[i] by {
                            if i < c {
                                assert(row_views(rowpre)[i] == tm.body[r2 as int].take(c as int)[i]);
                            }
                        }
                        assert(row_views(row@) =~= tm.body[r2 as int].take(c + 1));
                    }
                },
                None => {
                    proof {
                        assert(false);
                    }
                },
            }
            c = c + 1;
        }
        proof {
            assert(row_views(row@) =~= tm.body[r2 as int]);
        }
        let ghost bodypre = body@;
        let ghost rowv = row@;
        body.push(row);
        proof {
            assert(body@ == bodypre.push(row));
            assert(rows_views(bodypre).len() == bodypre.len());
            assert(bodypre.len() == r2);
            assert(body@.len() == r2 + 1);
            assert(rows_views(body@).len() == r2 + 1);
            assert(rows_views(body@)[r2 as int] == row_views(rowv));
            assert(rows_views(body@) =~= tm.body.take(r2 + 1));
        }
        r2 = r2 + 1;
    }
    let tb = Table { caption, head, body };
    proof {
        assert(tm.head.take(tm.head.len() as int) =~= tm.head);
        assert(tm.body.take(tm.body.len() as int) =~= tm.body);
    }
    tb
}

/// The mathematical value of one entity's extracted facts.
pub ghost struct FinancialsModel {
    pub code: Seq<char>,
    pub annuals: Seq<RecordModel>,
    pub quarters: Seq<RecordModel>,
}

/// What extraction yields on a parsed document: the unique matching table's
/// two header rows are decoded into the period maps, every data row is
/// decoded into observations, and the annual records are de-duplicated by
/// year. A table with fewer than two header rows has no axes to offer.
pub open spec fn extract_spec(doc: DocModel, code: Seq<char>) -> Result<
    FinancialsModel,
    ExtractError,
> {
    match locate_spec(doc.tables) {
        Err(e) => Err(e),
        Ok(ti) => {
            let tb = doc.tables[ti];
            if tb.head.len() < 2 {
                Err(ExtractError::MissingAxis)
            } else {
                match decode_header_spec(tb.head[0], tb.head[1]) {
                    Err(e) => Err(e),
                    Ok((am, qm)) => {
                        let (a, q) = rows_scan(
                            tb.body,
                            tb.body.len() as int,
                            Seq::empty(),
                            Seq::empty(),
                            code,
                            am,
                            qm,
                        );
                        Ok(FinancialsModel { code: code, annuals: dedup_spec(a), quarters: q })
                    },
                }
            }
        },
    }
}

/// Extracts one entity's annual and quarterly financial records from a
/// document's text.
pub fn extract(html: &str, stock_code: &str) -> (r: Result<Financials, ExtractError>)
    ensures
        match (r, extract_spec(parsed_doc(html@), stock_code@)) {
            (Ok(f), Ok(m)) => f.annuals.code_spec() == m.code && f.quarters.code_spec() == m.code
                && f.annuals.records() == m.annuals && f.quarters.records() == m.quarters,
            (Err(e), Err(em)) => e == em,
            _ => false,
        },
{
    let d = parse_document(html);
    let ti = match locate_table(&d) {
        Ok(i) => i,
        Err(e) => {
            return Err(e);
        },
    };
    let tb = read_table(&d, ti);
    if tb.head.len() < 2 {
        return Err(ExtractError::MissingAxis);
    }
    proof {
        assert(tb@.head[0] == row_views(tb.head@[0]@));
        assert(tb@.head[1] == row_views(tb.head@[1]@));
    }
    let maps = match decode_header(&tb.head[0], &tb.head[1]) {
        Ok(v) => v,
        Err(e) => {
            return Err(e);
        },
    };
    let mut fin = Financials::new(stock_code);
    fin.decode_rows(&tb.body, &maps.0, &maps.1);
    fin.remove_duplicate();
    Ok(fin)
}

} // verus!
