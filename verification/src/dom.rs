//! Trusted access to the HTML parser. The document is parsed by the outside
//! crate and read back table by table, cell by cell, as plain values; the one
//! shared model, `doc_model`, names what the parsed document holds, and every
//! accessor below is specified against it.
//!
//! A document's tables are its `table` elements in the order the parsed
//! tree yields them (document order for any well-formed page). A table's
//! caption text is the first text node of its first `caption` element; its
//! header rows are its `thead tr` elements with their `th` cells; its data
//! rows are its `tbody tr` elements with their `th,td` cells. A cell carries
//! its raw `rowspan` and `colspan` attribute texts and its text nodes in
//! document order.

use vstd::prelude::*;
use crate::table::{Cell, TableModel};

verus! {

#[verifier::external_type_specification]
#[verifier::external_body]
pub struct ExHtml(scraper::Html);

/// The mathematical value of a parsed document: its tables, in the order
/// the parsed tree yields them.
pub ghost struct DocModel {
    pub tables: Seq<TableModel>,
}

/// What a parsed document holds.
pub uninterp spec fn doc_model(d: scraper::Html) -> DocModel;

/// What parsing a text yields: parsing depends on the text alone.
pub uninterp spec fn parsed_doc(s: Seq<char>) -> DocModel;

/// Relies on scraper::Html::parse_document: parsing a document is a function
/// of the input text alone.
#[verifier::external_body]
pub fn parse_document(html: &str) -> (d: scraper::Html)
    ensures
        doc_model(d) == parsed_doc(html@),
{
    scraper::Html::parse_document(html)
}

/// Relies on scraper::Html::select with the `table` selector: the number of
/// table elements in the document.
#[verifier::external_body]
pub fn table_count(d: &scraper::Html) -> (n: usize)
    ensures
        n == doc_model(*d).tables.len(),
{
    let tsel = scraper::Selector::parse("table").unwrap();
    d.select(&tsel).count()
}

/// Relies on scraper's select (`caption` within the table) and
/// ElementRef::text: the first text node of the table's first caption.
#[verifier::external_body]
pub fn table_caption(d: &scraper::Html, t: usize) -> (r: Option<Vec<char>>)
    ensures
        t < doc_model(*d).tables.len() ==> crate::table::opt_text_view(r) == doc_model(
            *d,
        ).tables[t as int].caption,
        t >= doc_model(*d).tables.len() ==> r is None,
{
    let tsel = scraper::Selector::parse("table").unwrap();
    let csel = scraper::Selector::parse("caption").unwrap();
    d.select(&tsel)
        .nth(t)
        .and_then(|tb| tb.select(&csel).next())
        .and_then(|cap| cap.text().next())
        .map(|s| s.chars().collect())
}

/// Relies on scraper's select with the `thead tr` selector: how many header
/// rows the table has.
#[verifier::external_body]
pub fn head_row_count(d: &scraper::Html, t: usize) -> (n: usize)
    ensures
        t < doc_model(*d).tables.len() ==> n == doc_model(*d).tables[t as int].head.len(),
        t >= doc_model(*d).tables.len() ==> n == 0,
{
    let tsel = scraper::Selector::parse("table").unwrap();
    let rsel = scraper::Selector::parse("thead tr").unwrap();
    match d.select(&tsel).nth(t) {
        Some(tb) => tb.select(&rsel).count(),
        None => 0,
    }
}

/// Relies on scraper's select with the `th` selector within a header row: how
/// many cells that row has.
#[verifier::external_body]
pub fn head_cell_count(d: &scraper::Html, t: usize, r: usize) -> (n: usize)
    ensures
        t < doc_model(*d).tables.len() && r < doc_model(*d).tables[t as int].head.len() ==> n
            == doc_model(*d).tables[t as int].head[r as int].len(),
        !(t < doc_model(*d).tables.len() && r < doc_model(*d).tables[t as int].head.len()) ==> n
            == 0,
{
    let tsel = scraper::Selector::parse("table").unwrap();
    let rsel = scraper::Selector::parse("thead tr").unwrap();
    let csel = scraper::Selector::parse("th").unwrap();
    match d.select(&tsel).nth(t).and_then(|tb| tb.select(&rsel).nth(r)) {
        Some(row) => row.select(&csel).count(),
        None => 0,
    }
}

/// Relies on scraper's select (`th` within a `thead tr` row), ElementRef::attr
/// and ElementRef::text: one header cell's span attributes and text nodes.
#[verifier::external_body]
pub fn head_cell(d: &scraper::Html, t: usize, r: usize, c: usize) -> (cell: Option<Cell>)
    ensures
        t < doc_model(*d).tables.len() && r < doc_model(*d).tables[t as int].head.len() && c
            < doc_model(*d).tables[t as int].head[r as int].len() ==> (cell is Some && cell->0@
            == doc_model(*d).tables[t as int].head[r as int][c as int]),
        !(t < doc_model(*d).tables.len() && r < doc_model(*d).tables[t as int].head.len() && c
            < doc_model(*d).tables[t as int].head[r as int].len()) ==> cell is None,
{
    let tsel = scraper::Selector::parse("table").unwrap();
    let rsel = scraper::Selector::parse("thead tr").unwrap();
    let csel = scraper::Selector::parse("th").unwrap();
    d.select(&tsel)
        .nth(t)
        .and_then(|tb| tb.select(&rsel).nth(r))
        .and_then(|row| row.select(&csel).nth(c))
        .map(|el| Cell {
            rowspan: el.attr("rowspan").map(|a| a.chars().collect()),
            colspan: el.attr("colspan").map(|a| a.chars().collect()),
            texts: el.text().map(|s| s.chars().collect()).collect(),
        })
}

/// Relies on scraper's select with the `tbody tr` selector: how many data
/// rows the table has.
#[verifier::external_body]
pub fn body_row_count(d: &scraper::Html, t: usize) -> (n: usize)
    ensures
        t < doc_model(*d).tables.len() ==> n == doc_model(*d).tables[t as int].body.len(),
        t >= doc_model(*d).tables.len() ==> n == 0,
{
    let tsel = scraper::Selector::parse("table").unwrap();
    let rsel = scraper::Selector::parse("tbody tr").unwrap();
    match d.select(&tsel).nth(t) {
        Some(tb) => tb.select(&rsel).count(),
        None => 0,
    }
}

/// Relies on scraper's select with the `th,td` selector within a data row:
/// how many cells that row has.
#[verifier::external_body]
pub fn body_cell_count(d: &scraper::Html, t: usize, r: usize) -> (n: usize)
    ensures
        t < doc_model(*d).tables.len() && r < doc_model(*d).tables[t as int].body.len() ==> n
            == doc_model(*d).tables[t as int].body[r as int].len(),
        !(t < doc_model(*d).tables.len() && r < doc_model(*d).tables[t as int].body.len()) ==> n
            == 0,
{
    let tsel = scraper::Selector::parse("table").unwrap();
    let rsel = scraper::Selector::parse("tbody tr").unwrap();
    let csel = scraper::Selector::parse("th,td").unwrap();
    match d.select(&tsel).nth(t).and_then(|tb| tb.select(&rsel).nth(r)) {
        Some(row) => row.select(&csel).count(),
        None => 0,
    }
}

/// Relies on scraper's select (`th,td` within a `tbody tr` row),
/// ElementRef::attr and ElementRef::text: one data cell's span attributes and
/// text nodes.
#[verifier::external_body]
pub fn body_cell(d: &scraper::Html, t: usize, r: usize, c: usize) -> (cell: Option<Cell>)
    ensures
        t < doc_model(*d).tables.len() && r < doc_model(*d).tables[t as int].body.len() && c
            < doc_model(*d).tables[t as int].body[r as int].len() ==> (cell is Some && cell->0@
            == doc_model(*d).tables[t as int].body[r as int][c as int]),
        !(t < doc_model(*d).tables.len() && r < doc_model(*d).tables[t as int].body.len() && c
            < doc_model(*d).tables[t as int].body[r as int].len()) ==> cell is None,
{
    let tsel = scraper::Selector::parse("table").unwrap();
    let rsel = scraper::Selector::parse("tbody tr").unwrap();
    let csel = scraper::Selector::parse("th,td").unwrap();
    d.select(&tsel)
        .nth(t)
        .and_then(|tb| tb.select(&rsel).nth(r))
        .and_then(|row| row.select(&csel).nth(c))
        .map(|el| Cell {
            rowspan: el.attr("rowspan").map(|a| a.chars().collect()),
            colspan: el.attr("colspan").map(|a| a.chars().collect()),
            texts: el.text().map(|s| s.chars().collect()).collect(),
        })
}

} // verus!
