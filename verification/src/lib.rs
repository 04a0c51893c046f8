//! Extraction and reconciliation of per-company financial facts published as
//! span-structured HTML tables.
//!
//! The pipeline: a document is parsed, the table of interest is located by its
//! caption, two header rows are decoded into per-axis (period, column) maps,
//! data rows are decoded into observations, observations are accumulated into
//! per-period records, annual records are de-duplicated by year, and the
//! result is diffed against previously stored records to produce a minimal
//! list of write intents.

pub mod text;
pub mod types;
pub mod table;
pub mod header;
pub mod rows;
pub mod dom;
pub mod extract;
pub mod fi_registry;
pub mod reconcile;
