//! A verified engine for consolidating quantity tables found in spreadsheet
//! workbooks: header detection, record extraction, text normalization and
//! aggregation of records by normalized item name and unit.
pub mod text;
pub mod models;
pub mod normalization;
pub mod sheet;
pub mod header;
pub mod parser;
pub mod aggregator;
pub mod cache;
pub mod pipeline;
pub mod scanner;
