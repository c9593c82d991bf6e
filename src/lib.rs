//! Normalisation of delimited text records: quote-aware field splitting,
//! a delimiter-agnostic internal encoding, minimal re-quoting, title-cased
//! headers and lexicographic ordering of rows.
pub mod fields;
pub mod laws;
pub mod record;
pub mod table;
pub mod text;
pub mod title;

pub use fields::{split, FieldIterator, QUOTE};
pub use record::{
    decode, encode, join, parse_record, render, restore_record, UNIT_SEPARATOR,
};
pub use table::{
    header_line, lex_precedes, normalize_table, sniff_delimiter, sort_records, OUTPUT_DELIMITER,
};
pub use title::{title_layout, to_title, BOM};
