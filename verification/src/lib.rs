//! Extraction of structured records from a decoded spreadsheet grid.
//!
//! A caller supplies a rectangular grid of typed cells whose first row holds
//! column headers, together with an ordered list of `(source header, output
//! key)` requests. The library matches each requested header against the
//! header row (case-insensitively, ignoring surrounding whitespace), builds a
//! position-sorted scan plan, and then walks each data row once from left to
//! right, emitting one output record per row. Cell values are coerced into a
//! small scalar set; empty or unsupported cells cause the key to be omitted
//! from the record rather than emitted with a null value.

pub mod cells;
pub mod extract;
pub mod grid;
pub mod headers;
pub mod text;
