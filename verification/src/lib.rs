//! Card-payment receipts: reading a payment out of the recognized text of
//! a photographed receipt, and writing a batch of payments with their
//! images as a printable document.
//!
//! * `parser` tells the layout of a text and reads date, merchant and
//!   amount from it; `pattern` and `datetime` hold what it takes from the
//!   `regex` and `chrono` crates.
//! * `pdf_export` writes the document, byte by byte, with an index of where
//!   each of its objects begins.
//! * `model`, `sorting`, `intake`, `edit`, `table`, `expense` and `bundle`
//!   are the table around them: its state and order, what recognition hands
//!   back, edits by hand, the cells shown, expense types, and the archive of
//!   all that is exported.
//! * `text` and `decimal` are the characters and numbers under all of it.

pub mod bundle;
pub mod datetime;
pub mod decimal;
pub mod edit;
pub mod expense;
pub mod intake;
pub mod model;
pub mod parser;
pub mod pattern;
pub mod pdf_export;
pub mod sorting;
pub mod table;
pub mod text;
