//! Reads XBRL filings (XML) into flat lists of facts with their units,
//! periods and dimensions, and the helpers that sit around that parse.

pub mod helpers;
pub mod parser;
pub mod decimal;
pub mod text;
