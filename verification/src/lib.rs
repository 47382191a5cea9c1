//! Rule evaluation for a book-reader server: the Legado selector dialect,
//! text extraction, field rules and the small pieces of request logic.

pub mod strings;
pub mod util;
pub mod parser;
pub mod model;
pub mod api;
pub mod storage;
pub mod laws;
pub mod rule_laws;
