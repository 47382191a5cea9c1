pub mod book_source;
pub mod bookmark;
