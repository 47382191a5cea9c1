pub mod book;
pub mod book_chapter;
pub mod book_source;
pub mod bookmark;
pub mod search;
pub mod user;
