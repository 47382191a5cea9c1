use vstd::prelude::*;

verus! {

/// A reader's bookmark in a book.
#[derive(Debug, Clone, Default)]
pub struct Bookmark {
    pub time: i64,
    pub book_name: String,
    pub book_author: String,
    pub chapter_index: i32,
    pub chapter_pos: i32,
    pub chapter_name: String,
    pub book_text: String,
    pub content: String,
}

} // verus!
