use vstd::prelude::*;

verus! {

/// One entry of a book's table of contents.
#[derive(Debug, Clone, Default)]
pub struct BookChapter {
    pub title: String,
    pub url: String,
    pub index: i32,
}

/// The contents of a chapter entry.
pub struct BookChapterView {
    pub title: Seq<char>,
    pub url: Seq<char>,
    pub index: i32,
}

impl View for BookChapter {
    type V = BookChapterView;

    open spec fn view(&self) -> BookChapterView {
        BookChapterView { title: self.title@, url: self.url@, index: self.index }
    }
}

} // verus!
