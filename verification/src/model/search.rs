use vstd::prelude::*;

verus! {

/// A book found by a search or explore rule.
#[derive(Debug, Clone, Default)]
pub struct SearchBook {
    pub name: String,
    pub author: String,
    pub book_url: String,
    pub origin: String,
    pub cover_url: Option<String>,
    pub intro: Option<String>,
    pub kind: Option<String>,
    pub last_chapter: Option<String>,
    pub update_time: Option<String>,
}

/// The contents of a search result.
pub struct SearchBookView {
    pub name: Seq<char>,
    pub author: Seq<char>,
    pub book_url: Seq<char>,
    pub origin: Seq<char>,
    pub cover_url: Option<Seq<char>>,
    pub intro: Option<Seq<char>>,
    pub kind: Option<Seq<char>>,
    pub last_chapter: Option<Seq<char>>,
    pub update_time: Option<Seq<char>>,
}

/// The text of an optional string.
pub open spec fn opt_text(o: Option<String>) -> Option<Seq<char>> {
    match o {
        Some(s) => Some(s@),
        None => None,
    }
}

impl View for SearchBook {
    type V = SearchBookView;

    open spec fn view(&self) -> SearchBookView {
        SearchBookView {
            name: self.name@,
            author: self.author@,
            book_url: self.book_url@,
            origin: self.origin@,
            cover_url: opt_text(self.cover_url),
            intro: opt_text(self.intro),
            kind: opt_text(self.kind),
            last_chapter: opt_text(self.last_chapter),
            update_time: opt_text(self.update_time),
        }
    }
}

} // verus!
