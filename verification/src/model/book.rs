use vstd::prelude::*;
use crate::model::search::opt_text;

verus! {

/// A book's details as read from its info page.
#[derive(Debug, Clone, Default)]
pub struct Book {
    pub name: String,
    pub author: String,
    pub book_url: String,
    pub origin: String,
    pub origin_name: Option<String>,
    pub cover_url: Option<String>,
    pub toc_url: Option<String>,
    pub intro: Option<String>,
    pub latest_chapter_title: Option<String>,
    pub word_count: Option<String>,
    pub info_html: Option<String>,
    pub toc_html: Option<String>,
    pub kind: Option<String>,
    pub update_time: Option<String>,
}

/// The contents of a book's details.
pub struct BookView {
    pub name: Seq<char>,
    pub author: Seq<char>,
    pub book_url: Seq<char>,
    pub origin: Seq<char>,
    pub origin_name: Option<Seq<char>>,
    pub cover_url: Option<Seq<char>>,
    pub toc_url: Option<Seq<char>>,
    pub intro: Option<Seq<char>>,
    pub latest_chapter_title: Option<Seq<char>>,
    pub word_count: Option<Seq<char>>,
    pub info_html: Option<Seq<char>>,
    pub toc_html: Option<Seq<char>>,
    pub kind: Option<Seq<char>>,
    pub update_time: Option<Seq<char>>,
}

impl View for Book {
    type V = BookView;

    open spec fn view(&self) -> BookView {
        BookView {
            name: self.name@,
            author: self.author@,
            book_url: self.book_url@,
            origin: self.origin@,
            origin_name: opt_text(self.origin_name),
            cover_url: opt_text(self.cover_url),
            toc_url: opt_text(self.toc_url),
            intro: opt_text(self.intro),
            latest_chapter_title: opt_text(self.latest_chapter_title),
            word_count: opt_text(self.word_count),
            info_html: opt_text(self.info_html),
            toc_html: opt_text(self.toc_html),
            kind: opt_text(self.kind),
            update_time: opt_text(self.update_time),
        }
    }
}

} // verus!
