use vstd::prelude::*;

verus! {

/// How a source's search (or explore) page lists books.
#[derive(Debug, Clone)]
pub struct SearchRule {
    pub book_list: Option<String>,
    pub name: Option<String>,
    pub author: Option<String>,
    pub book_url: Option<String>,
    pub cover_url: Option<String>,
    pub intro: Option<String>,
    pub kind: Option<String>,
    pub last_chapter: Option<String>,
    pub update_time: Option<String>,
}

impl Default for SearchRule {
    fn default() -> (r: SearchRule)
        ensures
            r.book_list is None && r.name is None && r.author is None && r.book_url is None
                && r.cover_url is None && r.intro is None && r.kind is None && r.last_chapter is None
                && r.update_time is None,
    {
        SearchRule {
            book_list: None,
            name: None,
            author: None,
            book_url: None,
            cover_url: None,
            intro: None,
            kind: None,
            last_chapter: None,
            update_time: None,
        }
    }
}

/// How a source's book page gives the book's details.
#[derive(Debug, Clone)]
pub struct BookInfoRule {
    pub init: Option<String>,
    pub name: Option<String>,
    pub author: Option<String>,
    pub intro: Option<String>,
    pub kind: Option<String>,
    pub last_chapter: Option<String>,
    pub update_time: Option<String>,
    pub cover_url: Option<String>,
    pub word_count: Option<String>,
    pub toc_url: Option<String>,
}

impl Default for BookInfoRule {
    fn default() -> (r: BookInfoRule)
        ensures
            r.init is None && r.name is None && r.author is None && r.intro is None && r.kind is None
                && r.last_chapter is None && r.update_time is None && r.cover_url is None
                && r.word_count is None && r.toc_url is None,
    {
        BookInfoRule {
            init: None,
            name: None,
            author: None,
            intro: None,
            kind: None,
            last_chapter: None,
            update_time: None,
            cover_url: None,
            word_count: None,
            toc_url: None,
        }
    }
}

/// How a source's table-of-contents page lists chapters.
#[derive(Debug, Clone)]
pub struct TocRule {
    pub init: Option<String>,
    pub chapter_list: Option<String>,
    pub chapter_name: Option<String>,
    pub chapter_url: Option<String>,
}

impl Default for TocRule {
    fn default() -> (r: TocRule)
        ensures
            r.init is None && r.chapter_list is None && r.chapter_name is None && r.chapter_url is None,
    {
        TocRule { init: None, chapter_list: None, chapter_name: None, chapter_url: None }
    }
}

/// How a source's chapter page gives the chapter text.
#[derive(Debug, Clone)]
pub struct ContentRule {
    pub content: Option<String>,
    pub replace_regex: Option<String>,
}

impl Default for ContentRule {
    fn default() -> (r: ContentRule)
        ensures
            r.content is None && r.replace_regex is None,
    {
        ContentRule { content: None, replace_regex: None }
    }
}

/// A book source: where books come from and the rules that read its pages.
#[derive(Debug, Clone)]
pub struct BookSource {
    pub book_source_url: String,
    pub book_source_name: String,
    pub rule_search: Option<SearchRule>,
    pub rule_explore: Option<SearchRule>,
    pub rule_book_info: Option<BookInfoRule>,
    pub rule_toc: Option<TocRule>,
    pub rule_content: Option<ContentRule>,
}

} // verus!
