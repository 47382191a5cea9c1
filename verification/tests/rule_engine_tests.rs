use reader_rust::parser::rule_engine::{can_explore, can_read_toc, can_search};
use reader_rust::model::book_source::{BookInfoRule, BookSource, ContentRule, SearchRule, TocRule};
use reader_rust::parser::context::Context;
use reader_rust::parser::html::parse_document;
use reader_rust::parser::rule_compiler::RuleCompiler;
use reader_rust::parser::rule_engine::{
    apply_legado_regex, eval_field, extract_js_chars, is_json, parse_book_info_html, parse_book_info_json,
    parse_chapter_list_html, parse_chapter_list_json, resolve_url, search_books_html, search_books_json,
    split_legado_regex_chars, FieldSource, PlainHost, RuleEngine,
};

const PAGE: &str = r#"<html><body>
<div class="list"><ul>
<li class="item"><a href="/book/1">Book One</a><span class="author">Ann</span></li>
<li class="item"><a href="/book/2">Book Two</a><span class="author">Bob</span></li>
<li class="item"><a href="http://x.com/3">Book Three</a><span class="author">Cy</span></li>
</ul></div>
<p id="intro">  Hello   world  </p>
<img class="cover" src="//cdn.example.com/c.png">
</body></html>"#;

const BASE: &str = "http://example.com/search/q";

fn s(t: &str) -> Option<String> {
    Some(t.to_string())
}

fn chars(t: &str) -> Vec<char> {
    t.chars().collect()
}

fn text(v: &[char]) -> String {
    v.iter().collect()
}

fn empty_source() -> BookSource {
    BookSource {
        book_source_url: "https://source.example".to_string(),
        book_source_name: "Example".to_string(),
        rule_search: None,
        rule_explore: None,
        rule_book_info: None,
        rule_toc: None,
        rule_content: None,
    }
}

fn search_rule() -> SearchRule {
    SearchRule {
        book_list: s(".item"),
        name: s("a@text"),
        author: s("span@text"),
        book_url: s("a@href"),
        cover_url: None,
        intro: None,
        kind: None,
        last_chapter: None,
        update_time: None,
    }
}

#[test]
fn rule_engine_new_succeeds() {
    assert!(RuleEngine::new().is_ok());
}

#[test]
fn compile_keeps_rule_text() {
    assert_eq!(RuleCompiler::compile("a@href##x").raw, "a@href##x");
}

#[test]
fn search_books_reads_each_item() {
    let engine = RuleEngine::new().unwrap();
    let mut source = empty_source();
    source.rule_search = Some(search_rule());
    let books = engine.search_books(&PlainHost, &source, PAGE, BASE);
    assert_eq!(books.len(), 3);
    assert_eq!(books[0].name, "Book One");
    assert_eq!(books[0].author, "Ann");
    assert_eq!(books[0].book_url, "http://example.com/book/1");
    assert_eq!(books[2].book_url, "http://x.com/3");
    assert!(books.iter().all(|b| b.origin == "https://source.example"));
    assert_eq!(books[1].cover_url, None);
    assert_eq!(books[1].intro, None);
}

#[test]
fn search_without_list_rule_finds_nothing() {
    let engine = RuleEngine::new().unwrap();
    let source = empty_source();
    assert!(engine.search_books(&PlainHost, &source, PAGE, BASE).is_empty());
}

#[test]
fn search_json_without_jsonpath_engine_is_empty() {
    let engine = RuleEngine::new().unwrap();
    let mut source = empty_source();
    let mut rule = search_rule();
    rule.book_list = s("$.books");
    source.rule_search = Some(rule);
    assert!(engine.search_books(&PlainHost, &source, "{\"books\": []}", BASE).is_empty());
}

#[test]
fn explore_falls_back_to_search_rule() {
    let engine = RuleEngine::new().unwrap();
    let mut source = empty_source();
    source.rule_search = Some(search_rule());
    let explored = engine.explore_books(&PlainHost, &source, PAGE, BASE);
    assert_eq!(explored.len(), 3);
    assert_eq!(explored[1].name, "Book Two");

    let mut explore = search_rule();
    explore.book_list = s(".item.-1");
    source.rule_explore = Some(explore);
    let explored = engine.explore_books(&PlainHost, &source, PAGE, BASE);
    assert_eq!(explored.len(), 1);
    assert_eq!(explored[0].name, "Book Three");
}

#[test]
fn chapter_list_numbers_chapters() {
    let engine = RuleEngine::new().unwrap();
    let mut source = empty_source();
    source.rule_toc = Some(TocRule {
        init: None,
        chapter_list: s(".item"),
        chapter_name: s("a@text"),
        chapter_url: s("a@href"),
    });
    let chapters = engine.chapter_list(&PlainHost, &source, PAGE, BASE);
    assert_eq!(chapters.len(), 3);
    for (i, c) in chapters.iter().enumerate() {
        assert_eq!(c.index, i as i32);
    }
    assert_eq!(chapters[1].title, "Book Two");
    assert_eq!(chapters[1].url, "http://example.com/book/2");
}

#[test]
fn chapter_list_put_and_get() {
    let engine = RuleEngine::new().unwrap();
    let mut source = empty_source();
    source.rule_toc = Some(TocRule {
        init: None,
        chapter_list: s(".item"),
        chapter_name: s("@put:{who:span@text}"),
        chapter_url: s("@get:{who}"),
    });
    let chapters = engine.chapter_list(&PlainHost, &source, PAGE, BASE);
    assert_eq!(chapters.len(), 3);
    assert_eq!(chapters[0].title, "");
    assert_eq!(chapters[0].url, "http://example.com/search/Ann");
    assert_eq!(chapters[2].url, "http://example.com/search/Cy");
}

#[test]
fn chapter_list_without_rule_is_empty() {
    let engine = RuleEngine::new().unwrap();
    assert!(engine.chapter_list(&PlainHost, &empty_source(), PAGE, BASE).is_empty());
}

#[test]
fn book_info_reads_page() {
    let engine = RuleEngine::new().unwrap();
    let mut source = empty_source();
    source.rule_book_info = Some(BookInfoRule {
        init: None,
        name: s("#intro@text"),
        author: s(".author"),
        intro: None,
        kind: None,
        last_chapter: s(".item.-1@a@text"),
        update_time: None,
        cover_url: s(".cover@src"),
        word_count: None,
        toc_url: None,
    });
    let book = engine.book_info(&PlainHost, &source, PAGE, BASE, "http://example.com/book/9");
    assert_eq!(book.name, "Hello   world");
    assert_eq!(book.author, "Ann");
    assert_eq!(book.latest_chapter_title, s("Book Three"));
    assert_eq!(book.cover_url, s("https://cdn.example.com/c.png"));
    assert_eq!(book.book_url, "http://example.com/book/9");
    assert_eq!(book.toc_url, s("http://example.com/book/9"));
    assert_eq!(book.origin, "https://source.example");
    assert_eq!(book.origin_name, s("Example"));
    assert_eq!(book.intro, None);
}

#[test]
fn content_applies_replacements() {
    let engine = RuleEngine::new().unwrap();
    let mut source = empty_source();
    source.rule_content = Some(ContentRule { content: s("#intro@text"), replace_regex: s("##\\s+## ") });
    assert_eq!(engine.content(&PlainHost, &source, PAGE, BASE), "Hello world");
    source.rule_content = Some(ContentRule { content: s("#intro@text"), replace_regex: None });
    assert_eq!(engine.content(&PlainHost, &source, PAGE, BASE), "Hello   world");
}

#[test]
fn content_script_without_engine_falls_back() {
    let engine = RuleEngine::new().unwrap();
    let mut source = empty_source();
    source.rule_content = Some(ContentRule { content: s("js:result"), replace_regex: None });
    assert_eq!(engine.content(&PlainHost, &source, PAGE, BASE), "");
}

#[test]
fn resolve_url_forms() {
    let base = "http://e.com/a/b";
    assert_eq!(resolve_url(base, ""), base);
    assert_eq!(resolve_url(base, "https://x.org/y"), "https://x.org/y");
    assert_eq!(resolve_url(base, "http://x.org/y"), "http://x.org/y");
    assert_eq!(resolve_url(base, "//cdn.x/y.png"), "https://cdn.x/y.png");
    assert_eq!(resolve_url(base, "/c?d=1"), "http://e.com/c%3Fd=1");
    assert_eq!(resolve_url(base, "c"), "http://e.com/a/c");
    assert_eq!(resolve_url(base, "../c"), "http://e.com/c");
    assert_eq!(resolve_url("not a url", "c/d"), "c/d");
}

#[test]
fn legado_regex_parts() {
    assert_eq!(apply_legado_regex("abc123def45", "\\d+##X"), "abcXdefX");
    assert_eq!(apply_legado_regex("abc123def45", "##\\d+##X"), "abcXdefX");
    assert_eq!(apply_legado_regex("abc123", "##\\d+"), "abc");
    assert_eq!(apply_legado_regex("a-b_c", "##-##+##_##*"), "a+b*c");
    assert_eq!(apply_legado_regex("keep", "   "), "keep");
    assert_eq!(apply_legado_regex("keep(", "##(##x"), "keep(");
}

#[test]
fn script_and_regex_parts_of_rules() {
    let (pure, js) = extract_js_chars(&chars(" a@text <js>result + 1</js>"));
    assert_eq!(text(&pure), "a@text");
    assert_eq!(js.map(|j| text(&j)), s("result + 1"));
    let (pure, js) = extract_js_chars(&chars("a@href@js:result.trim()"));
    assert_eq!(text(&pure), "a@href");
    assert_eq!(js.map(|j| text(&j)), s("result.trim()"));
    let (pure, js) = extract_js_chars(&chars("a@href"));
    assert_eq!(text(&pure), "a@href");
    assert!(js.is_none());

    let (pure, reg) = split_legado_regex_chars(&chars("a@text ##\\d##"));
    assert_eq!(text(&pure), "a@text");
    assert_eq!(reg.map(|r| text(&r)), s("##\\d##"));
    let (pure, reg) = split_legado_regex_chars(&chars("a@text"));
    assert_eq!(text(&pure), "a@text");
    assert!(reg.is_none());
}

#[test]
fn json_bodies() {
    assert!(is_json("  {\"a\": 1}"));
    assert!(is_json("\n[1, 2]"));
    assert!(!is_json("<html></html>"));
    assert!(!is_json("   "));
}

#[test]
fn put_then_get_reads_back() {
    let doc = parse_document(PAGE);
    let src = FieldSource::Document(&doc);
    let mut ctx = Context::new();
    let put = eval_field(&PlainHost, &chars("@put:{greeting:\"#intro@text\"}"), &src, BASE, &mut ctx);
    assert_eq!(put.map(|p| text(&p)), s(""));
    let got = eval_field(&PlainHost, &chars("@get:{greeting}"), &src, BASE, &mut ctx);
    assert_eq!(got.map(|g| text(&g)), s("Hello   world"));
    let missing = eval_field(&PlainHost, &chars("@get:{nobody}"), &src, BASE, &mut ctx);
    assert_eq!(missing, None);
}

#[test]
fn context_get_after_insert() {
    let mut ctx = Context::new();
    assert_eq!(ctx.get(&chars("k")), None);
    ctx.insert(&chars("k"), &chars("v1"));
    ctx.insert(&chars("other"), &chars("x"));
    assert_eq!(ctx.get(&chars("k")), Some(chars("v1")));
    ctx.insert(&chars("k"), &chars("v2"));
    assert_eq!(ctx.get(&chars("k")), Some(chars("v2")));
    assert_eq!(ctx.get(&chars("other")), Some(chars("x")));
}

#[test]
fn source_acceptance_checks() {
    let mut source = empty_source();
    assert!(can_search(&source) && can_explore(&source) && can_read_toc(&source));
    let mut rule = search_rule();
    rule.book_list = s(".item ||");
    source.rule_search = Some(rule);
    assert!(!can_search(&source));
    assert!(!can_explore(&source));
    source.rule_explore = Some(search_rule());
    assert!(can_explore(&source));
    source.rule_toc = Some(TocRule { init: None, chapter_list: s(".a %%"), chapter_name: None, chapter_url: None });
    assert!(!can_read_toc(&source));
}

#[test]
fn chapter_urls_default_to_base() {
    let engine = RuleEngine::new().unwrap();
    let mut source = empty_source();
    source.rule_toc = Some(TocRule { init: None, chapter_list: s(".item"), chapter_name: s("a@text"), chapter_url: None });
    let chapters = engine.chapter_list(&PlainHost, &source, PAGE, BASE);
    assert_eq!(chapters.len(), 3);
    assert!(chapters.iter().all(|c| c.url == BASE));
}

#[test]
fn json_book_info_keeps_variables() {
    let v: serde_json::Value = serde_json::from_str("{\"title\": \"T\"}").unwrap();
    let mut rule = BookInfoRule {
        init: s("@put:{t:title}"),
        name: s("@get:{t}"),
        author: None,
        intro: None,
        kind: None,
        last_chapter: None,
        update_time: None,
        cover_url: None,
        word_count: None,
        toc_url: None,
    };
    let mut ctx = Context::new();
    let book = parse_book_info_json(&PlainHost, &empty_source(), &v, "", &rule, "u", &mut ctx);
    // Without a JSON text renderer the stored title is the empty text.
    assert_eq!(ctx.get(&chars("t")), Some(Vec::new()));
    assert_eq!(book.name, "");
    assert_eq!(book.author, "");
    assert_eq!(book.book_url, "u");
    assert_eq!(book.toc_url, s("u"));
    rule.init = None;
    let mut ctx2 = Context::new();
    ctx2.insert(&chars("t"), &chars("kept"));
    let book = parse_book_info_json(&PlainHost, &empty_source(), &v, "", &rule, "u", &mut ctx2);
    assert_eq!(book.name, "kept");
}

#[test]
fn html_book_info_and_chapters_share_variables() {
    let mut ctx = Context::new();
    let rule = BookInfoRule {
        init: s("@put:{intro:#intro@text}"),
        name: s("@get:{intro}"),
        author: None,
        intro: None,
        kind: None,
        last_chapter: None,
        update_time: None,
        cover_url: None,
        word_count: None,
        toc_url: None,
    };
    let book = parse_book_info_html(&PlainHost, &empty_source(), PAGE, BASE, &rule, "u", &mut ctx);
    assert_eq!(book.name, "Hello   world");
    assert_eq!(ctx.get(&chars("intro")), Some(chars("Hello   world")));
    let toc = TocRule { init: None, chapter_list: s(".item"), chapter_name: s("@get:{intro}"), chapter_url: None };
    let chapters = parse_chapter_list_html(&PlainHost, PAGE, BASE, &toc, &mut ctx);
    assert_eq!(chapters.len(), 3);
    assert!(chapters.iter().all(|c| c.title == "Hello   world"));
    let mut empty = Context::new();
    assert!(parse_chapter_list_json(&PlainHost, "not json", BASE, &toc, &mut empty).is_empty());
    assert_eq!(empty.get(&chars("intro")), None);
}

#[test]
fn search_helpers_directly() {
    let source = empty_source();
    let books = search_books_html(&PlainHost, &source, &search_rule(), PAGE, BASE);
    assert_eq!(books.len(), 3);
    assert_eq!(books[0].book_url, "http://example.com/book/1");
    assert!(search_books_json(&PlainHost, &source, &search_rule(), "{oops", BASE).is_empty());
}
