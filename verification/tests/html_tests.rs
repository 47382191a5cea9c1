use reader_rust::parser::html::list_rule_is_ok;
use reader_rust::parser::html::{
    extract_text, parse_document, select_all_text, select_list, select_text, select_text_from_element,
    select_text_list,
};

const PAGE: &str = r#"<html><body>
<div class="list"><ul>
<li class="item"><a href="/book/1">Book One</a><span class="author">Ann</span></li>
<li class="item"><a href="/book/2">Book Two</a><span class="author">Bob</span></li>
<li class="item"><a href="http://x.com/3">Book Three</a><span class="author">Cy</span></li>
</ul></div>
<p id="intro">  Hello   world  </p>
</body></html>"#;

fn texts_of(els: &[scraper::ElementRef]) -> Vec<String> {
    els.iter().map(|e| e.text().collect::<Vec<_>>().join(" ")).collect()
}

#[test]
fn select_list_indices() {
    let doc = parse_document(PAGE);
    assert_eq!(select_list(&doc, ".item").len(), 3);
    assert_eq!(select_list(&doc, "class.item.0").len(), 3);
    assert_eq!(texts_of(&select_list(&doc, ".item.-1")), vec!["Book Three Cy"]);
    assert_eq!(texts_of(&select_list(&doc, ".item.1")), vec!["Book Two Bob"]);
    assert_eq!(select_list(&doc, ".item.7").len(), 0);
    assert_eq!(texts_of(&select_list(&doc, ".item!0")), vec!["Book Two Bob", "Book Three Cy"]);
    assert_eq!(texts_of(&select_list(&doc, ".item.0:1")), vec!["Book One Ann", "Book Two Bob"]);
    assert_eq!(select_list(&doc, ".missing").len(), 0);
    assert_eq!(select_list(&doc, ":::").len(), 0);
    assert_eq!(select_list(&doc, ".item@a@href").len(), 3);
}

#[test]
fn select_list_combinations() {
    let doc = parse_document(PAGE);
    assert_eq!(select_list(&doc, ".item && .author").len(), 6);
    assert_eq!(texts_of(&select_list(&doc, ".missing || .author")), vec!["Ann", "Bob", "Cy"]);
    assert_eq!(texts_of(&select_list(&doc, ".author || .missing")), vec!["Ann", "Bob", "Cy"]);
    assert_eq!(
        texts_of(&select_list(&doc, ".author.0:1 %% a")),
        vec!["Ann", "Book One", "Bob", "Book Two", "Book Three"]
    );
}

#[test]
fn extract_text_extractors() {
    let doc = parse_document(PAGE);
    let items = select_list(&doc, ".item");
    let li = &items[0];
    assert_eq!(extract_text(li, "text"), Some("Book One Ann".to_string()));
    assert_eq!(extract_text(li, "@text"), Some("Book One Ann".to_string()));
    assert_eq!(extract_text(li, "textNodes"), Some("Book One\nAnn".to_string()));
    assert_eq!(extract_text(li, "ownText"), None);
    assert_eq!(extract_text(li, "class"), Some("item".to_string()));
    assert_eq!(extract_text(li, "@class"), Some("item".to_string()));
    assert_eq!(extract_text(li, "href"), None);
    let html = extract_text(li, "html").unwrap();
    assert!(html.starts_with("<li class=\"item\">"));
    assert_eq!(extract_text(li, "all"), Some(html));
    let p = &select_list(&doc, "#intro")[0];
    assert_eq!(extract_text(p, " ownText "), Some("Hello   world".to_string()));
}

#[test]
fn select_text_from_element_steps() {
    let doc = parse_document(PAGE);
    let items = select_list(&doc, ".item");
    assert_eq!(select_text_from_element(&items[1], "a@href"), Some("/book/2".to_string()));
    assert_eq!(select_text_from_element(&items[1], "a@text"), Some("Book Two".to_string()));
    assert_eq!(select_text_from_element(&items[1], ".author"), None);
    assert_eq!(select_text_from_element(&items[1], "b@text"), None);
    let ul = &select_list(&doc, "ul")[0];
    assert_eq!(select_text_from_element(ul, "li.-1@a@text"), Some("Book Three".to_string()));
    assert_eq!(select_text_from_element(ul, "li!0@a@text"), Some("Book Two".to_string()));
    assert_eq!(select_text_from_element(ul, "li.1:2@span@text"), Some("Bob".to_string()));
    assert_eq!(select_text_from_element(ul, "li@a@text"), Some("Book One".to_string()));
    assert_eq!(select_text_from_element(ul, "li.9@a@text"), None);
}

#[test]
fn select_text_list_forms() {
    let doc = parse_document(PAGE);
    assert_eq!(select_text_list(&doc, ".item@a@href"), vec!["/book/1", "/book/2", "http://x.com/3"]);
    assert_eq!(select_text_list(&doc, ".author"), vec!["Ann", "Bob", "Cy"]);
    assert_eq!(select_text_list(&doc, "text.Two@href"), vec!["/book/2"]);
    assert_eq!(select_text_list(&doc, "text.Book"), vec!["Book One", "Book Two", "Book Three"]);
    assert_eq!(select_text_list(&doc, ".item.1@a@text"), vec!["Book Two"]);
    assert_eq!(select_text_list(&doc, "#intro"), vec!["Hello   world"]);
    assert!(select_text_list(&doc, ".missing").is_empty());
    assert_eq!(select_text_list(&doc, ".item.0@html@@a@text"), vec!["Book One", "Book Two", "Book Three"]);
}

#[test]
fn select_text_first() {
    let doc = parse_document(PAGE);
    assert_eq!(select_text(&doc, ".author"), Some("Ann".to_string()));
    assert_eq!(select_text(&doc, "#intro@text"), Some("Hello   world".to_string()));
    assert_eq!(select_text(&doc, ".missing"), None);
}

#[test]
fn select_all_text_joins() {
    let doc = parse_document(PAGE);
    assert_eq!(select_all_text(&doc, ".item@a"), Some("Book One\nBook Two\nBook Three".to_string()));
    assert_eq!(select_all_text(&doc, ".item@class"), Some("item\nitem\nitem".to_string()));
    assert_eq!(select_all_text(&doc, "#intro"), Some("Hello   world".to_string()));
    assert_eq!(select_all_text(&doc, ".item!0@span"), Some("Bob\nCy".to_string()));
    assert_eq!(select_all_text(&doc, ".missing"), None);
}

#[test]
fn list_rule_acceptance() {
    assert!(list_rule_is_ok(".item"));
    assert!(list_rule_is_ok(".item && .author"));
    assert!(list_rule_is_ok(".item@a@href"));
    assert!(!list_rule_is_ok(".item &&"));
    assert!(!list_rule_is_ok(".item || "));
    assert!(list_rule_is_ok(".item@x &&"));
}

#[test]
fn plain_rule_is_simple_selection() {
    let doc = parse_document(PAGE);
    assert_eq!(texts_of(&select_list(&doc, "  .author.1  ")), vec!["Bob"]);
}

#[test]
fn chained_rule_reparses_each_text() {
    let doc = parse_document(PAGE);
    let firsts = select_text_list(&doc, ".item@html");
    let mut expected = Vec::new();
    for t in &firsts {
        expected.extend(select_text_list(&parse_document(t), "span@text"));
    }
    assert_eq!(select_text_list(&doc, ".item@html@@span@text"), expected);
    assert_eq!(expected, vec!["Ann", "Bob", "Cy"]);
}

#[test]
fn step_into_first_match_then_extract() {
    let doc = parse_document(PAGE);
    let ul = &select_list(&doc, "ul")[0];
    assert_eq!(select_text_from_element(ul, "li.0@class"), Some("item".to_string()));
    assert_eq!(select_text_from_element(ul, "p.0@class"), None);
}
