use reader_rust::parser::xpath::{select_xpath, xpath_texts, XPathOutcome};

const XML: &str = "<list><b>x</b><b>y</b><c>z</c></list>";

#[test]
fn xpath_node_texts() {
    let mut r = select_xpath(XML, "//b");
    r.sort();
    assert_eq!(r, vec!["x", "y"]);
    assert_eq!(select_xpath(XML, "/list/c"), vec!["z"]);
}

#[test]
fn xpath_scalar_results() {
    assert_eq!(select_xpath(XML, "count(//b)"), vec!["2"]);
    assert_eq!(select_xpath(XML, "string(/list/c)"), vec!["z"]);
    assert_eq!(select_xpath(XML, "count(//b) = 2"), vec!["true"]);
    assert_eq!(select_xpath(XML, "count(//b) = 3"), vec!["false"]);
}

#[test]
fn xpath_refuses_bad_input() {
    assert!(select_xpath("<list><b>", "//b").is_empty());
    assert!(select_xpath(XML, "//[").is_empty());
    assert!(select_xpath(XML, "").is_empty());
}

#[test]
fn xpath_outcome_texts() {
    assert!(xpath_texts(None).is_empty());
    assert_eq!(xpath_texts(Some(XPathOutcome::Nodes(vec!["a".to_string(), "b".to_string()]))), vec!["a", "b"]);
    assert_eq!(xpath_texts(Some(XPathOutcome::Text("t".to_string()))), vec!["t"]);
    assert_eq!(xpath_texts(Some(XPathOutcome::Number("1.5".to_string()))), vec!["1.5"]);
    assert_eq!(xpath_texts(Some(XPathOutcome::Boolean(true))), vec!["true"]);
    assert_eq!(xpath_texts(Some(XPathOutcome::Boolean(false))), vec!["false"]);
}

#[test]
fn xpath_single_node_and_errors() {
    assert_eq!(select_xpath("<a>x</a>", "/a"), vec!["x"]);
    assert!(select_xpath("<a>", "/a").is_empty());
    assert!(select_xpath("<a>x</a>", "/a[").is_empty());
}
