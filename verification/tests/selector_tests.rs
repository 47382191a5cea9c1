use reader_rust::parser::legado::tokenize_is_ok;
use reader_rust::parser::legado::{
    apply_index_selection, interleave_lists, legado_to_css, merge_lists, parse_i32,
    parse_selector_with_index, pick_one, tokenize_rule,
};

fn chars(s: &str) -> Vec<char> {
    s.chars().collect()
}

#[test]
fn test_legado_to_css() {
    assert_eq!(legado_to_css("class.mod block"), ".mod.block");
    assert_eq!(legado_to_css("class.test"), ".test");
    assert_eq!(legado_to_css("id.main"), "#main");
    assert_eq!(legado_to_css("tag.div"), "div");
}

#[test]
fn test_parse_selector_with_index() {
    // .test.0 -> index 0 (which means all)
    let (sel, idx, _) = parse_selector_with_index(".test.0");
    assert_eq!(sel, ".test");
    assert_eq!(idx, vec![0]);

    // .test.-1 -> last element
    let (sel, idx, _) = parse_selector_with_index(".test.-1");
    assert_eq!(sel, ".test");
    assert_eq!(idx, vec![-1]);

    // .test!0 -> exclude first element
    let (sel, _, exclude) = parse_selector_with_index(".test!0");
    assert_eq!(sel, ".test");
    assert_eq!(exclude, Some(vec![0]));
}

#[test]
fn legado_to_css_other_forms() {
    assert_eq!(legado_to_css("  .already.css  "), ".already.css");
    assert_eq!(legado_to_css("#main"), "#main");
    assert_eq!(legado_to_css("[data-x]"), "[data-x]");
    assert_eq!(legado_to_css("mod block"), ".mod.block");
    assert_eq!(legado_to_css("div"), "div");
    assert_eq!(legado_to_css("> p"), "> p");
    assert_eq!(legado_to_css("class.  spaced  "), ".spaced");
    assert_eq!(legado_to_css(""), "");
}

#[test]
fn parse_selector_ranges_and_plain() {
    let (sel, idx, ex) = parse_selector_with_index(".list li.1:3");
    assert_eq!(sel, ".list li");
    assert_eq!(idx, vec![1, 3]);
    assert_eq!(ex, None);

    let (sel, idx, _) = parse_selector_with_index(".a.x:y");
    assert_eq!(sel, ".a");
    assert_eq!(idx, vec![0, -1]);

    let (sel, idx, ex) = parse_selector_with_index(".plain");
    assert_eq!(sel, ".plain");
    assert_eq!(idx, vec![0]);
    assert_eq!(ex, None);

    let (sel, idx, ex) = parse_selector_with_index(".a!x");
    assert_eq!(sel, ".a!x");
    assert_eq!(idx, vec![0]);
    assert_eq!(ex, None);

    let (sel, idx, ex) = parse_selector_with_index("tag.li.2");
    assert_eq!(sel, "li");
    assert_eq!(idx, vec![2]);
    assert_eq!(ex, None);
}

#[test]
fn parse_i32_follows_str_parse() {
    assert_eq!(parse_i32(&chars("42")), Some(42));
    assert_eq!(parse_i32(&chars("-12")), Some(-12));
    assert_eq!(parse_i32(&chars("+5")), Some(5));
    assert_eq!(parse_i32(&chars("2147483647")), Some(i32::MAX));
    assert_eq!(parse_i32(&chars("-2147483648")), Some(i32::MIN));
    assert_eq!(parse_i32(&chars("2147483648")), None);
    assert_eq!(parse_i32(&chars("")), None);
    assert_eq!(parse_i32(&chars("-")), None);
    assert_eq!(parse_i32(&chars("1a")), None);
    assert_eq!(parse_i32(&chars(" 1")), None);
}

#[test]
fn index_selection_cases() {
    let m = vec![10, 20, 30, 40];
    assert_eq!(apply_index_selection(m.clone(), &vec![0], &None), vec![10, 20, 30, 40]);
    assert_eq!(apply_index_selection(m.clone(), &vec![-1], &None), vec![40]);
    assert_eq!(apply_index_selection(m.clone(), &vec![-4], &None), vec![10]);
    assert_eq!(apply_index_selection(m.clone(), &vec![-5], &None), Vec::<i32>::new());
    assert_eq!(apply_index_selection(m.clone(), &vec![2], &None), vec![30]);
    assert_eq!(apply_index_selection(m.clone(), &vec![4], &None), Vec::<i32>::new());
    assert_eq!(apply_index_selection(m.clone(), &vec![0], &Some(vec![0])), vec![20, 30, 40]);
    assert_eq!(apply_index_selection(m.clone(), &vec![0], &Some(vec![1, 3])), vec![10, 30]);
    assert_eq!(apply_index_selection(m.clone(), &vec![1, 2], &None), vec![20, 30]);
    assert_eq!(apply_index_selection(m.clone(), &vec![1, -1], &None), vec![20, 30, 40]);
    assert_eq!(apply_index_selection(m.clone(), &vec![3, 1], &None), Vec::<i32>::new());
    assert_eq!(apply_index_selection(Vec::<i32>::new(), &vec![1], &None), Vec::<i32>::new());
}

#[test]
fn pick_one_cases() {
    let m = vec![1, 2, 3];
    assert_eq!(pick_one(&m, &vec![0], &None), Some(1));
    assert_eq!(pick_one(&m, &vec![-1], &None), Some(3));
    assert_eq!(pick_one(&m, &vec![0], &Some(vec![0])), Some(2));
    assert_eq!(pick_one(&m, &vec![1, 2], &None), Some(2));
    assert_eq!(pick_one(&m, &vec![5], &None), None);
    assert_eq!(pick_one(&vec![7], &vec![0], &None), Some(7));
}

#[test]
fn list_combination() {
    assert_eq!(interleave_lists(&vec![1, 2, 3], &vec![10, 20]), vec![1, 10, 2, 20, 3]);
    assert_eq!(interleave_lists(&vec![1, 2], &Vec::new()), vec![1, 2]);
    assert_eq!(merge_lists(vec![1], vec![5], '&'), vec![1, 5]);
    assert_eq!(merge_lists(vec![1], vec![5], '|'), vec![1]);
    assert_eq!(merge_lists(Vec::new(), vec![5], '|'), vec![5]);
    assert_eq!(merge_lists(vec![1, 2], vec![5, 6], '%'), vec![1, 5, 2, 6]);
}

#[test]
fn tokenize_combined_rules() {
    let (rules, ops) = tokenize_rule(&chars(".a && .b ||.c%% .d"));
    let rules: Vec<String> = rules.iter().map(|r| r.iter().collect()).collect();
    assert_eq!(rules, vec![".a", ".b", ".c", ".d"]);
    assert_eq!(ops, vec!['&', '|', '%']);

    let (rules, ops) = tokenize_rule(&chars("  .only "));
    let rules: Vec<String> = rules.iter().map(|r| r.iter().collect()).collect();
    assert_eq!(rules, vec![".only"]);
    assert!(ops.is_empty());
}

#[test]
fn tokenize_acceptance() {
    assert!(tokenize_is_ok(&chars(".a && .b")));
    assert!(tokenize_is_ok(&chars(".only")));
    assert!(!tokenize_is_ok(&chars(".a &&")));
    assert!(!tokenize_is_ok(&chars(".a &&   ")));
    assert!(tokenize_is_ok(&chars("")));
}
