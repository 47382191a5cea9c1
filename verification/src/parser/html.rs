//! Selecting elements of an HTML document with Legado rules and
//! extracting their text, on top of `scraper`.

use vstd::prelude::*;
use scraper::{ElementRef, Html, Selector};
use crate::strings::{
    append_pieces, concat_all, chars_eq, chars_of, contains, contains_chars, extend_chars, has_prefix, join, join_chars,
    slice, split, split_chars, starts_with, string_of, trim, trim_chars, views,
};
use crate::parser::legado::{
    apply_index_selection, combine, designated, exclude_positions, first_index, opt_seq,
    range_slice, select_by_index, slice_range, spec_parse_selector_with_index,
    tokenize, tokenize_ok, tokenize_rule, merge_lists, without_positions, parse_selector_chars,
    pick_one, step_pick,
};

verus! {

#[verifier::external_type_specification]
#[verifier::external_body]
pub struct ExHtml(Html);

#[verifier::external_type_specification]
#[verifier::external_body]
pub struct ExElementRef<'a>(ElementRef<'a>);

#[verifier::external_type_specification]
#[verifier::external_body]
pub struct ExSelector(Selector);

/// The document `Html::parse_document` builds from a source text.
pub uninterp spec fn parsed_html(source: Seq<char>) -> Html;

/// Whether `Selector::parse` accepts a CSS selector.
pub uninterp spec fn selector_parses(css: Seq<char>) -> bool;

/// The elements `Html::select` yields for a CSS selector. The library only
/// reads the contents of these elements (their text, HTML, attributes and
/// descendants); it never compares them with Rust's `==`.
pub uninterp spec fn document_select(doc: &Html, css: Seq<char>) -> Seq<ElementRef<'_>>;

/// The descendant elements `ElementRef::select` yields for a CSS selector,
/// read for their contents only, as with `document_select`.
pub uninterp spec fn element_select(el: ElementRef<'_>, css: Seq<char>) -> Seq<ElementRef<'_>>;

/// The descendant text nodes `ElementRef::text` yields.
pub uninterp spec fn element_text(el: ElementRef<'_>) -> Seq<Seq<char>>;

/// The outer HTML `ElementRef::html` gives.
pub uninterp spec fn element_html(el: ElementRef<'_>) -> Seq<char>;

/// The attribute value `ElementRef::attr` gives.
pub uninterp spec fn element_attr(el: ElementRef<'_>, name: Seq<char>) -> Option<Seq<char>>;

/// The child nodes `children()` yields, each as its text where it is a
/// text node.
pub uninterp spec fn child_texts(el: ElementRef<'_>) -> Seq<Option<Seq<char>>>;

/// The nodes `descendants()` yields (the element itself first), each as its
/// text where it is a text node.
pub uninterp spec fn descendant_texts(el: ElementRef<'_>) -> Seq<Option<Seq<char>>>;

/// A parsed CSS selector together with its text.
pub struct Css {
    source: String,
    sel: Selector,
}

impl View for Css {
    type V = Seq<char>;

    closed spec fn view(&self) -> Seq<char> {
        self.source@
    }
}

/// Calls `Html::parse_document`.
#[verifier::external_body]
pub fn parse_document(html: &str) -> (r: Html)
    ensures
        r == parsed_html(html@),
{
    Html::parse_document(html)
}

/// Calls `Selector::parse`; the claim is that it succeeds exactly when
/// `selector_parses` holds of the text, and keeps the text.
#[verifier::external_body]
fn compile_css(css: &str) -> (r: Option<Css>)
    ensures
        r is Some <==> selector_parses(css@),
        r matches Some(c) ==> c@ == css@,
{
    Selector::parse(css).ok().map(|sel| Css { source: css.to_string(), sel })
}

/// Calls `Html::select` and collects the matches.
#[verifier::external_body]
fn doc_select<'a>(doc: &'a Html, css: &Css) -> (r: Vec<ElementRef<'a>>)
    ensures
        r@ == document_select(doc, css@),
{
    doc.select(&css.sel).collect()
}

/// Calls `ElementRef::select` and collects the matches.
#[verifier::external_body]
fn el_select<'a>(el: &ElementRef<'a>, css: &Css) -> (r: Vec<ElementRef<'a>>)
    ensures
        r@ == element_select(*el, css@),
{
    el.select(&css.sel).collect()
}

/// Calls `ElementRef::text` and collects the text nodes.
#[verifier::external_body]
fn el_text(el: &ElementRef) -> (r: Vec<String>)
    ensures
        r@.map_values(|s: String| s@) == element_text(*el),
{
    el.text().map(|t| t.to_string()).collect()
}

/// Calls `ElementRef::html`.
#[verifier::external_body]
fn el_html(el: &ElementRef) -> (r: String)
    ensures
        r@ == element_html(*el),
{
    el.html()
}

/// Calls `ElementRef::attr`.
#[verifier::external_body]
fn el_attr(el: &ElementRef, name: &str) -> (r: Option<String>)
    ensures
        r matches Some(v) ==> element_attr(*el, name@) == Some(v@),
        r is None ==> element_attr(*el, name@) is None,
{
    el.attr(name).map(|v| v.to_string())
}

/// Calls `children()` and gives each child node as its text where it is a
/// text node.
#[verifier::external_body]
fn el_child_texts(el: &ElementRef) -> (r: Vec<Option<String>>)
    ensures
        opt_views(r@) == child_texts(*el),
{
    el.children().map(|n| n.value().as_text().map(|t| t.text.to_string())).collect()
}

/// Calls `descendants()` and gives each node as its text where it is a
/// text node.
#[verifier::external_body]
fn el_descendant_texts(el: &ElementRef) -> (r: Vec<Option<String>>)
    ensures
        opt_views(r@) == descendant_texts(*el),
{
    el.descendants().map(|n| n.value().as_text().map(|t| t.text.to_string())).collect()
}

/// The views of optional strings.
pub open spec fn opt_views(v: Seq<Option<String>>) -> Seq<Option<Seq<char>>> {
    v.map_values(|o: Option<String>| opt_view(o))
}

pub open spec fn opt_view(o: Option<String>) -> Option<Seq<char>> {
    match o {
        Some(s) => Some(s@),
        None => None,
    }
}

pub open spec fn opt_chars(o: Option<Vec<char>>) -> Option<Seq<char>> {
    match o {
        Some(s) => Some(s@),
        None => None,
    }
}

/// `Some(t)` unless `t` is empty.
pub open spec fn non_empty(t: Seq<char>) -> Option<Seq<char>> {
    if t.len() == 0 {
        None
    } else {
        Some(t)
    }
}

pub open spec fn lit_text() -> Seq<char> {
    seq!['t', 'e', 'x', 't']
}

pub open spec fn lit_text_nodes() -> Seq<char> {
    seq!['t', 'e', 'x', 't', 'N', 'o', 'd', 'e', 's']
}

pub open spec fn lit_own_text() -> Seq<char> {
    seq!['o', 'w', 'n', 'T', 'e', 'x', 't']
}

pub open spec fn lit_html() -> Seq<char> {
    seq!['h', 't', 'm', 'l']
}

pub open spec fn lit_all() -> Seq<char> {
    seq!['a', 'l', 'l']
}

/// `e` or `@e`.
pub open spec fn is_extractor(x: Seq<char>, e: Seq<char>) -> bool {
    x == e || x == seq!['@'] + e
}

/// The trimmed, non-empty text nodes among the given nodes.
pub open spec fn kept_texts(ns: Seq<Option<Seq<char>>>) -> Seq<Seq<char>>
    decreases ns.len(),
{
    if ns.len() == 0 {
        seq![]
    } else {
        let r = kept_texts(ns.drop_last());
        match ns.last() {
            Some(t) => if trim(t).len() > 0 {
                r.push(trim(t))
            } else {
                r
            },
            None => r,
        }
    }
}

/// Each text node among the given nodes, trimmed and followed by a space.
pub open spec fn own_text_raw(ns: Seq<Option<Seq<char>>>) -> Seq<char>
    decreases ns.len(),
{
    if ns.len() == 0 {
        seq![]
    } else {
        match ns.last() {
            Some(t) => own_text_raw(ns.drop_last()) + trim(t) + seq![' '],
            None => own_text_raw(ns.drop_last()),
        }
    }
}

/// What `extract_text` gives for an element and an extractor:
/// `text` the element's text nodes joined by spaces and trimmed,
/// `textNodes` its non-blank text nodes trimmed and joined by newlines,
/// `ownText` its own text children trimmed and joined by spaces,
/// `html`/`all` its outer HTML, anything else the attribute of that name
/// (each with or without a leading `@`); empty texts give nothing.
pub open spec fn spec_extract_text(el: ElementRef<'_>, extractor: Seq<char>) -> Option<Seq<char>> {
    let x = trim(extractor);
    if is_extractor(x, lit_text()) {
        non_empty(trim(join(element_text(el), seq![' '])))
    } else if is_extractor(x, lit_text_nodes()) {
        non_empty(join(kept_texts(descendant_texts(el)), seq!['\n']))
    } else if is_extractor(x, lit_own_text()) {
        non_empty(trim(own_text_raw(child_texts(el))))
    } else if is_extractor(x, lit_html()) || is_extractor(x, lit_all()) {
        Some(element_html(el))
    } else if x.len() > 0 && x[0] == '@' {
        element_attr(el, x.drop_first())
    } else {
        element_attr(el, x)
    }
}

fn matches_extractor(x: &[char], e: &Vec<char>) -> (b: bool)
    ensures
        b == is_extractor(x@, e@),
{
    if chars_eq(x, e.as_slice()) {
        return true;
    }
    let mut at = vec!['@'];
    assert(at@ =~= seq!['@']);
    extend_chars(&mut at, e.as_slice());
    chars_eq(x, at.as_slice())
}

fn strings_to_chars(v: &Vec<String>) -> (r: Vec<Vec<char>>)
    ensures
        views(r@) == v@.map_values(|s: String| s@),
{
    let mut r: Vec<Vec<char>> = Vec::new();
    let mut i: usize = 0;
    while i < v.len()
        invariant
            i <= v@.len(),
            views(r@) == v@.take(i as int).map_values(|s: String| s@),
        decreases v@.len() - i,
    {
        let c = chars_of(v[i].as_str());
        let ghost old_r = views(r@);
        r.push(c);
        assert(views(r@) =~= old_r.push(c@));
        assert(v@.take(i + 1).map_values(|s: String| s@) =~= v@.take(i as int).map_values(
            |s: String| s@,
        ).push(v@[i as int]@));
        i = i + 1;
    }
    assert(v@.take(v@.len() as int) =~= v@);
    r
}

/// Keeps the trimmed, non-blank text nodes.
fn kept_text_nodes(ns: &Vec<Option<String>>) -> (r: Vec<Vec<char>>)
    ensures
        views(r@) == kept_texts(opt_views(ns@)),
{
    let mut r: Vec<Vec<char>> = Vec::new();
    let mut i: usize = 0;
    while i < ns.len()
        invariant
            i <= ns@.len(),
            views(r@) == kept_texts(opt_views(ns@).take(i as int)),
        decreases ns@.len() - i,
    {
        let ghost pre = opt_views(ns@).take(i as int);
        assert(opt_views(ns@).take(i + 1).drop_last() =~= pre);
        assert(opt_views(ns@).take(i + 1).last() == opt_view(ns@[i as int]));
        match &ns[i] {
            Some(t) => {
                let cs = chars_of(t.as_str());
                let tt = trim_chars(cs.as_slice());
                if tt.len() > 0 {
                    let ghost old_r = views(r@);
                    r.push(tt);
                    assert(views(r@) =~= old_r.push(tt@));
                }
            },
            None => {},
        }
        i = i + 1;
    }
    assert(opt_views(ns@).take(ns@.len() as int) =~= opt_views(ns@));
    r
}

/// The own text of an element before its final trim.
fn own_text_chars(ns: &Vec<Option<String>>) -> (r: Vec<char>)
    ensures
        r@ == own_text_raw(opt_views(ns@)),
{
    let mut r: Vec<char> = Vec::new();
    let mut i: usize = 0;
    while i < ns.len()
        invariant
            i <= ns@.len(),
            r@ == own_text_raw(opt_views(ns@).take(i as int)),
        decreases ns@.len() - i,
    {
        let ghost pre = opt_views(ns@).take(i as int);
        assert(opt_views(ns@).take(i + 1).drop_last() =~= pre);
        assert(opt_views(ns@).take(i + 1).last() == opt_view(ns@[i as int]));
        match &ns[i] {
            Some(t) => {
                let cs = chars_of(t.as_str());
                let tt = trim_chars(cs.as_slice());
                extend_chars(&mut r, tt.as_slice());
                r.push(' ');
            },
            None => {},
        }
        i = i + 1;
    }
    assert(opt_views(ns@).take(ns@.len() as int) =~= opt_views(ns@));
    r
}

fn non_empty_chars(t: Vec<char>) -> (r: Option<Vec<char>>)
    ensures
        opt_chars(r) == non_empty(t@),
{
    if t.len() == 0 {
        None
    } else {
        Some(t)
    }
}

fn opt_string_to_chars(o: Option<String>) -> (r: Option<Vec<char>>)
    ensures
        opt_chars(r) == opt_view(o),
{
    match o {
        Some(s) => Some(chars_of(s.as_str())),
        None => None,
    }
}

pub(crate) fn opt_chars_to_string(o: Option<Vec<char>>) -> (r: Option<String>)
    ensures
        opt_view(r) == opt_chars(o),
{
    match o {
        Some(c) => Some(string_of(c.as_slice())),
        None => None,
    }
}

fn extract_chars(el: &ElementRef, extractor: &[char]) -> (r: Option<Vec<char>>)
    ensures
        opt_chars(r) == spec_extract_text(*el, extractor@),
{
    let x = trim_chars(extractor);
    let text_l = vec!['t', 'e', 'x', 't'];
    let nodes_l = vec!['t', 'e', 'x', 't', 'N', 'o', 'd', 'e', 's'];
    let own_l = vec!['o', 'w', 'n', 'T', 'e', 'x', 't'];
    let html_l = vec!['h', 't', 'm', 'l'];
    let all_l = vec!['a', 'l', 'l'];
    assert(text_l@ =~= lit_text());
    assert(nodes_l@ =~= lit_text_nodes());
    assert(own_l@ =~= lit_own_text());
    assert(html_l@ =~= lit_html());
    assert(all_l@ =~= lit_all());
    if matches_extractor(x.as_slice(), &text_l) {
        let texts = strings_to_chars(&el_text(el));
        let sp = vec![' '];
        assert(sp@ =~= seq![' ']);
        let joined = join_chars(&texts, sp.as_slice());
        non_empty_chars(trim_chars(joined.as_slice()))
    } else if matches_extractor(x.as_slice(), &nodes_l) {
        let kept = kept_text_nodes(&el_descendant_texts(el));
        let nl = vec!['\n'];
        assert(nl@ =~= seq!['\n']);
        non_empty_chars(join_chars(&kept, nl.as_slice()))
    } else if matches_extractor(x.as_slice(), &own_l) {
        let raw = own_text_chars(&el_child_texts(el));
        non_empty_chars(trim_chars(raw.as_slice()))
    } else if matches_extractor(x.as_slice(), &html_l) || matches_extractor(x.as_slice(), &all_l) {
        Some(chars_of(el_html(el).as_str()))
    } else if x.len() > 0 && x[0] == '@' {
        let name = slice(x.as_slice(), 1, x.len());
        assert(name@ =~= x@.drop_first());
        opt_string_to_chars(el_attr(el, string_of(name.as_slice()).as_str()))
    } else {
        opt_string_to_chars(el_attr(el, string_of(x.as_slice()).as_str()))
    }
}

/// Extracts text from an element with a Legado extractor.
pub fn extract_text(el: &ElementRef, extractor: &str) -> (r: Option<String>)
    ensures
        opt_view(r) == spec_extract_text(*el, extractor@),
{
    let x = chars_of(extractor);
    opt_chars_to_string(extract_chars(el, x.as_slice()))
}


/// The element one non-final step of an element rule moves to.
pub open spec fn step_select(el: ElementRef<'_>, part: Seq<char>) -> Option<ElementRef<'_>> {
    let p = spec_parse_selector_with_index(part);
    if !selector_parses(p.0) {
        None
    } else {
        step_pick(element_select(el, p.0), p.1, p.2)
    }
}

/// Follows the `@`-separated parts of an element rule from part `i` on:
/// blank parts are skipped, the last part is an extractor, the others
/// move to one descendant element; with no extractor the text is taken.
pub open spec fn text_from_parts(el: ElementRef<'_>, parts: Seq<Seq<char>>, i: int) -> Option<Seq<char>>
    decreases parts.len() - i,
{
    if i < 0 || i >= parts.len() {
        spec_extract_text(el, lit_text())
    } else if trim(parts[i]).len() == 0 {
        text_from_parts(el, parts, i + 1)
    } else if i == parts.len() - 1 {
        spec_extract_text(el, trim(parts[i]))
    } else {
        match step_select(el, trim(parts[i])) {
            Some(e) => text_from_parts(e, parts, i + 1),
            None => None,
        }
    }
}

/// What `select_text_from_element` gives for an element and a rule.
pub open spec fn spec_select_text_from_element(el: ElementRef<'_>, rule: Seq<char>) -> Option<Seq<char>> {
    text_from_parts(el, split(rule, seq!['@']), 0)
}

fn css_of(css: &Vec<char>) -> (r: Option<Css>)
    ensures
        r is Some <==> selector_parses(css@),
        r matches Some(c) ==> c@ == css@,
{
    compile_css(string_of(css.as_slice()).as_str())
}

fn step_select_exec<'a>(el: &ElementRef<'a>, part: &[char]) -> (r: Option<ElementRef<'a>>)
    ensures
        r == step_select(*el, part@),
{
    let (css, indices, exclude) = parse_selector_chars(part);
    match css_of(&css) {
        None => None,
        Some(c) => {
            let m = el_select(el, &c);
            pick_one(&m, &indices, &exclude)
        },
    }
}

pub(crate) fn text_from_element_chars(el: &ElementRef, rule: &[char]) -> (r: Option<Vec<char>>)
    ensures
        opt_chars(r) == spec_select_text_from_element(*el, rule@),
{
    let at = vec!['@'];
    assert(at@ =~= seq!['@']);
    let parts = split_chars(rule, at.as_slice());
    let ghost ps = views(parts@);
    let mut current = *el;
    let mut i: usize = 0;
    while i < parts.len()
        invariant
            i <= parts@.len(),
            ps == views(parts@),
            ps == split(rule@, seq!['@']),
            text_from_parts(*el, ps, 0) == text_from_parts(current, ps, i as int),
        decreases parts@.len() - i,
    {
        assert(parts@[i as int]@ == ps[i as int]);
        let part = trim_chars(parts[i].as_slice());
        if part.len() == 0 {
            i = i + 1;
            continue;
        }
        if i == parts.len() - 1 {
            return extract_chars(&current, part.as_slice());
        }
        match step_select_exec(&current, part.as_slice()) {
            Some(e) => {
                current = e;
            },
            None => {
                return None;
            },
        }
        i = i + 1;
    }
    let t = vec!['t', 'e', 'x', 't'];
    assert(t@ =~= lit_text());
    extract_chars(&current, t.as_slice())
}

/// Follows an `@`-separated element rule from an element and extracts text.
pub fn select_text_from_element(el: &ElementRef, rule: &str) -> (r: Option<String>)
    ensures
        opt_view(r) == spec_select_text_from_element(*el, rule@),
{
    let cs = chars_of(rule);
    opt_chars_to_string(text_from_element_chars(el, cs.as_slice()))
}


/// What selecting with a rule that has no combination operator gives.
pub open spec fn spec_select_list_simple(doc: &Html, selector: Seq<char>) -> Seq<ElementRef<'_>> {
    let p = spec_parse_selector_with_index(selector);
    if !selector_parses(p.0) {
        Seq::empty()
    } else {
        select_by_index(document_select(doc, p.0), p.1, p.2)
    }
}

/// The lists selected by the rules after the first one of a combined rule.
pub open spec fn rest_lists<'a>(doc: &'a Html, rules: Seq<Seq<char>>, n: int) -> Seq<Seq<ElementRef<'a>>> {
    Seq::new(n as nat, |i: int| spec_select_list_simple(doc, rules[i + 1]))
}

/// What a combined rule `r1 && r2 || r3 %% r4` selects.
pub open spec fn spec_select_with_combination(doc: &Html, rule: Seq<char>) -> Seq<ElementRef<'_>> {
    let t = tokenize(rule);
    if t.0.len() == 0 {
        Seq::empty()
    } else {
        combine(spec_select_list_simple(doc, t.0[0]), rest_lists(doc, t.0, t.1.len() as int), t.1)
    }
}

pub open spec fn lit_and() -> Seq<char> {
    seq!['&', '&']
}

pub open spec fn lit_or() -> Seq<char> {
    seq!['|', '|']
}

pub open spec fn lit_zip() -> Seq<char> {
    seq!['%', '%']
}

pub open spec fn lit_chain() -> Seq<char> {
    seq!['@', '@']
}

/// The part of a list rule that selects: before any `@@` and any `@`.
pub open spec fn list_rule_base(selector: Seq<char>) -> Seq<char> {
    let a = trim(split(trim(selector), lit_chain())[0]);
    trim(split(a, seq!['@'])[0])
}

/// Whether a rule holds a list-combination operator.
pub open spec fn is_combined(s: Seq<char>) -> bool {
    contains(s, lit_and()) || contains(s, lit_or()) || contains(s, lit_zip())
}

/// The list rules on which `select_list` does not panic.
pub open spec fn list_rule_ok(selector: Seq<char>) -> bool {
    is_combined(list_rule_base(selector)) ==> tokenize_ok(list_rule_base(selector))
}

/// What `select_list` gives for a document and a list rule.
pub open spec fn spec_select_list(doc: &Html, selector: Seq<char>) -> Seq<ElementRef<'_>> {
    let s = list_rule_base(selector);
    if is_combined(s) {
        spec_select_with_combination(doc, s)
    } else {
        spec_select_list_simple(doc, s)
    }
}

fn select_list_simple_chars<'a>(doc: &'a Html, selector: &[char]) -> (r: Vec<ElementRef<'a>>)
    ensures
        r@ == spec_select_list_simple(doc, selector@),
{
    let (css, indices, exclude) = parse_selector_chars(selector);
    match css_of(&css) {
        None => Vec::new(),
        Some(c) => {
            let m = doc_select(doc, &c);
            apply_index_selection(m, &indices, &exclude)
        },
    }
}

fn select_with_combination_chars<'a>(doc: &'a Html, rule: &[char]) -> (r: Vec<ElementRef<'a>>)
    requires
        rule@.len() > 0,
        tokenize_ok(rule@),
    ensures
        r@ == spec_select_with_combination(doc, rule@),
{
    let (rules, operators) = tokenize_rule(rule);
    proof {
        crate::parser::legado::lemma_tokenize_counts(rule@);
    }
    let ghost rs = views(rules@);
    if rules.len() == 0 {
        return Vec::new();
    }
    assert(rules@[0]@ == rs[0]);
    let mut result = select_list_simple_chars(doc, rules[0].as_slice());
    let mut i: usize = 0;
    while i < operators.len()
        invariant
            i <= operators@.len(),
            rules@.len() == operators@.len() + 1,
            rs == views(rules@),
            rs == tokenize(rule@).0,
            operators@ == tokenize(rule@).1,
            result@ == combine(
                spec_select_list_simple(doc, rs[0]),
                rest_lists(doc, rs, operators@.len() as int),
                operators@.take(i as int),
            ),
        decreases operators@.len() - i,
    {
        assert(rules@[i + 1]@ == rs[i + 1]);
        let next_results = select_list_simple_chars(doc, rules[i + 1].as_slice());
        let ghost prev = result@;
        result = merge_lists(result, next_results, operators[i]);
        proof {
            let ops = operators@.take(i + 1);
            assert(ops.drop_last() =~= operators@.take(i as int));
            assert(rest_lists(doc, rs, operators@.len() as int)[i as int] == next_results@);
        }
        i = i + 1;
    }
    assert(operators@.take(operators@.len() as int) =~= operators@);
    result
}

fn list_rule_base_chars(selector: &[char]) -> (r: Vec<char>)
    ensures
        r@ == list_rule_base(selector@),
{
    let t = trim_chars(selector);
    let chain = vec!['@', '@'];
    assert(chain@ =~= lit_chain());
    let pieces = split_chars(t.as_slice(), chain.as_slice());
    proof {
        crate::strings::lemma_split_len(t@, lit_chain());
    }
    assert(pieces@[0]@ == views(pieces@)[0]);
    let a = trim_chars(pieces[0].as_slice());
    let at = vec!['@'];
    assert(at@ =~= seq!['@']);
    let pieces2 = split_chars(a.as_slice(), at.as_slice());
    proof {
        crate::strings::lemma_split_len(a@, seq!['@']);
    }
    assert(pieces2@[0]@ == views(pieces2@)[0]);
    trim_chars(pieces2[0].as_slice())
}

fn is_combined_chars(s: &[char]) -> (b: bool)
    ensures
        b == is_combined(s@),
{
    let and_l = vec!['&', '&'];
    let or_l = vec!['|', '|'];
    let zip_l = vec!['%', '%'];
    assert(and_l@ =~= lit_and());
    assert(or_l@ =~= lit_or());
    assert(zip_l@ =~= lit_zip());
    contains_chars(s, and_l.as_slice()) || contains_chars(s, or_l.as_slice()) || contains_chars(
        s,
        zip_l.as_slice(),
    )
}

/// Whether `select_list` accepts a list rule (`list_rule_ok`): a combined
/// rule must split within character boundaries, with a rule after each
/// operator.
pub fn list_rule_is_ok(selector: &str) -> (b: bool)
    ensures
        b == list_rule_ok(selector@),
{
    let cs = chars_of(selector);
    let base = list_rule_base_chars(cs.as_slice());
    if is_combined_chars(base.as_slice()) {
        crate::parser::legado::tokenize_is_ok(base.as_slice())
    } else {
        true
    }
}

/// Selects elements with a Legado list rule.
pub fn select_list<'a>(doc: &'a Html, selector: &str) -> (r: Vec<ElementRef<'a>>)
    requires
        list_rule_ok(selector@),
    ensures
        r@ == spec_select_list(doc, selector@),
{
    let cs = chars_of(selector);
    let s = list_rule_base_chars(cs.as_slice());
    if is_combined_chars(s.as_slice()) {
        proof {
            assert(s@.len() > 0) by {
                if s@.len() == 0 {
                    crate::strings::lemma_find(s@, lit_and());
                    crate::strings::lemma_find(s@, lit_or());
                    crate::strings::lemma_find(s@, lit_zip());
                }
            }
        }
        select_with_combination_chars(doc, s.as_slice())
    } else {
        select_list_simple_chars(doc, s.as_slice())
    }
}


/// A text as a list of at most one non-empty text.
pub open spec fn opt_non_empty_seq(o: Option<Seq<char>>) -> Seq<Seq<char>> {
    match o {
        Some(t) => if t.len() > 0 {
            seq![t]
        } else {
            seq![]
        },
        None => seq![],
    }
}

/// The roots `select_all_text` starts from: the matches of the first part,
/// narrowed by its exclusion list and range (a single index is ignored).
pub open spec fn all_text_roots(doc: &Html, first: Seq<char>) -> Option<Seq<ElementRef<'_>>> {
    let p = spec_parse_selector_with_index(first);
    if !selector_parses(p.0) {
        None
    } else {
        let r0 = document_select(doc, p.0);
        if r0.len() == 0 {
            None
        } else {
            let r1 = match p.2 {
                Some(ex) => without_positions(r0, ex),
                None => r0,
            };
            Some(
                if p.1.len() == 2 {
                    range_slice(r1, p.1[0], p.1[1])
                } else {
                    r1
                },
            )
        }
    }
}

/// The texts of the elements a sub-rule selects below a root.
pub open spec fn sub_select_texts(els: Seq<ElementRef<'_>>) -> Seq<Seq<char>> {
    concat_all(els.map_values(|e: ElementRef<'_>| opt_non_empty_seq(spec_extract_text(e, lit_text()))))
}

/// The texts one root contributes for a sub-rule: the sub-rule as an
/// extractor when it yields something, else the texts of the elements the
/// sub-rule selects below the root.
pub open spec fn root_texts(root: ElementRef<'_>, sub: Seq<char>) -> Seq<Seq<char>> {
    match spec_extract_text(root, sub) {
        Some(t) => if t.len() > 0 {
            seq![t]
        } else {
            seq![]
        },
        None => {
            let sc = spec_parse_selector_with_index(sub).0;
            if selector_parses(sc) {
                sub_select_texts(element_select(root, sc))
            } else {
                seq![]
            }
        },
    }
}

/// The newline-joined texts, or nothing when there are none.
pub open spec fn joined_lines(texts: Seq<Seq<char>>) -> Option<Seq<char>> {
    if texts.len() == 0 {
        None
    } else {
        Some(join(texts, seq!['\n']))
    }
}

/// What `select_all_text` gives for a document and a rule.
pub open spec fn spec_select_all_text(doc: &Html, rule: Seq<char>) -> Option<Seq<char>> {
    let parts = split(rule, seq!['@']);
    match all_text_roots(doc, trim(parts[0])) {
        None => None,
        Some(roots) => if parts.len() > 1 {
            let sub = trim(join(parts.skip(1), seq!['@']));
            joined_lines(concat_all(roots.map_values(|r: ElementRef<'_>| root_texts(r, sub))))
        } else {
            joined_lines(
                concat_all(
                    roots.map_values(
                        |r: ElementRef<'_>| opt_non_empty_seq(spec_extract_text(r, lit_text_nodes())),
                    ),
                ),
            )
        },
    }
}

fn opt_non_empty_vec(o: Option<Vec<char>>) -> (r: Vec<Vec<char>>)
    ensures
        views(r@) == opt_non_empty_seq(opt_chars(o)),
{
    match o {
        Some(t) => if t.len() > 0 {
            let r = vec![t];
            assert(views(r@) =~= seq![r@[0]@]);
            r
        } else {
            Vec::new()
        },
        None => Vec::new(),
    }
}

fn sub_select_texts_exec(els: &Vec<ElementRef>) -> (r: Vec<Vec<char>>)
    ensures
        views(r@) == sub_select_texts(els@),
{
    let t = vec!['t', 'e', 'x', 't'];
    assert(t@ =~= lit_text());
    let mut r: Vec<Vec<char>> = Vec::new();
    let mut i: usize = 0;
    while i < els.len()
        invariant
            i <= els@.len(),
            t@ == lit_text(),
            views(r@) == sub_select_texts(els@.take(i as int)),
        decreases els@.len() - i,
    {
        let more = opt_non_empty_vec(extract_chars(&els[i], t.as_slice()));
        append_pieces(&mut r, more);
        proof {
            let f = |e: ElementRef<'_>| opt_non_empty_seq(spec_extract_text(e, lit_text()));
            assert(els@.take(i + 1).map_values(f).drop_last() =~= els@.take(i as int).map_values(f));
        }
        i = i + 1;
    }
    assert(els@.take(els@.len() as int) =~= els@);
    r
}

fn root_texts_exec(root: &ElementRef, sub: &[char]) -> (r: Vec<Vec<char>>)
    ensures
        views(r@) == root_texts(*root, sub@),
{
    match extract_chars(root, sub) {
        Some(t) => {
            if t.len() > 0 {
                let r = vec![t];
                assert(views(r@) =~= seq![r@[0]@]);
                r
            } else {
                Vec::new()
            }
        },
        None => {
            let (sc, _, _) = parse_selector_chars(sub);
            match css_of(&sc) {
                Some(c) => sub_select_texts_exec(&el_select(root, &c)),
                None => Vec::new(),
            }
        },
    }
}

fn all_text_roots_exec<'a>(doc: &'a Html, first: &[char]) -> (r: Option<Vec<ElementRef<'a>>>)
    ensures
        match r {
            Some(v) => all_text_roots(doc, first@) == Some(v@),
            None => all_text_roots(doc, first@) is None,
        },
{
    let (css, indices, exclude) = parse_selector_chars(first);
    let c = match css_of(&css) {
        Some(c) => c,
        None => return None,
    };
    let roots = doc_select(doc, &c);
    if roots.len() == 0 {
        return None;
    }
    let roots = match &exclude {
        Some(ex) => exclude_positions(&roots, ex),
        None => roots,
    };
    if indices.len() == 2 {
        Some(slice_range(&roots, indices[0], indices[1]))
    } else {
        Some(roots)
    }
}

fn joined_lines_exec(texts: &Vec<Vec<char>>) -> (r: Option<Vec<char>>)
    ensures
        opt_chars(r) == joined_lines(views(texts@)),
{
    if texts.len() == 0 {
        return None;
    }
    let nl = vec!['\n'];
    assert(nl@ =~= seq!['\n']);
    Some(join_chars(texts, nl.as_slice()))
}

fn tail_pieces(parts: &Vec<Vec<char>>) -> (r: Vec<Vec<char>>)
    requires
        parts@.len() >= 1,
    ensures
        views(r@) == views(parts@).skip(1),
{
    let mut r: Vec<Vec<char>> = Vec::new();
    let mut i: usize = 1;
    while i < parts.len()
        invariant
            1 <= i <= parts@.len(),
            views(r@) == views(parts@).subrange(1, i as int),
        decreases parts@.len() - i,
    {
        let piece = slice(parts[i].as_slice(), 0, parts[i].len());
        assert(piece@ =~= parts@[i as int]@);
        let ghost old_r = views(r@);
        r.push(piece);
        assert(views(r@) =~= old_r.push(piece@));
        assert(views(parts@).subrange(1, i + 1) =~= views(parts@).subrange(1, i as int).push(
            parts@[i as int]@,
        ));
        i = i + 1;
    }
    r
}

fn all_text_chars(doc: &Html, rule: &[char]) -> (r: Option<Vec<char>>)
    ensures
        opt_chars(r) == spec_select_all_text(doc, rule@),
{
    let at = vec!['@'];
    assert(at@ =~= seq!['@']);
    let parts = split_chars(rule, at.as_slice());
    proof {
        crate::strings::lemma_split_len(rule@, seq!['@']);
    }
    assert(parts@[0]@ == views(parts@)[0]);
    let first = trim_chars(parts[0].as_slice());
    let roots = match all_text_roots_exec(doc, first.as_slice()) {
        Some(r) => r,
        None => return None,
    };
    let mut texts: Vec<Vec<char>> = Vec::new();
    if parts.len() > 1 {
        let tail = tail_pieces(&parts);
        let joined = join_chars(&tail, at.as_slice());
        let sub = trim_chars(joined.as_slice());
        let mut i: usize = 0;
        while i < roots.len()
            invariant
                i <= roots@.len(),
                views(texts@) == concat_all(
                    roots@.take(i as int).map_values(|r: ElementRef<'_>| root_texts(r, sub@)),
                ),
            decreases roots@.len() - i,
        {
            let more = root_texts_exec(&roots[i], sub.as_slice());
            append_pieces(&mut texts, more);
            proof {
                let f = |r: ElementRef<'_>| root_texts(r, sub@);
                assert(roots@.take(i + 1).map_values(f).drop_last() =~= roots@.take(i as int).map_values(f));
            }
            i = i + 1;
        }
        assert(roots@.take(roots@.len() as int) =~= roots@);
        joined_lines_exec(&texts)
    } else {
        let tn = vec!['t', 'e', 'x', 't', 'N', 'o', 'd', 'e', 's'];
        assert(tn@ =~= lit_text_nodes());
        let mut i: usize = 0;
        while i < roots.len()
            invariant
                i <= roots@.len(),
                tn@ == lit_text_nodes(),
                views(texts@) == concat_all(
                    roots@.take(i as int).map_values(
                        |r: ElementRef<'_>| opt_non_empty_seq(spec_extract_text(r, lit_text_nodes())),
                    ),
                ),
            decreases roots@.len() - i,
        {
            let more = opt_non_empty_vec(extract_chars(&roots[i], tn.as_slice()));
            append_pieces(&mut texts, more);
            proof {
                let f = |r: ElementRef<'_>| opt_non_empty_seq(spec_extract_text(r, lit_text_nodes()));
                assert(roots@.take(i + 1).map_values(f).drop_last() =~= roots@.take(i as int).map_values(f));
            }
            i = i + 1;
        }
        assert(roots@.take(roots@.len() as int) =~= roots@);
        joined_lines_exec(&texts)
    }
}

/// Selects every matching element and collects their texts, joined by
/// newlines.
pub fn select_all_text(doc: &Html, rule: &str) -> (r: Option<String>)
    ensures
        opt_view(r) == spec_select_all_text(doc, rule@),
{
    let cs = chars_of(rule);
    opt_chars_to_string(all_text_chars(doc, cs.as_slice()))
}


pub open spec fn lit_text_dot() -> Seq<char> {
    seq!['t', 'e', 'x', 't', '.']
}

pub open spec fn lit_a() -> Seq<char> {
    seq!['a']
}

/// A text as a list of at most one text.
pub open spec fn opt_seq1(o: Option<Seq<char>>) -> Seq<Seq<char>> {
    match o {
        Some(v) => seq![v],
        None => seq![],
    }
}

/// The text, or the empty text.
pub open spec fn text_or_empty(o: Option<Seq<char>>) -> Seq<char> {
    match o {
        Some(v) => v,
        None => seq![],
    }
}

/// The text of an element: its text nodes joined without separator and
/// trimmed.
pub open spec fn anchor_text(el: ElementRef<'_>) -> Seq<char> {
    trim(join(element_text(el), seq![]))
}

/// What the `text.<words>` form collects from one anchor: anchors whose text
/// contains the words give their text, or what the extractor after the `@`
/// gives.
pub open spec fn anchor_texts(el: ElementRef<'_>, content: Seq<char>, parts: Seq<Seq<char>>) -> Seq<Seq<char>> {
    if contains(anchor_text(el), content) {
        if parts.len() > 1 {
            opt_seq1(spec_extract_text(el, trim(parts[1])))
        } else {
            seq![anchor_text(el)]
        }
    } else {
        seq![]
    }
}

/// What one selected element contributes: the element rule after the first
/// `@` when there is one, else its text.
pub open spec fn element_rule_texts(el: ElementRef<'_>, parts: Seq<Seq<char>>) -> Seq<Seq<char>> {
    if parts.len() > 1 {
        opt_seq1(spec_select_text_from_element(el, join(parts.skip(1), seq!['@'])))
    } else {
        seq![text_or_empty(spec_extract_text(el, lit_text()))]
    }
}

/// The matches a text-list rule keeps before the index is applied.
pub open spec fn text_list_matches(doc: &Html, first: Seq<char>) -> Seq<ElementRef<'_>> {
    let p = spec_parse_selector_with_index(first);
    let m0 = document_select(doc, p.0);
    let m1 = match p.2 {
        Some(ex) => without_positions(m0, ex),
        None => m0,
    };
    if p.1.len() == 2 {
        range_slice(m1, p.1[0], p.1[1])
    } else {
        m1
    }
}

/// What `select_text_list` gives for a rule without `@@`.
pub open spec fn spec_single_text_list(doc: &Html, rule: Seq<char>) -> Seq<Seq<char>> {
    let parts = split(rule, seq!['@']);
    let first = trim(parts[0]);
    if has_prefix(first, lit_text_dot()) {
        if selector_parses(lit_a()) {
            concat_all(
                document_select(doc, lit_a()).map_values(
                    |e: ElementRef<'_>| anchor_texts(e, first.skip(5), parts),
                ),
            )
        } else {
            seq![]
        }
    } else {
        let p = spec_parse_selector_with_index(first);
        if !selector_parses(p.0) || document_select(doc, p.0).len() == 0 {
            seq![]
        } else {
            let m = text_list_matches(doc, first);
            let index = first_index(p.1);
            if index != 0 || m.len() == 1 {
                let idx = designated(m.len() as int, index);
                if 0 <= idx < m.len() {
                    element_rule_texts(m[idx], parts)
                } else {
                    seq![]
                }
            } else {
                concat_all(m.map_values(|e: ElementRef<'_>| element_rule_texts(e, parts)))
            }
        }
    }
}

/// Applies the rules after the first `@@`, each to every text so far
/// parsed as a document, until no text is left.
pub open spec fn chain_texts(current: Seq<Seq<char>>, rules: Seq<Seq<char>>, i: int) -> Seq<Seq<char>>
    decreases rules.len() - i,
{
    if i >= rules.len() || current.len() == 0 {
        current
    } else {
        chain_texts(
            concat_all(
                current.map_values(|t: Seq<char>| spec_single_text_list(&parsed_html(t), rules[i])),
            ),
            rules,
            i + 1,
        )
    }
}

/// What `select_text_list` gives for a document and a rule.
pub open spec fn spec_select_text_list(doc: &Html, rule: Seq<char>) -> Seq<Seq<char>> {
    if contains(rule, lit_chain()) {
        let rules = split(rule, lit_chain());
        chain_texts(spec_single_text_list(doc, rules[0]), rules, 1)
    } else {
        spec_single_text_list(doc, rule)
    }
}

fn opt_vec1(o: Option<Vec<char>>) -> (r: Vec<Vec<char>>)
    ensures
        views(r@) == opt_seq1(opt_chars(o)),
{
    match o {
        Some(v) => {
            let r = vec![v];
            assert(views(r@) =~= seq![r@[0]@]);
            r
        },
        None => Vec::new(),
    }
}

fn anchor_text_exec(el: &ElementRef) -> (r: Vec<char>)
    ensures
        r@ == anchor_text(*el),
{
    let texts = strings_to_chars(&el_text(el));
    let empty: Vec<char> = Vec::new();
    let joined = join_chars(&texts, empty.as_slice());
    trim_chars(joined.as_slice())
}

fn anchor_texts_exec(el: &ElementRef, content: &[char], parts: &Vec<Vec<char>>) -> (r: Vec<Vec<char>>)
    ensures
        views(r@) == anchor_texts(*el, content@, views(parts@)),
{
    let t = anchor_text_exec(el);
    if contains_chars(t.as_slice(), content) {
        if parts.len() > 1 {
            assert(parts@[1]@ == views(parts@)[1]);
            let x = trim_chars(parts[1].as_slice());
            opt_vec1(extract_chars(el, x.as_slice()))
        } else {
            let r = vec![t];
            assert(views(r@) =~= seq![r@[0]@]);
            r
        }
    } else {
        Vec::new()
    }
}

fn element_rule_texts_exec(el: &ElementRef, parts: &Vec<Vec<char>>, rest: &Vec<char>) -> (r: Vec<Vec<char>>)
    requires
        parts@.len() > 1 ==> rest@ == join(views(parts@).skip(1), seq!['@']),
    ensures
        views(r@) == element_rule_texts(*el, views(parts@)),
{
    if parts.len() > 1 {
        opt_vec1(text_from_element_chars(el, rest.as_slice()))
    } else {
        let t = vec!['t', 'e', 'x', 't'];
        assert(t@ =~= lit_text());
        let v = match extract_chars(el, t.as_slice()) {
            Some(v) => v,
            None => Vec::new(),
        };
        let r = vec![v];
        assert(views(r@) =~= seq![r@[0]@]);
        r
    }
}

fn single_text_list_chars(doc: &Html, rule: &[char]) -> (r: Vec<Vec<char>>)
    ensures
        views(r@) == spec_single_text_list(doc, rule@),
{
    let at = vec!['@'];
    assert(at@ =~= seq!['@']);
    let parts = split_chars(rule, at.as_slice());
    proof {
        crate::strings::lemma_split_len(rule@, seq!['@']);
    }
    let ghost ps = views(parts@);
    assert(parts@[0]@ == ps[0]);
    let first = trim_chars(parts[0].as_slice());
    let text_dot = vec!['t', 'e', 'x', 't', '.'];
    assert(text_dot@ =~= lit_text_dot());
    let mut results: Vec<Vec<char>> = Vec::new();
    if starts_with(first.as_slice(), text_dot.as_slice()) {
        let content = slice(first.as_slice(), 5, first.len());
        assert(content@ =~= first@.skip(5));
        let a = vec!['a'];
        assert(a@ =~= lit_a());
        if let Some(c) = css_of(&a) {
            let anchors = doc_select(doc, &c);
            let mut i: usize = 0;
            while i < anchors.len()
                invariant
                    i <= anchors@.len(),
                    ps == views(parts@),
                    content@ == first@.skip(5),
                    views(results@) == concat_all(
                        anchors@.take(i as int).map_values(
                            |e: ElementRef<'_>| anchor_texts(e, first@.skip(5), ps),
                        ),
                    ),
                decreases anchors@.len() - i,
            {
                let more = anchor_texts_exec(&anchors[i], content.as_slice(), &parts);
                append_pieces(&mut results, more);
                proof {
                    let f = |e: ElementRef<'_>| anchor_texts(e, first@.skip(5), ps);
                    assert(anchors@.take(i + 1).map_values(f).drop_last() =~= anchors@.take(
                        i as int,
                    ).map_values(f));
                }
                i = i + 1;
            }
            assert(anchors@.take(anchors@.len() as int) =~= anchors@);
        }
        return results;
    }
    let (css, indices, exclude) = parse_selector_chars(first.as_slice());
    let c = match css_of(&css) {
        Some(c) => c,
        None => return results,
    };
    let matches = doc_select(doc, &c);
    if matches.len() == 0 {
        return results;
    }
    let matches = match &exclude {
        Some(ex) => exclude_positions(&matches, ex),
        None => matches,
    };
    let matches = if indices.len() == 2 {
        slice_range(&matches, indices[0], indices[1])
    } else {
        matches
    };
    let index: i32 = if indices.len() > 0 {
        indices[0]
    } else {
        0
    };
    let rest = if parts.len() > 1 {
        let tail = tail_pieces(&parts);
        join_chars(&tail, at.as_slice())
    } else {
        Vec::new()
    };
    if index != 0 || matches.len() == 1 {
        let len = matches.len();
        let idx: usize = if index < 0 {
            let back = (0i64 - index as i64) as usize;
            if back > len {
                return results;
            }
            len - back
        } else {
            index as usize
        };
        if idx < len {
            return element_rule_texts_exec(&matches[idx], &parts, &rest);
        }
        return results;
    }
    let mut i: usize = 0;
    while i < matches.len()
        invariant
            i <= matches@.len(),
            ps == views(parts@),
            parts@.len() > 1 ==> rest@ == join(ps.skip(1), seq!['@']),
            views(results@) == concat_all(
                matches@.take(i as int).map_values(|e: ElementRef<'_>| element_rule_texts(e, ps)),
            ),
        decreases matches@.len() - i,
    {
        let more = element_rule_texts_exec(&matches[i], &parts, &rest);
        append_pieces(&mut results, more);
        proof {
            let f = |e: ElementRef<'_>| element_rule_texts(e, ps);
            assert(matches@.take(i + 1).map_values(f).drop_last() =~= matches@.take(i as int).map_values(f));
        }
        i = i + 1;
    }
    assert(matches@.take(matches@.len() as int) =~= matches@);
    results
}

pub(crate) fn text_list_chars(doc: &Html, rule: &[char]) -> (r: Vec<Vec<char>>)
    ensures
        views(r@) == spec_select_text_list(doc, rule@),
{
    let chain = vec!['@', '@'];
    assert(chain@ =~= lit_chain());
    if !contains_chars(rule, chain.as_slice()) {
        return single_text_list_chars(doc, rule);
    }
    let rules = split_chars(rule, chain.as_slice());
    proof {
        crate::strings::lemma_split_len(rule@, lit_chain());
    }
    let ghost rs = views(rules@);
    assert(rules@[0]@ == rs[0]);
    let mut current = single_text_list_chars(doc, rules[0].as_slice());
    let mut i: usize = 1;
    while i < rules.len()
        invariant
            1 <= i <= rules@.len(),
            rs == views(rules@),
            chain_texts(views(current@), rs, i as int) == chain_texts(
                spec_single_text_list(doc, rs[0]),
                rs,
                1,
            ),
        ensures
            i >= rules@.len() || current@.len() == 0,
            chain_texts(views(current@), rs, i as int) == chain_texts(
                spec_single_text_list(doc, rs[0]),
                rs,
                1,
            ),
        decreases rules@.len() - i,
    {
        if current.len() == 0 {
            break;
        }
        assert(rules@[i as int]@ == rs[i as int]);
        let mut next: Vec<Vec<char>> = Vec::new();
        let mut k: usize = 0;
        while k < current.len()
            invariant
                k <= current@.len(),
                i < rules@.len(),
                rs == views(rules@),
                rules@[i as int]@ == rs[i as int],
                views(next@) == concat_all(
                    views(current@).take(k as int).map_values(
                        |t: Seq<char>| spec_single_text_list(&parsed_html(t), rs[i as int]),
                    ),
                ),
            decreases current@.len() - k,
        {
            let sub_doc = parse_document(string_of(current[k].as_slice()).as_str());
            let more = single_text_list_chars(&sub_doc, rules[i].as_slice());
            append_pieces(&mut next, more);
            proof {
                let f = |t: Seq<char>| spec_single_text_list(&parsed_html(t), rs[i as int]);
                assert(views(current@).take(k + 1).map_values(f).drop_last() =~= views(
                    current@,
                ).take(k as int).map_values(f));
                assert(views(current@).take(k + 1).map_values(f).last() == f(current@[k as int]@));
            }
            k = k + 1;
        }
        assert(views(current@).take(current@.len() as int) =~= views(current@));
        current = next;
        i = i + 1;
    }
    current
}

/// Collects the texts a rule selects; `@@` applies the following rule to
/// each text found so far, parsed as a document.
pub fn select_text_list(doc: &Html, rule: &str) -> (r: Vec<String>)
    ensures
        r@.map_values(|s: String| s@) == spec_select_text_list(doc, rule@),
{
    let cs = chars_of(rule);
    let texts = text_list_chars(doc, cs.as_slice());
    let mut r: Vec<String> = Vec::new();
    let mut i: usize = 0;
    while i < texts.len()
        invariant
            i <= texts@.len(),
            r@.map_values(|s: String| s@) == views(texts@).take(i as int),
        decreases texts@.len() - i,
    {
        let s = string_of(texts[i].as_slice());
        let ghost old_r = r@.map_values(|s: String| s@);
        r.push(s);
        assert(r@.map_values(|s: String| s@) =~= old_r.push(texts@[i as int]@));
        assert(views(texts@).take(i + 1) =~= views(texts@).take(i as int).push(texts@[i as int]@));
        i = i + 1;
    }
    assert(views(texts@).take(texts@.len() as int) =~= views(texts@));
    r
}

/// What `select_text` gives: the first text the rule selects.
pub open spec fn spec_select_text(doc: &Html, rule: Seq<char>) -> Option<Seq<char>> {
    let l = spec_select_text_list(doc, rule);
    if l.len() > 0 {
        Some(l[0])
    } else {
        None
    }
}

/// The first text a rule selects.
pub fn select_text(doc: &Html, rule: &str) -> (r: Option<String>)
    ensures
        opt_view(r) == spec_select_text(doc, rule@),
{
    let cs = chars_of(rule);
    let texts = text_list_chars(doc, cs.as_slice());
    if texts.len() > 0 {
        assert(texts@[0]@ == views(texts@)[0]);
        Some(string_of(texts[0].as_slice()))
    } else {
        None
    }
}

} // verus!
