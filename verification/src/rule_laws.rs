//! Properties of element selection and of the page readers that span
//! several rules or calls.

use vstd::prelude::*;
use crate::parser::html::{
    child_texts,
    document_select, element_select, lit_chain, list_rule_base, parsed_html, selector_parses,
    spec_extract_text, spec_select_list, spec_select_list_simple, spec_select_text_from_element,
    spec_select_text_list, spec_select_with_combination, spec_single_text_list,
};
use crate::parser::legado::{
    byte_offset, first_op_from, merge_step, op_at, spec_parse_selector_with_index, tokenize, utf8_len,
};
use crate::strings::{
    trim_start,
    concat_all, contains, find, has_prefix, lemma_contains_sub, lemma_find, lemma_find_absent_start,
    lemma_find_char_absent, lemma_find_unique, lemma_split_char_pair, lemma_trim_idem,
    lemma_trim_no_char, lemma_trim_sub, split, trim,
};
use crate::parser::rule_engine::{
    content_rule_of, ctx_field, lit_get, lit_put, spec_eval_field, explore_rule_of, fresh_field, html_search_item, is_json_path_rule,
    lit_js_colon, or_empty, rule_text, search_rule_of, spec_apply_legado_regex, spec_chapter_list, spec_content,
    spec_is_json, spec_resolve_url, spec_search_with_rule, toc_html_fold, FieldSource, RuleHost,
};
use crate::model::book_chapter::BookChapterView;
use crate::model::book_source::{BookInfoRule, BookSource, ContentRule, SearchRule, TocRule};
use crate::util::json::json_parse;
use scraper::{ElementRef, Html};

verus! {

/// The rule `first@@second`.
pub open spec fn chained(first: Seq<char>, second: Seq<char>) -> Seq<char> {
    first + lit_chain() + second
}

proof fn lemma_find_chain(r1: Seq<char>, r2: Seq<char>)
    requires
        !contains(r1, lit_chain()),
        r1.len() > 0 ==> r1.last() != '@',
    ensures
        find(chained(r1, r2), lit_chain()) == Some(r1.len() as int),
{
    let s = chained(r1, r2);
    let n = r1.len() as int;
    assert(s.skip(n).take(2) =~= lit_chain());
    lemma_find(r1, lit_chain());
    assert forall|j: int| 0 <= j < n implies !has_prefix(#[trigger] s.skip(j), lit_chain()) by {
        if has_prefix(s.skip(j), lit_chain()) {
            assert(s.skip(j).take(2)[0] == s[j]);
            assert(s.skip(j).take(2)[1] == s[j + 1]);
            if j + 1 < n {
                assert(r1.skip(j).take(2) =~= s.skip(j).take(2));
                assert(has_prefix(r1.skip(j), lit_chain()));
            } else {
                assert(s[j] == r1.last());
            }
        }
    }
    lemma_find_unique(s, lit_chain(), n);
}

/// `first@@second` applies `second` to each text `first` selects, parsed
/// as a document, and joins the results in order.
pub proof fn law_chain_applies_second_rule(doc: &Html, r1: Seq<char>, r2: Seq<char>)
    requires
        !contains(r1, lit_chain()),
        !contains(r2, lit_chain()),
        r1.len() > 0 ==> r1.last() != '@',
    ensures
        spec_select_text_list(doc, chained(r1, r2)) == concat_all(
            spec_select_text_list(doc, r1).map_values(
                |t: Seq<char>| spec_select_text_list(&parsed_html(t), r2),
            ),
        ),
{
    let s = chained(r1, r2);
    let n = r1.len() as int;
    lemma_find_chain(r1, r2);
    assert(contains(s, lit_chain()));
    lemma_find(r2, lit_chain());
    assert(s.take(n) =~= r1);
    assert(s.skip(n + 2) =~= r2);
    assert(split(r2, lit_chain()) == seq![r2]);
    let rules = split(s, lit_chain());
    assert(rules =~= seq![r1, r2]);
    let cur = spec_single_text_list(doc, r1);
    assert(spec_select_text_list(doc, r1) == cur);
    let f = |t: Seq<char>| spec_single_text_list(&parsed_html(t), rules[1]);
    let g = |t: Seq<char>| spec_select_text_list(&parsed_html(t), r2);
    assert(cur.map_values(f) =~= cur.map_values(g));
    assert(spec_select_text_list(doc, s) == crate::parser::html::chain_texts(cur, rules, 1));
    if cur.len() == 0 {
        assert(cur.map_values(g) =~= Seq::<Seq<Seq<char>>>::empty());
        assert(concat_all(cur.map_values(g)) =~= Seq::<Seq<char>>::empty());
    } else {
        let next = concat_all(cur.map_values(f));
        assert(crate::parser::html::chain_texts(next, rules, 2) == next);
    }
}


/// No character of the text is `&`, `|` or `%`.
pub open spec fn no_operator_chars(s: Seq<char>) -> bool {
    forall|i: int| 0 <= i < s.len() ==> #[trigger] s[i] != '&' && s[i] != '|' && s[i] != '%'
}

/// Every character of the text is ASCII.
pub open spec fn all_ascii(s: Seq<char>) -> bool {
    forall|i: int| 0 <= i < s.len() ==> (#[trigger] s[i] as u32) < 0x80
}

/// The rule `first` followed by the operator `c` written twice and `second`.
pub open spec fn combined(first: Seq<char>, c: char, second: Seq<char>) -> Seq<char> {
    first + seq![c, c] + second
}

proof fn lemma_byte_offset_ascii(s: Seq<char>, k: int)
    requires
        0 <= k <= s.len(),
        forall|j: int| 0 <= j < k ==> (#[trigger] s[j] as u32) < 0x80,
    ensures
        byte_offset(s, k) == k,
    decreases k,
{
    if k > 0 {
        lemma_byte_offset_ascii(s, k - 1);
        assert(utf8_len(s[k - 1]) == 1);
    }
}

proof fn lemma_first_op_at(s: Seq<char>, i: int, m: int)
    requires
        0 <= i <= m < s.len(),
        forall|k: int| i <= k < m ==> !#[trigger] op_at(s, k),
        op_at(s, m),
    ensures
        first_op_from(s, i) == Some(m),
    decreases m - i,
{
    if i < m {
        lemma_first_op_at(s, i + 1, m);
    }
}

proof fn lemma_first_op_none(s: Seq<char>, i: int)
    requires
        0 <= i,
        no_operator_chars(s),
    ensures
        first_op_from(s, i) is None,
    decreases s.len() - i,
{
    if i < s.len() {
        assert(s[i] != '&' && s[i] != '|' && s[i] != '%');
        lemma_first_op_none(s, i + 1);
    }
}

proof fn lemma_trim_no_operators(s: Seq<char>)
    requires
        no_operator_chars(s),
    ensures
        no_operator_chars(trim(s)),
{
    let a = lemma_trim_sub(s);
    assert forall|i: int| 0 <= i < trim(s).len() implies #[trigger] trim(s)[i] != '&' && trim(s)[i]
        != '|' && trim(s)[i] != '%' by {
        assert(trim(s)[i] == s[a + i]);
    }
}

/// A rule `r1 OP r2` whose parts hold no operator character selects what
/// the two simple rules select, merged by the operator: `&&` appends the
/// second list, `||` takes the second list only when the first is empty,
/// `%%` interleaves them.
pub proof fn law_two_rule_combination(doc: &Html, r1: Seq<char>, c: char, r2: Seq<char>)
    requires
        c == '&' || c == '|' || c == '%',
        all_ascii(r1),
        no_operator_chars(r1),
        no_operator_chars(r2),
        trim(r2).len() > 0,
    ensures
        ({
            let a = spec_select_list_simple(doc, trim(r1));
            let b = spec_select_list_simple(doc, trim(r2));
            &&& spec_select_with_combination(doc, combined(r1, c, r2)) == merge_step(a, b, c)
            &&& c == '&' ==> spec_select_with_combination(doc, combined(r1, c, r2)) == a + b
            &&& c == '|' ==> spec_select_with_combination(doc, combined(r1, c, r2)) == (if a.len()
                == 0 {
                b
            } else {
                a
            })
        }),
{
    let s = combined(r1, c, r2);
    let n = r1.len() as int;
    assert forall|j: int| 0 <= j < n implies (#[trigger] s[j] as u32) < 0x80 by {
        assert(s[j] == r1[j]);
    }
    lemma_byte_offset_ascii(s, n);
    assert(s[n] == c && s[n + 1] == c);
    assert(op_at(s, n));
    assert forall|k: int| 0 <= k < n implies !#[trigger] op_at(s, k) by {
        assert(s[k] == r1[k]);
    }
    lemma_first_op_at(s, 0, n);
    assert(s.take(n) =~= r1);
    assert(s.skip(n + 2) =~= r2);
    let rest = trim(r2);
    lemma_trim_no_operators(r2);
    lemma_first_op_none(rest, 0);
    lemma_trim_idem(r2);
    assert(tokenize(rest) == (seq![rest], Seq::<char>::empty()));
    let t = tokenize(s);
    assert(t.0 =~= seq![trim(r1), rest]);
    assert(t.1 =~= seq![c]);
    assert(seq![c].drop_last() =~= Seq::<char>::empty());
    let a = spec_select_list_simple(doc, trim(r1));
    let b = spec_select_list_simple(doc, rest);
    let others = crate::parser::html::rest_lists(doc, t.0, 1);
    assert(others[0] == b);
    assert(crate::parser::legado::combine(a, others, Seq::<char>::empty()) == a);
    assert(crate::parser::legado::combine(a, others, t.1) == merge_step(a, b, c));
    assert(spec_select_with_combination(doc, s) == crate::parser::legado::combine(a, others, t.1));
}


/// A list rule without `@` and without a combination operator selects what
/// the simple selection of the trimmed rule selects.
pub proof fn law_plain_list_rule(doc: &Html, s: Seq<char>)
    requires
        !s.contains('@'),
        !contains(s, crate::parser::html::lit_and()),
        !contains(s, crate::parser::html::lit_or()),
        !contains(s, crate::parser::html::lit_zip()),
    ensures
        spec_select_list(doc, s) == spec_select_list_simple(doc, trim(s)),
{
    let t = trim(s);
    let a0 = lemma_trim_sub(s);
    lemma_trim_no_char(s, '@');
    lemma_find_absent_start(t, lit_chain());
    assert(split(t, lit_chain()) == seq![t]);
    lemma_trim_idem(s);
    lemma_find_char_absent(t, '@');
    assert(split(t, seq!['@']) == seq![t]);
    assert(list_rule_base(s) == t);
    let hi = a0 + t.len();
    if contains(t, crate::parser::html::lit_and()) {
        lemma_contains_sub(s, a0, hi, crate::parser::html::lit_and());
    }
    if contains(t, crate::parser::html::lit_or()) {
        lemma_contains_sub(s, a0, hi, crate::parser::html::lit_or());
    }
    if contains(t, crate::parser::html::lit_zip()) {
        lemma_contains_sub(s, a0, hi, crate::parser::html::lit_zip());
    }
}

/// The rule `selector@extractor`.
pub open spec fn stepped(selector: Seq<char>, extractor: Seq<char>) -> Seq<char> {
    selector + seq!['@'] + extractor
}

/// `selector@extractor`, where the selector has index 0 and no exclusion,
/// steps into the first element the selector matches and applies the
/// extractor there; nothing when the selector matches nothing or does not
/// parse.
pub proof fn law_step_into_first_match(el: ElementRef<'_>, sel: Seq<char>, ext: Seq<char>)
    requires
        !sel.contains('@'),
        !ext.contains('@'),
        trim(sel).len() > 0,
        trim(ext).len() > 0,
        spec_parse_selector_with_index(trim(sel)).1 == seq![0i32],
        spec_parse_selector_with_index(trim(sel)).2 is None,
    ensures
        ({
            let css = spec_parse_selector_with_index(trim(sel)).0;
            let ms = element_select(el, css);
            spec_select_text_from_element(el, stepped(sel, ext)) == if !selector_parses(css)
                || ms.len() == 0 {
                None
            } else {
                spec_extract_text(ms[0], trim(ext))
            }
        }),
{
    lemma_split_char_pair(sel, '@', ext);
    let parts = split(stepped(sel, ext), seq!['@']);
    assert(parts =~= seq![sel, ext]);
    let css = spec_parse_selector_with_index(trim(sel)).0;
    let ms = element_select(el, css);
    if selector_parses(css) && ms.len() > 0 {
        let e = ms[0];
        assert(crate::parser::legado::step_pick(ms, seq![0i32], None) == Some(e));
        assert(crate::parser::html::step_select(el, trim(sel)) == Some(e));
        assert(crate::parser::html::text_from_parts(e, parts, 1) == spec_extract_text(e, trim(ext)));
    }
}


/// An HTML search page gives one book per element the list rule selects
/// (none without a list rule); each carries the source's URL, and its book
/// URL is the book-URL rule's text on that element resolved against the
/// base.
pub proof fn law_html_search_items<H: RuleHost>(
    host: &H,
    source: BookSource,
    rule: SearchRule,
    body: Seq<char>,
    base: Seq<char>,
)
    requires
        !(spec_is_json(body) && is_json_path_rule(rule.book_list)),
    ensures
        ({
            let r = spec_search_with_rule(host, source, rule, body, base);
            &&& rule.book_list is None ==> r.len() == 0
            &&& rule.book_list matches Some(l) ==> {
                let items = spec_select_list(&parsed_html(body), l@);
                &&& r.len() == items.len()
                &&& forall|i: int|
                    0 <= i < r.len() ==> {
                        &&& #[trigger] r[i] == html_search_item(host, source, rule, items[i], base)
                        &&& r[i].origin == source.book_source_url@
                        &&& r[i].book_url == spec_resolve_url(
                            base,
                            or_empty(fresh_field(host, rule.book_url, FieldSource::Element(items[i]), base)),
                        )
                    }
            }
        }),
{
}

/// A JSON search response gives nothing when it does not parse, and
/// otherwise one book per value the list rule's JSONPath selects, each
/// carrying the source's URL.
pub proof fn law_json_search_items<H: RuleHost>(
    host: &H,
    source: BookSource,
    rule: SearchRule,
    body: Seq<char>,
    base: Seq<char>,
)
    requires
        spec_is_json(body),
        is_json_path_rule(rule.book_list),
    ensures
        ({
            let r = spec_search_with_rule(host, source, rule, body, base);
            &&& json_parse(body) is None ==> r.len() == 0
            &&& json_parse(body) matches Some(v) ==> {
                &&& r.len() == host.json_query_result(v, rule_text(rule.book_list)).len()
                &&& forall|i: int| 0 <= i < r.len() ==> (#[trigger] r[i]).origin == source.book_source_url@
            }
        }),
{
}

/// The source whose search rule is the given source's explore rule, or
/// its search rule when it has none.
pub open spec fn exploring_as_search(source: BookSource) -> BookSource {
    BookSource {
        book_source_url: source.book_source_url,
        book_source_name: source.book_source_name,
        rule_search: match source.rule_explore {
            Some(r) => Some(r),
            None => source.rule_search,
        },
        rule_explore: source.rule_explore,
        rule_book_info: source.rule_book_info,
        rule_toc: source.rule_toc,
        rule_content: source.rule_content,
    }
}

/// Exploring a source lists what searching it lists once its explore rule
/// (or, without one, its search rule) is taken as the search rule; without
/// an explore rule, exploring is searching.
pub proof fn law_explore_is_search<H: RuleHost>(host: &H, source: BookSource, body: Seq<char>, base: Seq<char>)
    ensures
        spec_search_with_rule(host, source, explore_rule_of(source), body, base) == spec_search_with_rule(
            host,
            exploring_as_search(source),
            search_rule_of(exploring_as_search(source)),
            body,
            base,
        ),
        source.rule_explore is None ==> spec_search_with_rule(host, source, explore_rule_of(source), body, base)
            == spec_search_with_rule(host, source, search_rule_of(source), body, base),
{
    let s2 = exploring_as_search(source);
    let rule = explore_rule_of(source);
    assert(search_rule_of(s2) == rule);
    let a = spec_search_with_rule(host, source, rule, body, base);
    let b = spec_search_with_rule(host, s2, rule, body, base);
    assert(a.len() == b.len());
    assert forall|i: int| 0 <= i < a.len() implies a[i] == b[i] by {}
    assert(a =~= b);
}


/// The chapter the `i`-th listed element gives: its name and URL rules
/// read with the variables left by the elements before it, the URL
/// resolved against the base, numbered by position.
pub open spec fn toc_html_entry<H: RuleHost>(
    host: &H,
    rule: TocRule,
    items: Seq<ElementRef<'_>>,
    base: Seq<char>,
    ctx0: Map<Seq<char>, Seq<char>>,
    i: int,
) -> BookChapterView {
    let prev = toc_html_fold(host, rule, items, base, ctx0, i);
    let src = FieldSource::Element(items[i]);
    let t = ctx_field(host, rule.chapter_name, src, base, prev.1);
    let u = ctx_field(host, rule.chapter_url, src, base, t.1);
    BookChapterView { title: or_empty(t.0), url: spec_resolve_url(base, or_empty(u.0)), index: i as i32 }
}

proof fn lemma_toc_html_entries<H: RuleHost>(
    host: &H,
    rule: TocRule,
    items: Seq<ElementRef<'_>>,
    base: Seq<char>,
    ctx0: Map<Seq<char>, Seq<char>>,
    n: int,
)
    requires
        0 <= n,
    ensures
        toc_html_fold(host, rule, items, base, ctx0, n).0.len() == n,
        forall|i: int|
            0 <= i < n ==> #[trigger] toc_html_fold(host, rule, items, base, ctx0, n).0[i] == toc_html_entry(
                host,
                rule,
                items,
                base,
                ctx0,
                i,
            ),
    decreases n,
{
    if n > 0 {
        lemma_toc_html_entries(host, rule, items, base, ctx0, n - 1);
    }
}

/// The text the chapter-URL rule gives on the `i`-th listed element (with
/// the variables left by the elements before it and by its name rule), or
/// the empty text.
pub open spec fn chapter_url_text<H: RuleHost>(
    host: &H,
    rule: TocRule,
    items: Seq<ElementRef<'_>>,
    base: Seq<char>,
    ctx0: Map<Seq<char>, Seq<char>>,
    i: int,
) -> Seq<char> {
    let prev = toc_html_fold(host, rule, items, base, ctx0, i);
    let src = FieldSource::Element(items[i]);
    let t = ctx_field(host, rule.chapter_name, src, base, prev.1);
    or_empty(ctx_field(host, rule.chapter_url, src, base, t.1).0)
}

/// An HTML table of contents read with the variables `vars` gives one
/// chapter per element the list rule selects (none without a list rule),
/// after the `init` rule has run on the document: the `i`-th chapter is
/// `toc_html_entry` of the `i`-th element, numbered `i`, with its URL the
/// chapter-URL rule's text resolved against the base, so the base itself
/// when there is no chapter-URL rule. `chapter_list` reads an HTML page
/// this way with no variables.
pub proof fn law_html_chapter_entries<H: RuleHost>(
    host: &H,
    rule: TocRule,
    body: Seq<char>,
    base: Seq<char>,
    vars: Map<Seq<char>, Seq<char>>,
)
    ensures
        ({
            let r = crate::parser::rule_engine::spec_chapter_list_html(host, rule, body, base, vars).0;
            &&& rule.chapter_list is None ==> r.len() == 0
            &&& rule.chapter_list matches Some(l) ==> {
                let doc = parsed_html(body);
                let ctx0 = ctx_field(host, rule.init, FieldSource::Document(&doc), base, vars).1;
                let items = spec_select_list(&doc, l@);
                &&& r.len() == items.len()
                &&& forall|i: int|
                    0 <= i < r.len() ==> {
                        &&& #[trigger] r[i] == toc_html_entry(host, rule, items, base, ctx0, i)
                        &&& r[i].index == i as i32
                        &&& r[i].url == spec_resolve_url(base, chapter_url_text(host, rule, items, base, ctx0, i))
                        &&& rule.chapter_url is None ==> r[i].url == base
                    }
            }
        }),
        !(spec_is_json(body) && is_json_path_rule(rule.chapter_list)) ==> spec_chapter_list(host, rule, body, base)
            == crate::parser::rule_engine::spec_chapter_list_html(host, rule, body, base, Map::empty()).0,
{
    if let Some(l) = rule.chapter_list {
        let doc = parsed_html(body);
        let ctx0 = ctx_field(host, rule.init, FieldSource::Document(&doc), base, vars).1;
        let items = spec_select_list(&doc, l@);
        lemma_toc_html_entries(host, rule, items, base, ctx0, items.len() as int);
    }
}

/// The source with its content rule's replacement part removed.
pub open spec fn without_replacement(source: BookSource, cr: ContentRule) -> BookSource {
    BookSource {
        book_source_url: source.book_source_url,
        book_source_name: source.book_source_name,
        rule_search: source.rule_search,
        rule_explore: source.rule_explore,
        rule_book_info: source.rule_book_info,
        rule_toc: source.rule_toc,
        rule_content: Some(ContentRule { content: cr.content, replace_regex: None }),
    }
}

/// For a content rule that is not a `js:` script, the content with a
/// replacement part is the content without it, with the replacements
/// applied.
pub proof fn law_content_replacement<H: RuleHost>(
    host: &H,
    source: BookSource,
    cr: ContentRule,
    body: Seq<char>,
    base: Seq<char>,
)
    requires
        source.rule_content == Some(cr),
        cr.content matches Some(c) ==> !has_prefix(trim_start(c@), lit_js_colon()),
    ensures
        spec_content(host, source, body, base) == (match cr.replace_regex {
            Some(rx) => spec_apply_legado_regex(spec_content(host, without_replacement(source, cr), body, base), rx@),
            None => spec_content(host, without_replacement(source, cr), body, base),
        }),
{
    assert(content_rule_of(source) == cr);
}


/// An element rule without `@` is only an extractor, applied to the
/// element itself; a blank rule takes the element's text.
pub proof fn law_single_part_element_rule(el: ElementRef<'_>, rule: Seq<char>)
    requires
        !rule.contains('@'),
    ensures
        spec_select_text_from_element(el, rule) == (if trim(rule).len() == 0 {
            spec_extract_text(el, crate::parser::html::lit_text())
        } else {
            spec_extract_text(el, trim(rule))
        }),
{
    lemma_find_char_absent(rule, '@');
    let parts = split(rule, seq!['@']);
    assert(parts == seq![rule]);
    if trim(rule).len() == 0 {
        assert(crate::parser::html::text_from_parts(el, parts, 1) == spec_extract_text(
            el,
            crate::parser::html::lit_text(),
        ));
    }
}


/// A rule that is absent or not a `@put` rule, so that it leaves the
/// variables as they are.
pub open spec fn leaves_variables(o: Option<String>) -> bool {
    match o {
        Some(r) => !has_prefix(r@, lit_put()),
        None => true,
    }
}

/// What an optional field rule gives on a source with the given variables.
pub open spec fn field_value<H: RuleHost>(
    host: &H,
    o: Option<String>,
    src: FieldSource<'_>,
    base: Seq<char>,
    vars: Map<Seq<char>, Seq<char>>,
) -> Option<Seq<char>> {
    match o {
        Some(r) => spec_eval_field(host, r@, src, base, vars).0,
        None => None,
    }
}

proof fn lemma_field_keeps_vars<H: RuleHost>(
    host: &H,
    o: Option<String>,
    src: FieldSource<'_>,
    base: Seq<char>,
    vars: Map<Seq<char>, Seq<char>>,
)
    requires
        leaves_variables(o),
    ensures
        ctx_field(host, o, src, base, vars) == (field_value(host, o, src, base, vars), vars),
{
}

/// On an HTML book page whose rules store no variables, each detail is
/// what its rule gives on the page: the name and author (empty when the
/// rule gives nothing), the cover URL resolved against the base, and the
/// table-of-contents URL resolved against the base, or the book's own URL
/// only when the table-of-contents rule gives nothing.
pub proof fn law_html_book_info_fields<H: RuleHost>(
    host: &H,
    source: BookSource,
    rule: BookInfoRule,
    body: Seq<char>,
    base: Seq<char>,
    book_url: Seq<char>,
    vars: Map<Seq<char>, Seq<char>>,
)
    requires
        leaves_variables(rule.init),
        leaves_variables(rule.name),
        leaves_variables(rule.author),
        leaves_variables(rule.intro),
        leaves_variables(rule.kind),
        leaves_variables(rule.last_chapter),
        leaves_variables(rule.update_time),
        leaves_variables(rule.cover_url),
        leaves_variables(rule.word_count),
    ensures
        ({
            let doc = parsed_html(body);
            let src = FieldSource::Document(&doc);
            let b = crate::parser::rule_engine::spec_book_info_html(host, source, rule, body, base, book_url, vars).0;
            &&& b.name == (match field_value(host, rule.name, src, base, vars) {
                Some(t) => t,
                None => Seq::<char>::empty(),
            })
            &&& b.author == (match field_value(host, rule.author, src, base, vars) {
                Some(t) => t,
                None => Seq::<char>::empty(),
            })
            &&& b.intro == field_value(host, rule.intro, src, base, vars)
            &&& b.cover_url == (match field_value(host, rule.cover_url, src, base, vars) {
                Some(t) => Some(spec_resolve_url(base, t)),
                None => None,
            })
            &&& b.toc_url == (match field_value(host, rule.toc_url, src, base, vars) {
                Some(t) => Some(spec_resolve_url(base, t)),
                None => Some(book_url),
            })
            &&& b.book_url == book_url
        }),
{
    let doc = parsed_html(body);
    let src = FieldSource::Document(&doc);
    lemma_field_keeps_vars(host, rule.init, src, base, vars);
    lemma_field_keeps_vars(host, rule.name, src, base, vars);
    lemma_field_keeps_vars(host, rule.author, src, base, vars);
    lemma_field_keeps_vars(host, rule.intro, src, base, vars);
    lemma_field_keeps_vars(host, rule.kind, src, base, vars);
    lemma_field_keeps_vars(host, rule.last_chapter, src, base, vars);
    lemma_field_keeps_vars(host, rule.update_time, src, base, vars);
    lemma_field_keeps_vars(host, rule.cover_url, src, base, vars);
    lemma_field_keeps_vars(host, rule.word_count, src, base, vars);
}

/// Each book of an HTML search page carries what the rules give on its
/// element, each read with no variables: the name, author and book URL
/// (empty when the rule gives nothing; the book URL resolved against the
/// base), the cover URL resolved against the base, and the intro, kind,
/// last chapter and update time as they are.
pub proof fn law_html_search_fields<H: RuleHost>(
    host: &H,
    source: BookSource,
    rule: SearchRule,
    body: Seq<char>,
    base: Seq<char>,
)
    requires
        !(spec_is_json(body) && is_json_path_rule(rule.book_list)),
        rule.book_list is Some,
    ensures
        ({
            let r = spec_search_with_rule(host, source, rule, body, base);
            let items = spec_select_list(&parsed_html(body), rule.book_list->0@);
            &&& r.len() == items.len()
            &&& forall|i: int|
                0 <= i < r.len() ==> {
                    let src = FieldSource::Element(items[i]);
                    let none = Map::<Seq<char>, Seq<char>>::empty();
                    &&& (#[trigger] r[i]).name == (match field_value(host, rule.name, src, base, none) {
                        Some(t) => t,
                        None => Seq::<char>::empty(),
                    })
                    &&& r[i].author == (match field_value(host, rule.author, src, base, none) {
                        Some(t) => t,
                        None => Seq::<char>::empty(),
                    })
                    &&& r[i].book_url == spec_resolve_url(
                        base,
                        match field_value(host, rule.book_url, src, base, none) {
                            Some(t) => t,
                            None => Seq::<char>::empty(),
                        },
                    )
                    &&& r[i].cover_url == (match field_value(host, rule.cover_url, src, base, none) {
                        Some(t) => Some(spec_resolve_url(base, t)),
                        None => None,
                    })
                    &&& r[i].intro == field_value(host, rule.intro, src, base, none)
                    &&& r[i].kind == field_value(host, rule.kind, src, base, none)
                    &&& r[i].last_chapter == field_value(host, rule.last_chapter, src, base, none)
                    &&& r[i].update_time == field_value(host, rule.update_time, src, base, none)
                    &&& r[i].origin == source.book_source_url@
                }
        }),
{
}


/// What one child node adds to an element's own text: a text node's
/// trimmed text followed by a space; nothing for any other node.
pub open spec fn own_text_piece(node: Option<Seq<char>>) -> Seq<char> {
    match node {
        Some(t) => trim(t) + seq![' '],
        None => Seq::<char>::empty(),
    }
}

proof fn lemma_own_text_pieces(ns: Seq<Option<Seq<char>>>)
    ensures
        crate::parser::html::own_text_raw(ns) == concat_all(ns.map_values(|n: Option<Seq<char>>| own_text_piece(n))),
    decreases ns.len(),
{
    let f = |n: Option<Seq<char>>| own_text_piece(n);
    if ns.len() > 0 {
        lemma_own_text_pieces(ns.drop_last());
        assert(ns.map_values(f).drop_last() =~= ns.drop_last().map_values(f));
        assert(ns.map_values(f).last() == own_text_piece(ns.last()));
        if ns.last() is None {
            assert(concat_all(ns.drop_last().map_values(f)) + Seq::<char>::empty() =~= concat_all(
                ns.drop_last().map_values(f),
            ));
        } else {
            let t = ns.last()->0;
            assert(concat_all(ns.drop_last().map_values(f)) + (trim(t) + seq![' ']) =~= concat_all(
                ns.drop_last().map_values(f),
            ) + trim(t) + seq![' ']);
        }
    } else {
        assert(ns.map_values(f) =~= Seq::<Seq<char>>::empty());
    }
}

/// `ownText` is every direct text child of the element, in order, each
/// trimmed and followed by a space, all trimmed; nothing when that is
/// empty.
pub proof fn law_own_text(el: ElementRef<'_>)
    ensures
        ({
            let t = trim(concat_all(child_texts(el).map_values(|n: Option<Seq<char>>| own_text_piece(n))));
            spec_extract_text(el, crate::parser::html::lit_own_text()) == (if t.len() == 0 {
                None
            } else {
                Some(t)
            })
        }),
{
    let x = crate::parser::html::lit_own_text();
    assert(trim_start(x) == x);
    assert(crate::strings::trim_end(x) == x);
    assert(trim(x) == x);
    assert(x != crate::parser::html::lit_text());
    assert(x != seq!['@'] + crate::parser::html::lit_text()) by {
        assert((seq!['@'] + crate::parser::html::lit_text())[0] == '@');
    }
    assert(x != crate::parser::html::lit_text_nodes()) by {
        assert(crate::parser::html::lit_text_nodes().len() == 9);
    }
    assert(x != seq!['@'] + crate::parser::html::lit_text_nodes()) by {
        assert((seq!['@'] + crate::parser::html::lit_text_nodes()).len() == 10);
    }
    lemma_own_text_pieces(child_texts(el));
}

proof fn lemma_find_doubled(r1: Seq<char>, c: char, r2: Seq<char>)
    requires
        !contains(r1, seq![c, c]),
        r1.len() > 0 ==> r1.last() != c,
    ensures
        find(r1 + seq![c, c] + r2, seq![c, c]) == Some(r1.len() as int),
{
    let p = seq![c, c];
    let s = r1 + p + r2;
    let n = r1.len() as int;
    assert(s.skip(n).take(2) =~= p);
    lemma_find(r1, p);
    assert forall|j: int| 0 <= j < n implies !has_prefix(#[trigger] s.skip(j), p) by {
        if has_prefix(s.skip(j), p) {
            assert(s.skip(j).take(2)[0] == s[j]);
            assert(s.skip(j).take(2)[1] == s[j + 1]);
            if j + 1 < n {
                assert(r1.skip(j).take(2) =~= s.skip(j).take(2));
                assert(has_prefix(r1.skip(j), p));
            } else {
                assert(s[j] == r1.last());
            }
        }
    }
    lemma_find_unique(s, p, n);
}

proof fn lemma_no_marker_prefix(r0: Seq<char>, rest: Seq<char>, m: Seq<char>)
    requires
        m.len() == 5,
        forall|i: int| 0 <= i < 5 ==> m[i] != '#',
        !has_prefix(r0, m),
    ensures
        !has_prefix(r0 + seq!['#', '#'] + rest, m),
{
    let s = r0 + seq!['#', '#'] + rest;
    if has_prefix(s, m) {
        if r0.len() >= 5 {
            assert(r0.take(5) =~= s.take(5));
        } else {
            assert(s.take(5)[r0.len() as int] == '#');
        }
    }
}

proof fn lemma_field_is_plain<H: RuleHost>(
    host: &H,
    rule: Seq<char>,
    src: FieldSource<'_>,
    base: Seq<char>,
    vars: Map<Seq<char>, Seq<char>>,
)
    requires
        !has_prefix(rule, lit_put()),
        !has_prefix(rule, lit_get()),
    ensures
        spec_eval_field(host, rule, src, base, vars) == (
            crate::parser::rule_engine::spec_eval_plain(host, rule, src, base),
            vars,
        ),
{
}

proof fn lemma_plain_with_part<H: RuleHost>(
    host: &H,
    r0: Seq<char>,
    part: Seq<char>,
    src: FieldSource<'_>,
    base: Seq<char>,
)
    requires
        !(src is Document),
        crate::parser::rule_engine::spec_split_legado_regex(r0) == (r0, Option::<Seq<char>>::None),
        crate::parser::rule_engine::spec_split_legado_regex(r0 + seq!['#', '#'] + part) == (
            r0,
            Some(seq!['#', '#'] + part),
        ),
    ensures
        ({
            let plain = match crate::parser::rule_engine::spec_eval_plain(host, r0, src, base) {
                Some(t) => t,
                None => Seq::<char>::empty(),
            };
            let t = spec_apply_legado_regex(plain, seq!['#', '#'] + part);
            crate::parser::rule_engine::spec_eval_plain(host, r0 + seq!['#', '#'] + part, src, base) == (
            if t.len() == 0 {
                None
            } else {
                Some(t)
            })
        }),
{
    let (pure, js) = crate::parser::rule_engine::spec_extract_js(r0);
    let text0 = crate::parser::rule_engine::pure_text(host, src, pure);
    let text1 = match js {
        Some(script) => match host.script_result(script, text0, base) {
            Some(res) => res,
            None => text0,
        },
        None => text0,
    };
    let e = crate::parser::rule_engine::spec_eval_plain(host, r0, src, base);
    assert(e == crate::parser::rule_engine::non_empty(text1));
    let plain = match e {
        Some(t) => t,
        None => Seq::<char>::empty(),
    };
    assert(plain =~= text1);
}

proof fn lemma_split_with_part(r0: Seq<char>, part: Seq<char>)
    requires
        trim(r0) == r0,
        !contains(r0, seq!['#', '#']),
        r0.len() > 0 ==> r0.last() != '#',
    ensures
        crate::parser::rule_engine::spec_split_legado_regex(r0 + seq!['#', '#'] + part) == (
            r0,
            Some(seq!['#', '#'] + part),
        ),
        crate::parser::rule_engine::spec_split_legado_regex(r0) == (r0, Option::<Seq<char>>::None),
{
    let s = r0 + seq!['#', '#'] + part;
    lemma_find_doubled(r0, '#', part);
    assert(crate::parser::rule_engine::lit_hashes() =~= seq!['#', '#']);
    assert(s.take(r0.len() as int) =~= r0);
    assert(s.skip(r0.len() as int) =~= seq!['#', '#'] + part);
}

/// A field rule `r0##part` on an element or a JSON value gives what `r0`
/// alone gives with the replacement part `##part` applied (nothing when
/// that is empty), and leaves the variables as they are.
pub proof fn law_replacement_part_applies<H: RuleHost>(
    host: &H,
    r0: Seq<char>,
    part: Seq<char>,
    src: FieldSource<'_>,
    base: Seq<char>,
    vars: Map<Seq<char>, Seq<char>>,
)
    requires
        !(src is Document),
        trim(r0) == r0,
        !contains(r0, seq!['#', '#']),
        r0.len() > 0 ==> r0.last() != '#',
        !has_prefix(r0, lit_put()),
        !has_prefix(r0, lit_get()),
    ensures
        ({
            let plain = match spec_eval_field(host, r0, src, base, vars).0 {
                Some(t) => t,
                None => Seq::<char>::empty(),
            };
            let t = spec_apply_legado_regex(plain, seq!['#', '#'] + part);
            let r = spec_eval_field(host, r0 + seq!['#', '#'] + part, src, base, vars);
            &&& r.0 == (if t.len() == 0 {
                None
            } else {
                Some(t)
            })
            &&& r.1 == vars
        }),
{
    let s = r0 + seq!['#', '#'] + part;
    lemma_no_marker_prefix(r0, part, lit_put());
    lemma_no_marker_prefix(r0, part, lit_get());
    lemma_split_with_part(r0, part);
    lemma_field_is_plain(host, s, src, base, vars);
    lemma_field_is_plain(host, r0, src, base, vars);
    lemma_plain_with_part(host, r0, part, src, base);
}

} // verus!
