//! Properties of the library that span its operations.

use vstd::prelude::*;
use crate::parser::legado::{
    class_prefix, id_prefix, spec_legado_to_css, tag_prefix, combine, interleave, interleave_upto, merge_step, pick_index, select_by_index, without_positions,
};
use crate::api::bookmark::{
    bookmark_key, key_position_from, names_book, other_book, spec_remove, spec_upsert, spec_upsert_all,
};
use crate::model::bookmark::Bookmark;
use crate::parser::context::map_get;
use crate::parser::rule_engine::{
    braced, explore_rule_of, lit_get, lit_hashes, lit_http, lit_https, lit_https_colon, lit_js_at,
    lit_js_open, lit_put, or_empty, put_all, put_entry, search_rule_of, spec_apply_legado_regex,
    spec_chapter_list, spec_eval_field, spec_extract_js, spec_resolve_url, spec_search_with_rule,
    spec_split_legado_regex, spec_book_info, toc_html_fold, toc_json_fold, FieldSource, RuleHost,
};
use crate::model::book_chapter::BookChapterView;
use crate::model::book_source::{BookSource, SearchRule, TocRule};
use crate::strings::{
    find, has_prefix, is_ws, join, lemma_find_char_absent, lemma_find_char_first, lead_ws, lemma_lead_word, lemma_lead_word_at, lemma_lead_ws,
    lemma_lead_ws_at, lead_word, strip_char, trim, words,
};
use crate::util::text::spec_strip_whitespace;

verus! {

/// Index 0 keeps every match.
pub proof fn law_index_zero_keeps_all<T>(m: Seq<T>)
    ensures
        select_by_index(m, seq![0i32], None) == m,
{
}

/// Index -1 picks the last match.
pub proof fn law_index_minus_one_is_last<T>(m: Seq<T>)
    requires
        m.len() > 0,
    ensures
        select_by_index(m, seq![-1i32], None) == seq![m.last()],
{
}

/// A positive index `n` picks the `n`-th match when there is one, and
/// nothing otherwise.
pub proof fn law_index_picks_nth<T>(m: Seq<T>, n: i32)
    requires
        n > 0,
    ensures
        n < m.len() ==> select_by_index(m, seq![n], None) == seq![m[n as int]],
        n >= m.len() ==> select_by_index(m, seq![n], None) == Seq::<T>::empty(),
{
}

proof fn lemma_without_first<T>(m: Seq<T>)
    requires
        0 < m.len() <= i32::MAX,
    ensures
        without_positions(m, seq![0i32]) == m.drop_first(),
    decreases m.len(),
{
    if m.len() == 1 {
        assert(seq![0i32].contains(0i32)) by {
            assert(seq![0i32][0] == 0i32);
        }
        assert(without_positions(m.drop_last(), seq![0i32]) =~= Seq::<T>::empty());
        assert(m.drop_first() =~= Seq::<T>::empty());
    } else {
        lemma_without_first(m.drop_last());
        let k = (m.len() - 1) as i32;
        assert(k == m.len() - 1);
        assert(!seq![0i32].contains(k)) by {
            if seq![0i32].contains(k) {
                let j = choose|j: int| 0 <= j < 1 && seq![0i32][j] == k;
                assert(j == 0);
                assert(seq![0i32][0] == 0i32);
            }
        }
        assert(m.drop_last().drop_first().push(m.last()) =~= m.drop_first());
    }
}

/// The exclusion `!0` drops the first match and keeps the others in order.
pub proof fn law_exclude_zero_drops_first<T>(m: Seq<T>)
    requires
        0 < m.len() <= i32::MAX,
    ensures
        select_by_index(m, seq![0i32], Some(seq![0i32])) == m.drop_first(),
{
    lemma_without_first(m);
}

proof fn lemma_interleave_upto_len<T>(a: Seq<T>, b: Seq<T>, n: int)
    requires
        0 <= n,
    ensures
        interleave_upto(a, b, n).len() == (if n < a.len() { n } else { a.len() as int }) + (if n
            < b.len() {
            n
        } else {
            b.len() as int
        }),
    decreases n,
{
    if n > 0 {
        lemma_interleave_upto_len(a, b, n - 1);
    }
}

/// `%%` keeps every element of both lists.
pub proof fn law_interleave_len<T>(a: Seq<T>, b: Seq<T>)
    ensures
        interleave(a, b).len() == a.len() + b.len(),
{
    lemma_interleave_upto_len(a, b, if a.len() >= b.len() { a.len() as int } else { b.len() as int });
}

proof fn lemma_interleave_upto_empty<T>(a: Seq<T>, n: int)
    requires
        0 <= n <= a.len(),
    ensures
        interleave_upto(a, Seq::<T>::empty(), n) == a.take(n),
    decreases n,
{
    if n > 0 {
        lemma_interleave_upto_empty(a, n - 1);
        assert(a.take(n - 1).push(a[n - 1]) =~= a.take(n));
    } else {
        assert(a.take(0) =~= Seq::<T>::empty());
    }
}

/// Interleaving with an empty list gives the list.
pub proof fn law_interleave_empty<T>(a: Seq<T>)
    ensures
        interleave(a, Seq::<T>::empty()) == a,
{
    lemma_interleave_upto_empty(a, a.len() as int);
    assert(a.take(a.len() as int) =~= a);
}

/// `&&` concatenates, and `||` falls back to the second list only when the
/// first is empty.
pub proof fn law_and_or<T>(a: Seq<T>, b: Seq<T>)
    ensures
        merge_step(a, b, '&') == a + b,
        a.len() > 0 ==> merge_step(a, b, '|') == a,
        a.len() == 0 ==> merge_step(a, b, '|') == b,
{
}

proof fn lemma_key_position_from<T>(list: Seq<Bookmark>, key: Seq<char>, i: int)
    requires
        0 <= i,
    ensures
        key_position_from(list, key, i) matches Some(p) ==> i <= p < list.len() && bookmark_key(list[p])
            == key && forall|q: int| i <= q < p ==> bookmark_key(#[trigger] list[q]) != key,
        key_position_from(list, key, i) is None ==> forall|q: int|
            i <= q < list.len() ==> bookmark_key(#[trigger] list[q]) != key,
    decreases list.len() - i,
{
    if i < list.len() && bookmark_key(list[i]) != key {
        lemma_key_position_from::<T>(list, key, i + 1);
    }
}

/// Storing a bookmark leaves it in the list, grows the list by at most one,
/// and keeps in place every bookmark stored under another key.
pub proof fn law_upsert_stores(list: Seq<Bookmark>, item: Bookmark)
    ensures
        spec_upsert(list, item).contains(item),
        spec_upsert(list, item).len() == list.len() || spec_upsert(list, item).len() == list.len() + 1,
        forall|q: int|
            0 <= q < list.len() && bookmark_key(list[q]) != bookmark_key(item) ==> #[trigger] spec_upsert(
                list,
                item,
            )[q] == list[q],
{
    lemma_key_position_from::<()>(list, bookmark_key(item), 0);
    let r = spec_upsert(list, item);
    match key_position_from(list, bookmark_key(item), 0) {
        Some(p) => {
            assert(r[p] == item);
        },
        None => {
            assert(r[list.len() as int] == item);
        },
    }
}

/// Keys are unique in a list where no two bookmarks share a key.
pub open spec fn keys_unique(list: Seq<Bookmark>) -> bool {
    forall|i: int, j: int|
        0 <= i < list.len() && 0 <= j < list.len() && i != j ==> bookmark_key(#[trigger] list[i])
            != bookmark_key(#[trigger] list[j])
}

/// Storing a bookmark keeps keys unique.
pub proof fn law_upsert_keeps_keys_unique(list: Seq<Bookmark>, item: Bookmark)
    requires
        keys_unique(list),
    ensures
        keys_unique(spec_upsert(list, item)),
{
    lemma_key_position_from::<()>(list, bookmark_key(item), 0);
    let r = spec_upsert(list, item);
    assert forall|i: int, j: int|
        0 <= i < r.len() && 0 <= j < r.len() && i != j implies bookmark_key(#[trigger] r[i])
        != bookmark_key(#[trigger] r[j]) by {
        match key_position_from(list, bookmark_key(item), 0) {
            Some(p) => {
                if i == p {
                    assert(bookmark_key(list[p]) == bookmark_key(item));
                    assert(bookmark_key(list[j]) != bookmark_key(list[p]));
                } else if j == p {
                    assert(bookmark_key(list[i]) != bookmark_key(list[p]));
                }
            },
            None => {
                if i == list.len() {
                    assert(bookmark_key(r[j]) == bookmark_key(list[j]));
                } else if j == list.len() {
                    assert(bookmark_key(r[i]) == bookmark_key(list[i]));
                }
            },
        }
    }
}

/// After removing a book's bookmarks none of them is left, and the other
/// bookmarks stay in order.
pub proof fn law_remove_drops_book(list: Seq<Bookmark>, name: Seq<char>, author: Seq<char>)
    ensures
        forall|b: Bookmark|
            #[trigger] spec_remove(list, name, author).contains(b) ==> !(b.book_name@ == name
                && b.book_author@ == author),
        forall|b: Bookmark|
            list.contains(b) && !(b.book_name@ == name && b.book_author@ == author) ==> #[trigger] spec_remove(
                list,
                name,
                author,
            ).contains(b),
{
    let f = other_book(name, author);
    assert forall|b: Bookmark| #[trigger] spec_remove(list, name, author).contains(b) implies !(
    b.book_name@ == name && b.book_author@ == author) by {
        broadcast use vstd::seq_lib::group_filter_ensures;
        let k = choose|k: int| 0 <= k < list.filter(f).len() && list.filter(f)[k] == b;
        assert(f(list.filter(f)[k]));
    }
    assert forall|b: Bookmark|
        list.contains(b) && !(b.book_name@ == name && b.book_author@ == author) implies #[trigger] spec_remove(
        list,
        name,
        author,
    ).contains(b) by {
        broadcast use vstd::seq_lib::group_filter_ensures;
        let k = choose|k: int| 0 <= k < list.len() && list[k] == b;
        assert(f(list[k]));
        assert(list.filter(f).contains(list[k]));
    }
}

/// The value stored under a key is what a read of the key gives, and
/// storing under another key leaves it.
pub proof fn law_get_after_put(m: Map<Seq<char>, Seq<char>>, k: Seq<char>, v: Seq<char>, other: Seq<char>)
    ensures
        map_get(m.insert(k, v), k) == Some(v),
        other != k ==> map_get(m.insert(k, v), other) == map_get(m, other),
{
}


proof fn lemma_toc_html_positions<H: RuleHost>(
    host: &H,
    rule: TocRule,
    items: Seq<scraper::ElementRef<'_>>,
    base: Seq<char>,
    ctx0: Map<Seq<char>, Seq<char>>,
    n: int,
)
    requires
        0 <= n,
    ensures
        toc_html_fold(host, rule, items, base, ctx0, n).0.len() == n,
        forall|i: int|
            0 <= i < n ==> #[trigger] toc_html_fold(host, rule, items, base, ctx0, n).0[i].index == i as i32,
    decreases n,
{
    if n > 0 {
        lemma_toc_html_positions(host, rule, items, base, ctx0, n - 1);
    }
}

proof fn lemma_toc_json_positions<H: RuleHost>(
    host: &H,
    rule: TocRule,
    items: Seq<serde_json::Value>,
    base: Seq<char>,
    ctx0: Map<Seq<char>, Seq<char>>,
    n: int,
)
    requires
        0 <= n,
    ensures
        toc_json_fold(host, rule, items, base, ctx0, n).0.len() == n,
        forall|i: int|
            0 <= i < n ==> #[trigger] toc_json_fold(host, rule, items, base, ctx0, n).0[i].index == i as i32,
    decreases n,
{
    if n > 0 {
        lemma_toc_json_positions(host, rule, items, base, ctx0, n - 1);
    }
}

/// Chapters are numbered by their position in the table of contents.
pub proof fn law_chapter_positions<H: RuleHost>(host: &H, rule: TocRule, body: Seq<char>, base: Seq<char>)
    ensures
        forall|i: int|
            0 <= i < spec_chapter_list(host, rule, body, base).len() && i <= i32::MAX ==> #[trigger] spec_chapter_list(
                host,
                rule,
                body,
                base,
            )[i].index == i,
{
    let r = spec_chapter_list(host, rule, body, base);
    assert forall|i: int| 0 <= i < r.len() && i <= i32::MAX implies #[trigger] r[i].index == i by {
        if crate::parser::rule_engine::spec_is_json(body) && crate::parser::rule_engine::is_json_path_rule(
            rule.chapter_list,
        ) {
            match crate::util::json::json_parse(body) {
                None => {},
                Some(v) => {
                    let doc_ctx = crate::parser::rule_engine::ctx_field(
                        host,
                        rule.init,
                        FieldSource::Json(&v),
                        base,
                        Map::empty(),
                    ).1;
                    let items = host.json_query_result(v, crate::parser::rule_engine::rule_text(rule.chapter_list));
                    lemma_toc_json_positions(host, rule, items, base, doc_ctx, items.len() as int);
                },
            }
        } else {
            match rule.chapter_list {
                None => {},
                Some(l) => {
                    let doc = crate::parser::html::parsed_html(body);
                    let doc_ctx = crate::parser::rule_engine::ctx_field(
                        host,
                        rule.init,
                        FieldSource::Document(&doc),
                        base,
                        Map::empty(),
                    ).1;
                    let items = crate::parser::html::spec_select_list(&doc, l@);
                    lemma_toc_html_positions(host, rule, items, base, doc_ctx, items.len() as int);
                },
            }
        }
    }
}

/// Every book a search lists carries the URL of the source it came from.
pub proof fn law_search_origin<H: RuleHost>(host: &H, source: BookSource, rule: SearchRule, body: Seq<char>, base: Seq<char>)
    ensures
        forall|i: int|
            0 <= i < spec_search_with_rule(host, source, rule, body, base).len() ==> #[trigger] spec_search_with_rule(
                host,
                source,
                rule,
                body,
                base,
            )[i].origin == source.book_source_url@,
{
}

/// The rule `@get:{key}`.
pub open spec fn get_rule(key: Seq<char>) -> Seq<char> {
    lit_get() + seq!['{'] + key + seq!['}']
}

/// The rule `@put:{key:value}`.
pub open spec fn put_rule(key: Seq<char>, value: Seq<char>) -> Seq<char> {
    lit_put() + seq!['{'] + key + seq![':'] + value + seq!['}']
}

/// `@get:{key}` gives the variable stored under `key` when there is one,
/// and leaves the variables as they are.
pub proof fn law_get_reads_variable<H: RuleHost>(
    host: &H,
    key: Seq<char>,
    src: FieldSource<'_>,
    base: Seq<char>,
    ctx: Map<Seq<char>, Seq<char>>,
)
    requires
        trim(key) == key,
    ensures
        spec_eval_field(host, get_rule(key), src, base, ctx).1 == ctx,
        ctx.dom().contains(key) ==> spec_eval_field(host, get_rule(key), src, base, ctx).0 == Some(
            ctx[key],
        ),
{
    let r = get_rule(key);
    assert(r.take(5)[1] == 'g');
    assert(!has_prefix(r, lit_put()));
    assert(r.take(5) =~= lit_get());
    assert(r.skip(5) =~= seq!['{'] + key + seq!['}']);
    assert(braced(r.skip(5)));
    assert(crate::parser::rule_engine::braced_inner(r.skip(5)) =~= key);
}

/// What `@put:{key:rule}` stores is what a later `@get:{key}` reads back:
/// the text of `rule` (without its quotes), or the empty text when it
/// selects nothing.
pub proof fn law_put_then_get<H: RuleHost>(
    host: &H,
    key: Seq<char>,
    value_rule: Seq<char>,
    src: FieldSource<'_>,
    later: FieldSource<'_>,
    base: Seq<char>,
    ctx: Map<Seq<char>, Seq<char>>,
)
    requires
        trim(key) == key,
        !key.contains(':'),
        !key.contains(','),
        !value_rule.contains(','),
    ensures
        ({
            let put = spec_eval_field(host, put_rule(key, value_rule), src, base, ctx);
            let stored = or_empty(spec_eval_field(host, strip_char(trim(value_rule), '"'), src, base, ctx).0);
            &&& put.0 == Some(Seq::<char>::empty())
            &&& put.1 == spec_eval_field(host, strip_char(trim(value_rule), '"'), src, base, ctx).1.insert(
                key,
                stored,
            )
            &&& spec_eval_field(host, get_rule(key), later, base, put.1).0 == Some(stored)
        }),
{
    let r = put_rule(key, value_rule);
    let inner = key + seq![':'] + value_rule;
    assert(r.take(5) =~= lit_put());
    assert(r.skip(5) =~= seq!['{'] + inner + seq!['}']);
    assert(braced(r.skip(5)));
    assert(crate::parser::rule_engine::braced_inner(r.skip(5)) =~= inner);
    assert(!inner.contains(',')) by {
        if inner.contains(',') {
            let j = choose|j: int| 0 <= j < inner.len() && inner[j] == ',';
            if j < key.len() {
                assert(key[j] == ',');
            } else if j > key.len() {
                assert(value_rule[j - key.len() - 1] == ',');
            }
        }
    }
    lemma_find_char_absent(inner, ',');
    lemma_find_char_first(key, ':', value_rule);
    assert(inner.take(key.len() as int) =~= key);
    assert(inner.skip(key.len() as int + 1) =~= value_rule);
    assert(put_entry(inner) == Some((key, strip_char(trim(value_rule), '"'))));
    let v = spec_eval_field(host, strip_char(trim(value_rule), '"'), src, base, ctx);
    let after = put_all(host, r.len() as int, inner, src, base, ctx);
    assert(after == v.1.insert(key, or_empty(v.0)));
    law_get_reads_variable(host, key, later, base, after);
}


/// Saving the same bookmark twice leaves the list as saving it once.
pub proof fn law_upsert_idempotent(list: Seq<Bookmark>, item: Bookmark)
    ensures
        spec_upsert(spec_upsert(list, item), item) == spec_upsert(list, item),
{
    let key = bookmark_key(item);
    let r = spec_upsert(list, item);
    lemma_key_position_from::<()>(list, key, 0);
    lemma_key_position_from::<()>(r, key, 0);
    let p: int = match key_position_from(list, key, 0) {
        Some(p) => p,
        None => list.len() as int,
    };
    assert(r[p] == item);
    assert forall|q: int| 0 <= q < p implies bookmark_key(#[trigger] r[q]) != key by {
        assert(r[q] == list[q]);
    }
    assert(key_position_from(r, key, 0) == Some(p)) by {
        match key_position_from(r, key, 0) {
            Some(p2) => {
                if p2 < p {
                    assert(bookmark_key(r[p2]) != key);
                }
                if p2 > p {
                    assert(bookmark_key(r[p]) == key);
                }
            },
            None => {
                assert(bookmark_key(r[p]) == key);
            },
        }
    }
    assert(r.update(p, item) =~= r);
}

/// An empty URL resolves to the base, an absolute URL to itself and a
/// protocol-relative URL to its `https:` form.
pub proof fn law_resolve_url_fixed_forms(base: Seq<char>, url: Seq<char>)
    ensures
        url.len() == 0 ==> spec_resolve_url(base, url) == base,
        has_prefix(url, lit_http()) || has_prefix(url, lit_https()) ==> spec_resolve_url(base, url) == url,
        url.len() > 0 && has_prefix(url, seq!['/', '/']) ==> spec_resolve_url(base, url) == lit_https_colon()
            + url,
{
    if has_prefix(url, lit_http()) || has_prefix(url, lit_https()) {
        if has_prefix(url, lit_http()) {
            assert(url.take(7)[0] == 'h');
        } else {
            assert(url.take(8)[0] == 'h');
        }
    }
}

/// A blank replacement part leaves the text as it is.
pub proof fn law_blank_regex_keeps_text(text: Seq<char>, regex_part: Seq<char>)
    requires
        trim(regex_part).len() == 0,
    ensures
        spec_apply_legado_regex(text, regex_part) == text,
{
}

/// A rule with no `<js>` and no `@js:` has no script and is kept whole.
pub proof fn law_rule_without_script(rule: Seq<char>)
    requires
        find(rule, lit_js_open()) is None,
        find(rule, lit_js_at()) is None,
    ensures
        spec_extract_js(rule) == (rule, Option::<Seq<char>>::None),
{
}

/// A rule with no `##` has no replacement part and is kept whole.
pub proof fn law_rule_without_regex(rule: Seq<char>)
    requires
        find(rule, lit_hashes()) is None,
    ensures
        spec_split_legado_regex(rule) == (rule, Option::<Seq<char>>::None),
{
}

/// A source without an explore rule explores with its search rule.
pub proof fn law_explore_falls_back<H: RuleHost>(host: &H, source: BookSource, body: Seq<char>, base: Seq<char>)
    requires
        source.rule_explore is None,
    ensures
        spec_search_with_rule(host, source, explore_rule_of(source), body, base) == spec_search_with_rule(
            host,
            source,
            search_rule_of(source),
            body,
            base,
        ),
{
}


/// A book's details keep the page's book URL and the source's URL and
/// name, and always have a table-of-contents URL (the book URL when the
/// rules give none).
pub proof fn law_book_info_identity<H: RuleHost>(
    host: &H,
    source: BookSource,
    body: Seq<char>,
    base: Seq<char>,
    book_url: Seq<char>,
)
    ensures
        spec_book_info(host, source, body, base, book_url).book_url == book_url,
        spec_book_info(host, source, body, base, book_url).origin == source.book_source_url@,
        spec_book_info(host, source, body, base, book_url).origin_name == Some(source.book_source_name@),
        spec_book_info(host, source, body, base, book_url).toc_url is Some,
{
}


proof fn lemma_trim_unpadded(s: Seq<char>)
    requires
        s.len() > 0,
        !is_ws(s[0]),
        !is_ws(s.last()),
    ensures
        trim(s) == s,
{
}

/// `id.x` selects the element with id `x`, written `#x`.
pub proof fn law_css_id(x: Seq<char>)
    requires
        x.len() == 0 || !is_ws(x.last()),
    ensures
        spec_legado_to_css(id_prefix() + x) == seq!['#'] + x,
{
    let s = id_prefix() + x;
    assert(s[0] == 'i');
    assert(s.last() == (if x.len() == 0 { '.' } else { x.last() }));
    lemma_trim_unpadded(s);
    assert(!has_prefix(s, class_prefix())) by {
        if has_prefix(s, class_prefix()) {
            assert(s.take(6)[0] == 'c');
        }
    }
    assert(s.take(3) =~= id_prefix());
    assert(s.skip(3) =~= x);
}

/// `tag.x` selects the elements named `x`.
pub proof fn law_css_tag(x: Seq<char>)
    requires
        x.len() == 0 || !is_ws(x.last()),
    ensures
        spec_legado_to_css(tag_prefix() + x) == x,
{
    let s = tag_prefix() + x;
    assert(s[0] == 't');
    assert(s.last() == (if x.len() == 0 { '.' } else { x.last() }));
    lemma_trim_unpadded(s);
    assert(!has_prefix(s, class_prefix())) by {
        if has_prefix(s, class_prefix()) {
            assert(s.take(6)[0] == 'c');
        }
    }
    assert(!has_prefix(s, id_prefix())) by {
        if has_prefix(s, id_prefix()) {
            assert(s.take(3)[0] == 'i');
        }
    }
    assert(s.take(4) =~= tag_prefix());
    assert(s.skip(4) =~= x);
}

/// A selector already written in CSS (starting with `.`, `#` or `[`) is
/// kept as it is, up to surrounding whitespace.
pub proof fn law_css_kept(s: Seq<char>)
    requires
        s.len() > 0,
        s[0] == '.' || s[0] == '#' || s[0] == '[',
        !is_ws(s.last()),
    ensures
        spec_legado_to_css(s) == s,
{
    lemma_trim_unpadded(s);
    assert(!has_prefix(s, class_prefix())) by {
        if has_prefix(s, class_prefix()) {
            assert(s.take(6)[0] == 'c');
        }
    }
    assert(!has_prefix(s, id_prefix())) by {
        if has_prefix(s, id_prefix()) {
            assert(s.take(3)[0] == 'i');
        }
    }
    assert(!has_prefix(s, tag_prefix())) by {
        if has_prefix(s, tag_prefix()) {
            assert(s.take(4)[0] == 't');
        }
    }
}


proof fn lemma_join_first(ws: Seq<Seq<char>>, sep: Seq<char>)
    requires
        ws.len() >= 2,
    ensures
        join(ws, sep) == ws[0] + sep + join(ws.drop_first(), sep),
    decreases ws.len(),
{
    if ws.len() == 2 {
        assert(ws.drop_last().len() == 1);
        assert(ws.drop_first().len() == 1);
        assert(join(ws.drop_last(), sep) == ws[0]);
        assert(join(ws.drop_first(), sep) == ws[1]);
    } else {
        lemma_join_first(ws.drop_last(), sep);
        assert(ws.drop_last().drop_first() =~= ws.drop_first().drop_last());
        assert(ws.drop_first().last() == ws.last());
        assert(join(ws, sep) =~= ws[0] + sep + join(ws.drop_first(), sep));
    }
}

/// A non-empty run of non-whitespace characters.
spec fn is_word(w: Seq<char>) -> bool {
    w.len() > 0 && forall|k: int| 0 <= k < w.len() ==> !is_ws(#[trigger] w[k])
}

proof fn lemma_words_lead(w: Seq<char>, rest: Seq<char>)
    requires
        is_word(w),
        rest.len() == 0 || is_ws(rest[0]),
    ensures
        words(w + rest) == seq![w] + words(rest),
{
    let s = w + rest;
    lemma_lead_ws_at(s, 0);
    assert(s.skip(0) =~= s);
    lemma_lead_word_at(s, w.len() as int);
    assert(s.take(w.len() as int) =~= w);
    assert(s.skip(w.len() as int) =~= rest);
}

proof fn lemma_words_space(rest: Seq<char>)
    ensures
        words(seq![' '] + rest) == words(rest),
{
    let s = seq![' '] + rest;
    lemma_lead_ws(rest);
    let n = lead_ws(rest) as int;
    assert forall|k: int| 0 <= k < n + 1 implies is_ws(#[trigger] s[k]) by {
        if k > 0 {
            assert(s[k] == rest[k - 1]);
        }
    }
    if n < rest.len() {
        assert(s[n + 1] == rest[n]);
    }
    lemma_lead_ws_at(s, n + 1);
    assert(s.skip(n + 1) =~= rest.skip(n));
}

proof fn lemma_words_join(ws: Seq<Seq<char>>)
    requires
        forall|i: int| 0 <= i < ws.len() ==> is_word(#[trigger] ws[i]),
    ensures
        words(join(ws, seq![' '])) == ws,
    decreases ws.len(),
{
    if ws.len() == 0 {
        assert(words(Seq::<char>::empty()) =~= Seq::<Seq<char>>::empty());
    } else if ws.len() == 1 {
        assert(is_word(ws[0]));
        lemma_words_lead(ws[0], Seq::<char>::empty());
        assert(ws[0] + Seq::<char>::empty() =~= ws[0]);
        assert(words(Seq::<char>::empty()) =~= Seq::<Seq<char>>::empty());
        assert(seq![ws[0]] =~= ws);
    } else {
        lemma_join_first(ws, seq![' ']);
        let tail = join(ws.drop_first(), seq![' ']);
        assert(is_word(ws[0]));
        assert forall|i: int| 0 <= i < ws.drop_first().len() implies is_word(#[trigger] ws.drop_first()[i]) by {
            assert(ws.drop_first()[i] == ws[i + 1]);
        }
        lemma_words_join(ws.drop_first());
        lemma_words_lead(ws[0], seq![' '] + tail);
        assert(ws[0] + seq![' '] + tail =~= ws[0] + (seq![' '] + tail));
        lemma_words_space(tail);
        assert(seq![ws[0]] + ws.drop_first() =~= ws);
    }
}

proof fn lemma_words_are_words(s: Seq<char>)
    ensures
        forall|i: int| 0 <= i < words(s).len() ==> is_word(#[trigger] words(s)[i]),
    decreases s.len(),
{
    lemma_lead_ws(s);
    let t = s.skip(lead_ws(s) as int);
    if t.len() > 0 {
        lemma_lead_word(t);
        assert(t[0] == s[lead_ws(s) as int]);
        let w = t.take(lead_word(t) as int);
        assert(is_word(w));
        lemma_words_are_words(t.skip(lead_word(t) as int));
        let r = words(t.skip(lead_word(t) as int));
        assert forall|i: int| 0 <= i < words(s).len() implies is_word(#[trigger] words(s)[i]) by {
            if i > 0 {
                assert(words(s)[i] == r[i - 1]);
            }
        }
    }
}

/// Collapsing whitespace twice gives what collapsing it once gives.
pub proof fn law_strip_whitespace_idempotent(s: Seq<char>)
    ensures
        spec_strip_whitespace(spec_strip_whitespace(s)) == spec_strip_whitespace(s),
{
    lemma_words_are_words(s);
    lemma_words_join(words(s));
}


proof fn lemma_strip_quote_free(r: Seq<char>)
    requires
        !r.contains('"'),
    ensures
        strip_char(r, '"') == r,
{
    if r.len() > 0 {
        assert(r.contains(r[0]));
        assert(r.contains(r[r.len() - 1]));
    }
    assert(crate::strings::strip_lead_char(r, '"') == r);
    assert(crate::strings::strip_trail_char(r, '"') == r);
}

proof fn lemma_plain_rule_keeps_vars<H: RuleHost>(
    host: &H,
    rule: Seq<char>,
    src: FieldSource<'_>,
    base: Seq<char>,
    ctx: Map<Seq<char>, Seq<char>>,
)
    requires
        !has_prefix(rule, lit_put()),
    ensures
        spec_eval_field(host, rule, src, base, ctx).1 == ctx,
{
}

/// `@put:{key:rule}` stores under `key` what `rule` gives on the same
/// element and variables (the empty text when it gives nothing), leaves
/// every other variable as it was, and gives the empty text; a later
/// `@get:{key}` reads the stored value back.
pub proof fn law_put_stores_value<H: RuleHost>(
    host: &H,
    key: Seq<char>,
    value_rule: Seq<char>,
    src: FieldSource<'_>,
    later: FieldSource<'_>,
    base: Seq<char>,
    ctx: Map<Seq<char>, Seq<char>>,
)
    requires
        trim(key) == key,
        !key.contains(':'),
        !key.contains(','),
        trim(value_rule) == value_rule,
        !value_rule.contains(','),
        !value_rule.contains('"'),
        !has_prefix(value_rule, lit_put()),
    ensures
        ({
            let put = spec_eval_field(host, put_rule(key, value_rule), src, base, ctx);
            let stored = or_empty(spec_eval_field(host, value_rule, src, base, ctx).0);
            &&& put.0 == Some(Seq::<char>::empty())
            &&& put.1 == ctx.insert(key, stored)
            &&& spec_eval_field(host, get_rule(key), later, base, put.1).0 == Some(put.1[key])
        }),
{
    lemma_strip_quote_free(value_rule);
    lemma_plain_rule_keeps_vars(host, value_rule, src, base, ctx);
    law_put_then_get(host, key, value_rule, src, later, base, ctx);
}


/// Text with no leading or trailing whitespace, in which every whitespace
/// character is a space and no two whitespace characters are adjacent.
pub open spec fn collapsed(t: Seq<char>) -> bool {
    &&& t.len() > 0 ==> !is_ws(t[0]) && !is_ws(t.last())
    &&& forall|i: int| 0 <= i < t.len() && is_ws(#[trigger] t[i]) ==> t[i] == ' '
    &&& forall|i: int| 0 <= i < t.len() - 1 ==> !(is_ws(#[trigger] t[i]) && is_ws(t[i + 1]))
}

proof fn lemma_join_words_collapsed(ws: Seq<Seq<char>>)
    requires
        forall|i: int| 0 <= i < ws.len() ==> is_word(#[trigger] ws[i]),
    ensures
        collapsed(join(ws, seq![' '])),
        ws.len() > 0 ==> join(ws, seq![' ']).len() > 0,
    decreases ws.len(),
{
    if ws.len() == 1 {
        assert(is_word(ws[0]));
    } else if ws.len() >= 2 {
        let p = join(ws.drop_last(), seq![' ']);
        let l = ws.last();
        assert forall|i: int| 0 <= i < ws.drop_last().len() implies is_word(#[trigger] ws.drop_last()[i]) by {
            assert(ws.drop_last()[i] == ws[i]);
        }
        lemma_join_words_collapsed(ws.drop_last());
        assert(is_word(ws[ws.len() - 1]));
        let j = join(ws, seq![' ']);
        assert(j == p + seq![' '] + l);
        let n = p.len() as int;
        assert(j[0] == p[0]);
        assert(j.last() == l.last());
        assert forall|i: int| 0 <= i < j.len() && is_ws(#[trigger] j[i]) implies j[i] == ' ' by {
            if i < n {
                assert(j[i] == p[i]);
            } else if i > n {
                assert(j[i] == l[i - n - 1]);
            }
        }
        assert forall|i: int| 0 <= i < j.len() - 1 implies !(is_ws(#[trigger] j[i]) && is_ws(j[i + 1])) by {
            if i < n - 1 {
                assert(j[i] == p[i]);
                assert(j[i + 1] == p[i + 1]);
            } else if i == n - 1 {
                assert(j[i] == p.last());
            } else if i == n {
                assert(j[i + 1] == l[0]);
            } else {
                assert(j[i] == l[i - n - 1]);
            }
        }
    }
}

/// Collapsing whitespace leaves no leading or trailing whitespace, turns
/// every run of whitespace between words into one space, and keeps the
/// words.
pub proof fn law_strip_whitespace_collapses(s: Seq<char>)
    ensures
        collapsed(spec_strip_whitespace(s)),
        words(spec_strip_whitespace(s)) == words(s),
{
    lemma_words_are_words(s);
    lemma_join_words_collapsed(words(s));
    lemma_words_join(words(s));
}


/// The bookmark a list holds under a key: the first one with that key.
pub open spec fn stored_under(list: Seq<Bookmark>, key: Seq<char>) -> Option<Bookmark> {
    match key_position_from(list, key, 0) {
        Some(p) => Some(list[p]),
        None => None,
    }
}

/// The last of the given bookmarks with the key, if any.
pub open spec fn last_with_key(given: Seq<Bookmark>, key: Seq<char>) -> Option<Bookmark>
    decreases given.len(),
{
    if given.len() == 0 {
        None
    } else if bookmark_key(given.last()) == key {
        Some(given.last())
    } else {
        last_with_key(given.drop_last(), key)
    }
}

proof fn lemma_first_key_at(s: Seq<Bookmark>, key: Seq<char>, i: int, q: int)
    requires
        0 <= i <= q < s.len(),
        bookmark_key(s[q]) == key,
        forall|j: int| i <= j < q ==> bookmark_key(#[trigger] s[j]) != key,
    ensures
        key_position_from(s, key, i) == Some(q),
    decreases q - i,
{
    if i < q {
        lemma_first_key_at(s, key, i + 1, q);
    }
}

proof fn lemma_no_key_from(s: Seq<Bookmark>, key: Seq<char>, i: int)
    requires
        0 <= i,
        forall|j: int| i <= j < s.len() ==> bookmark_key(#[trigger] s[j]) != key,
    ensures
        key_position_from(s, key, i) is None,
    decreases s.len() - i,
{
    if i < s.len() {
        lemma_no_key_from(s, key, i + 1);
    }
}

/// Storing a bookmark makes it the one held under its key and leaves what
/// is held under every other key.
pub proof fn law_upsert_stored_under(list: Seq<Bookmark>, item: Bookmark, key: Seq<char>)
    ensures
        stored_under(spec_upsert(list, item), key) == (if key == bookmark_key(item) {
            Some(item)
        } else {
            stored_under(list, key)
        }),
{
    let r = spec_upsert(list, item);
    let k = bookmark_key(item);
    lemma_key_position_from::<()>(list, k, 0);
    lemma_key_position_from::<()>(list, key, 0);
    let n = list.len() as int;
    let p: int = match key_position_from(list, k, 0) {
        Some(p) => p,
        None => n,
    };
    assert(r.len() == if p == n { n + 1 } else { n });
    assert(r[p] == item);
    assert forall|j: int| 0 <= j < r.len() && j != p implies r[j] == list[j] by {}
    if key == k {
        assert forall|j: int| 0 <= j < p implies bookmark_key(#[trigger] r[j]) != key by {
            assert(r[j] == list[j]);
        }
        lemma_first_key_at(r, key, 0, p);
    } else {
        match key_position_from(list, key, 0) {
            Some(q) => {
                if q == p {
                    assert(bookmark_key(list[p]) == k);
                }
                assert forall|j: int| 0 <= j < q implies bookmark_key(#[trigger] r[j]) != key by {
                    if j != p {
                        assert(r[j] == list[j]);
                    }
                }
                assert(r[q] == list[q]);
                lemma_first_key_at(r, key, 0, q);
            },
            None => {
                assert forall|j: int| 0 <= j < r.len() implies bookmark_key(#[trigger] r[j]) != key by {
                    if j != p {
                        assert(r[j] == list[j]);
                    }
                }
                lemma_no_key_from(r, key, 0);
            },
        }
    }
}

proof fn lemma_upsert_all_stored_under(list: Seq<Bookmark>, items: Seq<Bookmark>, key: Seq<char>)
    ensures
        stored_under(spec_upsert_all(list, items), key) == (match last_with_key(items, key) {
            Some(b) => Some(b),
            None => stored_under(list, key),
        }),
    decreases items.len(),
{
    if items.len() > 0 {
        lemma_upsert_all_stored_under(list, items.drop_last(), key);
        law_upsert_stored_under(spec_upsert_all(list, items.drop_last()), items.last(), key);
    }
}

proof fn lemma_blank_key(b: Bookmark, c: Bookmark)
    requires
        b.book_name@.len() > 0 || b.book_author@.len() > 0,
        bookmark_key(c) == bookmark_key(b),
    ensures
        c.book_name@.len() > 0 || c.book_author@.len() > 0,
{
    assert(bookmark_key(c).len() == c.book_name@.len() + 1 + c.book_author@.len());
    assert(bookmark_key(b).len() == b.book_name@.len() + 1 + b.book_author@.len());
}

proof fn lemma_filter_keeps_last(given: Seq<Bookmark>, b: Bookmark)
    requires
        b.book_name@.len() > 0 || b.book_author@.len() > 0,
    ensures
        last_with_key(given.filter(names_book()), bookmark_key(b)) == last_with_key(given, bookmark_key(b)),
    decreases given.len(),
{
    reveal_with_fuel(Seq::filter, 1);
    if given.len() > 0 {
        lemma_filter_keeps_last(given.drop_last(), b);
        let f = given.drop_last().filter(names_book());
        if bookmark_key(given.last()) == bookmark_key(b) {
            lemma_blank_key(b, given.last());
            assert(given.filter(names_book()) == f.push(given.last()));
            assert(f.push(given.last()).last() == given.last());
            assert(f.push(given.last()).drop_last() =~= f);
        } else {
            if names_book()(given.last()) {
                assert(given.filter(names_book()) == f.push(given.last()));
                assert(f.push(given.last()).drop_last() =~= f);
            }
        }
    }
}

/// Saving many bookmarks stores every one that names a book or an author:
/// afterwards each such bookmark's key holds the last of the given
/// bookmarks with that key.
pub proof fn law_add_bookmarks_stores(list: Seq<Bookmark>, given: Seq<Bookmark>)
    ensures
        forall|j: int|
            0 <= j < given.len() && (given[j].book_name@.len() > 0 || given[j].book_author@.len() > 0)
                ==> #[trigger] stored_under(
                spec_upsert_all(list, given.filter(names_book())),
                bookmark_key(given[j]),
            ) == last_with_key(given, bookmark_key(given[j])) && last_with_key(
                given,
                bookmark_key(given[j]),
            ) is Some,
{
    assert forall|j: int|
        0 <= j < given.len() && (given[j].book_name@.len() > 0 || given[j].book_author@.len() > 0) implies
        #[trigger] stored_under(spec_upsert_all(list, given.filter(names_book())), bookmark_key(given[j]))
        == last_with_key(given, bookmark_key(given[j])) && last_with_key(given, bookmark_key(given[j])) is Some by {
        let b = given[j];
        lemma_filter_keeps_last(given, b);
        lemma_upsert_all_stored_under(list, given.filter(names_book()), bookmark_key(b));
        lemma_last_with_key_found(given, j);
    }
}

proof fn lemma_last_with_key_found(given: Seq<Bookmark>, j: int)
    requires
        0 <= j < given.len(),
    ensures
        last_with_key(given, bookmark_key(given[j])) is Some,
    decreases given.len(),
{
    if j < given.len() - 1 && bookmark_key(given.last()) != bookmark_key(given[j]) {
        assert(given.drop_last()[j] == given[j]);
        lemma_last_with_key_found(given.drop_last(), j);
    }
}

} // verus!
