//! Evaluating a book source's rules against a fetched page: field rules
//! with `@put`/`@get`, `<js>`/`@js:` scripts and `##` regex replacement,
//! and the search, table-of-contents, book-info and content rules.

use vstd::prelude::*;
use crate::strings::{
    chars_eq, chars_of, extend_chars, find, find_chars, has_prefix, lemma_find, rfind, rfind_chars,
    slice, split, split_chars, starts_with, string_of, strip_lead_char, strip_lead_chars,
    strip_trail_char, strip_trail_chars, trim, trim_chars, trim_start, trim_start_chars, views,
};
use crate::util::text::{apply_regex_replace, spec_apply_regex_replace};
use crate::strings::{lemma_strip_len, lemma_trim_len, strip_char, strip_chars};
use crate::parser::context::{map_get, Context};
use crate::parser::html::{
    list_rule_is_ok, list_rule_ok, parse_document, parsed_html, select_list, spec_select_list,
    opt_view, spec_select_text, spec_select_text_from_element, spec_select_text_list, text_list_chars,
    text_from_element_chars,
};
use scraper::{ElementRef, Html};
use serde_json::Value;
use crate::util::json::{json_get, json_member, json_parse, parse_json};
use crate::model::search::{SearchBook, SearchBookView};
use crate::model::book_source::{BookInfoRule, BookSource, ContentRule, SearchRule, TocRule};
use crate::model::book_chapter::{BookChapter, BookChapterView};
use crate::model::book::{Book, BookView};

verus! {

pub open spec fn lit_hashes() -> Seq<char> {
    seq!['#', '#']
}

pub open spec fn lit_js_open() -> Seq<char> {
    seq!['<', 'j', 's', '>']
}

pub open spec fn lit_js_close() -> Seq<char> {
    seq!['<', '/', 'j', 's', '>']
}

pub open spec fn lit_js_at() -> Seq<char> {
    seq!['@', 'j', 's', ':']
}

/// Whether a response body looks like JSON: its first non-blank character
/// is `{` or `[`.
pub open spec fn spec_is_json(body: Seq<char>) -> bool {
    let t = trim_start(body);
    t.len() > 0 && (t[0] == '{' || t[0] == '[')
}

/// Whether a response body looks like JSON.
pub fn is_json(body: &str) -> (b: bool)
    ensures
        b == spec_is_json(body@),
{
    let cs = chars_of(body);
    let t = trim_start_chars(cs.as_slice());
    t.len() > 0 && (t[0] == '{' || t[0] == '[')
}

/// The rule without its script, and the script: `rule<js>script</js>` or
/// `rule@js:script`.
pub open spec fn spec_extract_js(rule: Seq<char>) -> (Seq<char>, Option<Seq<char>>) {
    let open = find(rule, lit_js_open());
    let close = rfind(rule, lit_js_close());
    if open is Some && close is Some && close->0 > open->0 {
        (trim(rule.take(open->0)), Some(rule.subrange(open->0 + 4, close->0)))
    } else {
        match find(rule, lit_js_at()) {
            Some(i) => (trim(rule.take(i)), Some(rule.skip(i + 4))),
            None => (rule, None),
        }
    }
}

use crate::parser::html::opt_chars;

pub fn extract_js_chars(rule: &[char]) -> (r: (Vec<char>, Option<Vec<char>>))
    ensures
        r.0@ == spec_extract_js(rule@).0,
        opt_chars(r.1) == spec_extract_js(rule@).1,
{
    let open_l = vec!['<', 'j', 's', '>'];
    let close_l = vec!['<', '/', 'j', 's', '>'];
    let at_l = vec!['@', 'j', 's', ':'];
    assert(open_l@ =~= lit_js_open());
    assert(close_l@ =~= lit_js_close());
    assert(at_l@ =~= lit_js_at());
    proof {
        lemma_find(rule@, lit_js_open());
        lemma_find(rule@, lit_js_at());
        assert(rule@.len() == rule.len());
    }
    if let Some(idx) = find_chars(rule, open_l.as_slice()) {
        if let Some(end_idx) = rfind_chars(rule, close_l.as_slice()) {
            if end_idx > idx {
                proof {
                    assert(rule@.skip(idx as int).take(4) == lit_js_open());
                    assert(rule@.skip(end_idx as int).take(5) == lit_js_close());
                    assert(rule@[end_idx as int] == '<');
                    assert(end_idx >= idx + 4) by {
                        if end_idx < idx + 4 {
                            assert(rule@[end_idx as int] == rule@.skip(idx as int).take(4)[end_idx - idx]);
                        }
                    }
                }
                let head = slice(rule, 0, idx);
                let pure = trim_chars(head.as_slice());
                let js = slice(rule, idx + 4, end_idx);
                assert(head@ =~= rule@.take(idx as int));
                return (pure, Some(js));
            }
        }
    }
    if let Some(idx) = find_chars(rule, at_l.as_slice()) {
        let head = slice(rule, 0, idx);
        let pure = trim_chars(head.as_slice());
        let js = slice(rule, idx + 4, rule.len());
        assert(head@ =~= rule@.take(idx as int));
        assert(js@ =~= rule@.skip(idx + 4));
        return (pure, Some(js));
    }
    (slice(rule, 0, rule.len()), None)
}

/// The rule before a `##` and the regex part from the `##` on.
pub open spec fn spec_split_legado_regex(rule: Seq<char>) -> (Seq<char>, Option<Seq<char>>) {
    match find(rule, lit_hashes()) {
        Some(i) => (trim(rule.take(i)), Some(rule.skip(i))),
        None => (rule, None),
    }
}

pub fn split_legado_regex_chars(rule: &[char]) -> (r: (Vec<char>, Option<Vec<char>>))
    ensures
        r.0@ == spec_split_legado_regex(rule@).0,
        opt_chars(r.1) == spec_split_legado_regex(rule@).1,
{
    let hashes = vec!['#', '#'];
    assert(hashes@ =~= lit_hashes());
    match find_chars(rule, hashes.as_slice()) {
        Some(idx) => {
            let head = slice(rule, 0, idx);
            assert(head@ =~= rule@.take(idx as int));
            let reg = slice(rule, idx, rule.len());
            assert(reg@ =~= rule@.skip(idx as int));
            (trim_chars(head.as_slice()), Some(reg))
        },
        None => (slice(rule, 0, rule.len()), None),
    }
}

/// Applies the `regex##replacement` pairs of a regex part in turn, from
/// piece `i` of its `##`-split on; an empty regex is skipped.
pub open spec fn regex_steps(out: Seq<char>, parts: Seq<Seq<char>>, i: int) -> Seq<char>
    decreases parts.len() + 1 - i,
{
    if i < 0 || i >= parts.len() {
        out
    } else {
        let regex = parts[i];
        let replace = if i + 1 < parts.len() {
            parts[i + 1]
        } else {
            seq![]
        };
        let next = if regex.len() == 0 {
            out
        } else {
            spec_apply_regex_replace(out, regex, replace)
        };
        regex_steps(next, parts, i + 2)
    }
}

/// What `apply_legado_regex` gives: the text with every
/// `##regex##replacement` (or `regex##replacement`) pair applied in order.
pub open spec fn spec_apply_legado_regex(text: Seq<char>, regex_part: Seq<char>) -> Seq<char> {
    if trim(regex_part).len() == 0 {
        text
    } else {
        let start: int = if has_prefix(regex_part, lit_hashes()) {
            1
        } else {
            0
        };
        regex_steps(text, split(regex_part, lit_hashes()), start)
    }
}

pub fn apply_legado_regex_chars(text: &[char], regex_part: &[char]) -> (r: Vec<char>)
    ensures
        r@ == spec_apply_legado_regex(text@, regex_part@),
{
    let t = trim_chars(regex_part);
    if t.len() == 0 {
        return slice(text, 0, text.len());
    }
    let hashes = vec!['#', '#'];
    assert(hashes@ =~= lit_hashes());
    let parts = split_chars(regex_part, hashes.as_slice());
    let ghost ps = views(parts@);
    let start: usize = if starts_with(regex_part, hashes.as_slice()) {
        1
    } else {
        0
    };
    let mut out = slice(text, 0, text.len());
    assert(out@ =~= text@);
    let mut i = start;
    while i < parts.len()
        invariant
            ps == views(parts@),
            regex_steps(out@, ps, i as int) == regex_steps(text@, ps, start as int),
            regex_steps(text@, ps, start as int) == spec_apply_legado_regex(text@, regex_part@),
        decreases parts@.len() - i,
    {
        assert(parts@[i as int]@ == ps[i as int]);
        let ghost out_old = out@;
        if parts[i].len() > 0 {
            let empty: Vec<char> = Vec::new();
            let replace = if i + 1 < parts.len() {
                assert(parts@[i + 1]@ == ps[i + 1]);
                &parts[i + 1]
            } else {
                &empty
            };
            assert(i + 1 >= ps.len() ==> replace@ =~= seq![]);
            let s = apply_regex_replace(
                string_of(out.as_slice()).as_str(),
                string_of(parts[i].as_slice()).as_str(),
                string_of(replace.as_slice()).as_str(),
            );
            out = chars_of(s.as_str());
        }
        assert(regex_steps(out_old, ps, i as int) == regex_steps(out@, ps, i + 2));
        if parts.len() - i < 2 {
            assert(regex_steps(out@, ps, i + 2) == out@);
            return out;
        }
        i = i + 2;
    }
    out
}

/// Applies the `##`-separated regex replacements of a rule to a text.
pub fn apply_legado_regex(text: &str, regex_part: &str) -> (r: String)
    ensures
        r@ == spec_apply_legado_regex(text@, regex_part@),
{
    let t = chars_of(text);
    let rp = chars_of(regex_part);
    let r = apply_legado_regex_chars(t.as_slice(), rp.as_slice());
    string_of(r.as_slice())
}


#[verifier::external_type_specification]
#[verifier::external_body]
pub struct ExUrl(url::Url);

/// Whether `url::Url::parse` accepts a text.
pub uninterp spec fn url_parses(s: Seq<char>) -> bool;

/// The text of the URL parsed from `base` after `Url::set_path(path)`.
pub uninterp spec fn url_with_path(base: Seq<char>, path: Seq<char>) -> Seq<char>;

/// The text of `Url::join(rel)` on the URL parsed from `base`, when it
/// succeeds.
pub uninterp spec fn url_join(base: Seq<char>, rel: Seq<char>) -> Option<Seq<char>>;

/// A parsed URL together with the text it was parsed from.
pub struct BaseUrl {
    source: String,
    url: url::Url,
}

impl View for BaseUrl {
    type V = Seq<char>;

    closed spec fn view(&self) -> Seq<char> {
        self.source@
    }
}

/// Calls `url::Url::parse`; the claim is that it succeeds exactly when
/// `url_parses` holds, and keeps the text.
#[verifier::external_body]
fn parse_base_url(s: &str) -> (r: Option<BaseUrl>)
    ensures
        r is Some <==> url_parses(s@),
        r matches Some(u) ==> u@ == s@,
{
    url::Url::parse(s).ok().map(|url| BaseUrl { source: s.to_string(), url })
}

/// Calls `Url::set_path` on a copy of the URL and gives its text.
#[verifier::external_body]
fn url_set_path(u: &BaseUrl, path: &str) -> (r: String)
    ensures
        r@ == url_with_path(u@, path@),
{
    let mut out = u.url.clone();
    out.set_path(path);
    out.to_string()
}

/// Calls `Url::join` and gives the text of the result.
#[verifier::external_body]
fn url_join_text(u: &BaseUrl, rel: &str) -> (r: Option<String>)
    ensures
        r matches Some(t) ==> url_join(u@, rel@) == Some(t@),
        r is None ==> url_join(u@, rel@) is None,
{
    u.url.join(rel).ok().map(|j| j.to_string())
}

pub open spec fn lit_http() -> Seq<char> {
    seq!['h', 't', 't', 'p', ':', '/', '/']
}

pub open spec fn lit_https() -> Seq<char> {
    seq!['h', 't', 't', 'p', 's', ':', '/', '/']
}

pub open spec fn lit_https_colon() -> Seq<char> {
    seq!['h', 't', 't', 'p', 's', ':']
}

/// What `resolve_url` gives: an empty URL is the base; absolute URLs stay;
/// protocol-relative URLs get `https:`; a root-relative URL replaces the
/// base's path; any other URL is joined onto the base, falling back to
/// `base/url` with the slashes between them collapsed; a base that does
/// not parse leaves the URL as it is.
pub open spec fn spec_resolve_url(base: Seq<char>, url: Seq<char>) -> Seq<char> {
    if url.len() == 0 {
        base
    } else if has_prefix(url, lit_http()) || has_prefix(url, lit_https()) {
        url
    } else if has_prefix(url, seq!['/', '/']) {
        lit_https_colon() + url
    } else if !url_parses(base) {
        url
    } else if url[0] == '/' {
        url_with_path(base, url)
    } else {
        match url_join(base, url) {
            Some(u) => u,
            None => strip_trail_char(base, '/') + seq!['/'] + strip_lead_char(url, '/'),
        }
    }
}

/// Resolves a possibly relative URL against a base URL.
pub fn resolve_url(base: &str, url: &str) -> (r: String)
    ensures
        r@ == spec_resolve_url(base@, url@),
{
    let u = chars_of(url);
    if u.len() == 0 {
        return String::from_str(base);
    }
    let http = vec!['h', 't', 't', 'p', ':', '/', '/'];
    let https = vec!['h', 't', 't', 'p', 's', ':', '/', '/'];
    let slashes = vec!['/', '/'];
    assert(http@ =~= lit_http());
    assert(https@ =~= lit_https());
    assert(slashes@ =~= seq!['/', '/']);
    if starts_with(u.as_slice(), http.as_slice()) || starts_with(u.as_slice(), https.as_slice()) {
        return String::from_str(url);
    }
    if starts_with(u.as_slice(), slashes.as_slice()) {
        let mut r = vec!['h', 't', 't', 'p', 's', ':'];
        assert(r@ =~= lit_https_colon());
        extend_chars(&mut r, u.as_slice());
        return string_of(r.as_slice());
    }
    let base_url = match parse_base_url(base) {
        Some(b) => b,
        None => return String::from_str(url),
    };
    if u[0] == '/' {
        return url_set_path(&base_url, url);
    }
    match url_join_text(&base_url, url) {
        Some(t) => t,
        None => {
            let b = chars_of(base);
            let mut r = strip_trail_chars(b.as_slice(), '/');
            r.push('/');
            let tail = strip_lead_chars(u.as_slice(), '/');
            extend_chars(&mut r, tail.as_slice());
            string_of(r.as_slice())
        },
    }
}


/// The script engine and the JSONPath evaluator the rules call on.
/// Each evaluation is a function of its arguments: a host whose scripts
/// read the clock, random numbers or anything else outside them does not
/// meet this contract, and what the library proves of scripted rules does
/// not hold with such a host.
pub trait RuleHost {
    /// The result of running `script` with `input` as the result and
    /// `base_url` as the base URL; nothing when the script fails.
    spec fn script_result(&self, script: Seq<char>, input: Seq<char>, base_url: Seq<char>) -> Option<Seq<char>>;

    /// The values a JSONPath selects.
    spec fn json_query_result(&self, v: Value, path: Seq<char>) -> Seq<Value>;

    /// The first value a JSONPath selects, as text.
    spec fn json_first_string_result(&self, v: Value, path: Seq<char>) -> Option<Seq<char>>;

    /// A JSON value as text.
    spec fn json_text_result(&self, v: Value) -> Option<Seq<char>>;

    fn eval_js(&self, script: &str, input: &str, base_url: &str) -> (r: Option<String>)
        ensures
            opt_view(r) == self.script_result(script@, input@, base_url@),
    ;

    fn json_query(&self, v: &Value, path: &str) -> (r: Vec<Value>)
        ensures
            r@ == self.json_query_result(*v, path@),
    ;

    fn json_first_string(&self, v: &Value, path: &str) -> (r: Option<String>)
        ensures
            opt_view(r) == self.json_first_string_result(*v, path@),
    ;

    fn json_text(&self, v: &Value) -> (r: Option<String>)
        ensures
            opt_view(r) == self.json_text_result(*v),
    ;
}

/// A host with no script engine and no JSONPath support: scripts fail and
/// JSON paths select nothing.
pub struct PlainHost;

impl RuleHost for PlainHost {
    open spec fn script_result(&self, script: Seq<char>, input: Seq<char>, base_url: Seq<char>) -> Option<Seq<char>> {
        None
    }

    open spec fn json_query_result(&self, v: Value, path: Seq<char>) -> Seq<Value> {
        Seq::empty()
    }

    open spec fn json_first_string_result(&self, v: Value, path: Seq<char>) -> Option<Seq<char>> {
        None
    }

    open spec fn json_text_result(&self, v: Value) -> Option<Seq<char>> {
        None
    }

    fn eval_js(&self, script: &str, input: &str, base_url: &str) -> (r: Option<String>) {
        None
    }

    fn json_query(&self, v: &Value, path: &str) -> (r: Vec<Value>) {
        Vec::new()
    }

    fn json_first_string(&self, v: &Value, path: &str) -> (r: Option<String>) {
        None
    }

    fn json_text(&self, v: &Value) -> (r: Option<String>) {
        None
    }
}

/// What a field rule is evaluated against.
pub enum FieldSource<'a> {
    Element(ElementRef<'a>),
    Document(&'a Html),
    Json(&'a Value),
}

/// The text, or the empty text.
pub open spec fn or_empty(o: Option<Seq<char>>) -> Seq<char> {
    match o {
        Some(v) => v,
        None => seq![],
    }
}

/// `Some(t)` unless `t` is empty.
pub open spec fn non_empty(t: Seq<char>) -> Option<Seq<char>> {
    if t.len() == 0 {
        None
    } else {
        Some(t)
    }
}

/// What `pick_json_field` gives: a JSONPath when the rule starts with `$`,
/// else the object member the rule names.
pub open spec fn spec_pick_json_field<H: RuleHost>(host: &H, v: Value, rule: Seq<char>) -> Option<Seq<char>> {
    if has_prefix(trim_start(rule), seq!['$']) {
        host.json_first_string_result(v, rule)
    } else {
        match json_member(v, rule) {
            Some(m) => host.json_text_result(m),
            None => None,
        }
    }
}

/// The text a rule without script or regex selects from a source.
pub open spec fn pure_text<H: RuleHost>(host: &H, src: FieldSource<'_>, pure: Seq<char>) -> Seq<char> {
    if pure.len() == 0 {
        seq![]
    } else {
        match src {
            FieldSource::Element(e) => or_empty(spec_select_text_from_element(e, pure)),
            FieldSource::Document(d) => or_empty(spec_select_text(d, pure)),
            FieldSource::Json(v) => or_empty(spec_pick_json_field(host, *v, pure)),
        }
    }
}

/// What a field rule without `@put`/`@get` gives: the selected text, passed
/// through its script and its `##` replacements. On a whole document the
/// rule has no `##` part and a script's result (or, when it fails, the
/// selected text) is returned as it is.
pub open spec fn spec_eval_plain<H: RuleHost>(host: &H, rule: Seq<char>, src: FieldSource<'_>, base: Seq<char>) -> Option<Seq<char>> {
    match src {
        FieldSource::Document(_) => {
            let (pure, js) = spec_extract_js(rule);
            let text = pure_text(host, src, pure);
            match js {
                Some(script) => match host.script_result(script, text, base) {
                    Some(res) => Some(res),
                    None => Some(text),
                },
                None => non_empty(text),
            }
        },
        _ => {
            let (pure_rule, reg) = spec_split_legado_regex(rule);
            let (pure, js) = spec_extract_js(pure_rule);
            let text0 = pure_text(host, src, pure);
            let text1 = match js {
                Some(script) => match host.script_result(script, text0, base) {
                    Some(res) => res,
                    None => text0,
                },
                None => text0,
            };
            let text2 = match reg {
                Some(r) => spec_apply_legado_regex(text1, r),
                None => text1,
            };
            non_empty(text2)
        },
    }
}

pub open spec fn lit_put() -> Seq<char> {
    seq!['@', 'p', 'u', 't', ':']
}

pub open spec fn lit_get() -> Seq<char> {
    seq!['@', 'g', 'e', 't', ':']
}

/// `{...}`.
pub open spec fn braced(s: Seq<char>) -> bool {
    s.len() >= 2 && s[0] == '{' && s.last() == '}'
}

/// What is between the braces.
pub open spec fn braced_inner(s: Seq<char>) -> Seq<char> {
    s.subrange(1, s.len() - 1)
}

/// What a field rule gives and the variables after it: `@put:{k:"rule",...}`
/// evaluates each rule and stores its text under its key, giving the empty
/// text; `@get:{k}` gives the stored value when there is one; any other
/// rule is evaluated as a plain rule.
pub open spec fn spec_eval_field<H: RuleHost>(
    host: &H,
    rule: Seq<char>,
    src: FieldSource<'_>,
    base: Seq<char>,
    ctx: Map<Seq<char>, Seq<char>>,
) -> (Option<Seq<char>>, Map<Seq<char>, Seq<char>>)
    decreases rule.len(), rule.len(),
{
    if has_prefix(rule, lit_put()) {
        if braced(rule.skip(5)) {
            (Some(seq![]), put_all(host, rule.len() as int, braced_inner(rule.skip(5)), src, base, ctx))
        } else {
            (Some(seq![]), ctx)
        }
    } else {
        let got = if has_prefix(rule, lit_get()) && braced(rule.skip(5)) {
            map_get(ctx, trim(braced_inner(rule.skip(5))))
        } else {
            None
        };
        match got {
            Some(v) => (Some(v), ctx),
            None => (spec_eval_plain(host, rule, src, base), ctx),
        }
    }
}

/// The key and value rule of one `key:"rule"` entry of a `@put`.
pub open spec fn put_entry(part: Seq<char>) -> Option<(Seq<char>, Seq<char>)> {
    match find(part, seq![':']) {
        Some(i) => Some((trim(part.take(i)), strip_char(trim(part.skip(i + 1)), '"'))),
        None => None,
    }
}

/// Stores the entries of the comma-separated `@put` list `s` in turn.
pub open spec fn put_all<H: RuleHost>(
    host: &H,
    bound: int,
    s: Seq<char>,
    src: FieldSource<'_>,
    base: Seq<char>,
    ctx: Map<Seq<char>, Seq<char>>,
) -> Map<Seq<char>, Seq<char>>
    decreases bound, s.len(),
{
    if s.len() >= bound {
        ctx
    } else {
        let k = find(s, seq![',']);
        proof {
            lemma_find(s, seq![',']);
        }
        let part = match k {
            Some(k) => s.take(k),
            None => s,
        };
        let ctx1 = match put_entry(part) {
            Some((key, vr)) => {
                proof {
                    lemma_find(part, seq![':']);
                    lemma_trim_len(part.skip(find(part, seq![':'])->0 + 1));
                    lemma_strip_len(trim(part.skip(find(part, seq![':'])->0 + 1)), '"');
                }
                let r = spec_eval_field(host, vr, src, base, ctx);
                r.1.insert(key, or_empty(r.0))
            },
            None => ctx,
        };
        match k {
            Some(k) => put_all(host, bound, s.skip(k + 1), src, base, ctx1),
            None => ctx1,
        }
    }
}


/// Picks a field from a JSON value.
fn pick_json_field<H: RuleHost>(host: &H, v: &Value, rule: &[char]) -> (r: Option<Vec<char>>)
    ensures
        opt_chars(r) == spec_pick_json_field(host, *v, rule@),
{
    let t = trim_start_chars(rule);
    let dollar = vec!['$'];
    assert(dollar@ =~= seq!['$']);
    let rs = string_of(rule);
    if starts_with(t.as_slice(), dollar.as_slice()) {
        return opt_to_chars(host.json_first_string(v, rs.as_str()));
    }
    match json_get(v, rs.as_str()) {
        Some(m) => opt_to_chars(host.json_text(&m)),
        None => None,
    }
}

fn opt_to_chars(o: Option<String>) -> (r: Option<Vec<char>>)
    ensures
        opt_chars(r) == opt_view(o),
{
    match o {
        Some(s) => Some(chars_of(s.as_str())),
        None => None,
    }
}

fn or_empty_chars(o: Option<Vec<char>>) -> (r: Vec<char>)
    ensures
        r@ == or_empty(opt_chars(o)),
{
    match o {
        Some(v) => v,
        None => Vec::new(),
    }
}

fn pure_text_exec<H: RuleHost>(host: &H, src: &FieldSource, pure: &[char]) -> (r: Vec<char>)
    ensures
        r@ == pure_text(host, *src, pure@),
{
    if pure.len() == 0 {
        return Vec::new();
    }
    match src {
        FieldSource::Element(e) => or_empty_chars(text_from_element_chars(e, pure)),
        FieldSource::Document(d) => {
            let texts = text_list_chars(d, pure);
            if texts.len() > 0 {
                assert(texts@[0]@ == views(texts@)[0]);
                slice(texts[0].as_slice(), 0, texts[0].len())
            } else {
                Vec::new()
            }
        },
        FieldSource::Json(v) => or_empty_chars(pick_json_field(host, v, pure)),
    }
}

fn run_script<H: RuleHost>(host: &H, script: &[char], input: &[char], base: &str) -> (r: Option<Vec<char>>)
    ensures
        opt_chars(r) == host.script_result(script@, input@, base@),
{
    opt_to_chars(host.eval_js(string_of(script).as_str(), string_of(input).as_str(), base))
}

fn eval_plain<H: RuleHost>(host: &H, rule: &[char], src: &FieldSource, base: &str) -> (r: Option<Vec<char>>)
    ensures
        opt_chars(r) == spec_eval_plain(host, rule@, *src, base@),
{
    match src {
        FieldSource::Document(_) => {
            let (pure, js) = extract_js_chars(rule);
            let text = pure_text_exec(host, src, pure.as_slice());
            match js {
                Some(script) => match run_script(host, script.as_slice(), text.as_slice(), base) {
                    Some(res) => Some(res),
                    None => Some(text),
                },
                None => if text.len() == 0 {
                    None
                } else {
                    Some(text)
                },
            }
        },
        _ => {
            let (pure_rule, reg) = split_legado_regex_chars(rule);
            let (pure, js) = extract_js_chars(pure_rule.as_slice());
            let text0 = pure_text_exec(host, src, pure.as_slice());
            let text1 = match js {
                Some(script) => match run_script(host, script.as_slice(), text0.as_slice(), base) {
                    Some(res) => res,
                    None => text0,
                },
                None => text0,
            };
            let text2 = match reg {
                Some(r) => apply_legado_regex_chars(text1.as_slice(), r.as_slice()),
                None => text1,
            };
            if text2.len() == 0 {
                None
            } else {
                Some(text2)
            }
        },
    }
}

fn is_braced(s: &[char]) -> (b: bool)
    ensures
        b == braced(s@),
{
    s.len() >= 2 && s[0] == '{' && s[s.len() - 1] == '}'
}

/// Evaluates a field rule against a source, reading and updating the
/// `@put`/`@get` variables.
pub fn eval_field<H: RuleHost>(host: &H, rule: &[char], src: &FieldSource, base: &str, ctx: &mut Context) -> (r: Option<Vec<char>>)
    ensures
        (opt_chars(r), final(ctx)@) == spec_eval_field(host, rule@, *src, base@, old(ctx)@),
    decreases rule@.len(), rule@.len(),
{
    let put_l = vec!['@', 'p', 'u', 't', ':'];
    let get_l = vec!['@', 'g', 'e', 't', ':'];
    assert(put_l@ =~= lit_put());
    assert(get_l@ =~= lit_get());
    if starts_with(rule, put_l.as_slice()) {
        let content = slice(rule, 5, rule.len());
        assert(content@ =~= rule@.skip(5));
        if is_braced(content.as_slice()) {
            let inner = slice(content.as_slice(), 1, content.len() - 1);
            assert(inner@ =~= braced_inner(rule@.skip(5)));
            put_all_exec(host, rule.len(), inner.as_slice(), src, base, ctx);
        }
        return Some(Vec::new());
    }
    if starts_with(rule, get_l.as_slice()) {
        let content = slice(rule, 5, rule.len());
        assert(content@ =~= rule@.skip(5));
        if is_braced(content.as_slice()) {
            let inner = slice(content.as_slice(), 1, content.len() - 1);
            assert(inner@ =~= braced_inner(rule@.skip(5)));
            let key = trim_chars(inner.as_slice());
            if let Some(v) = ctx.get(key.as_slice()) {
                return Some(v);
            }
        }
    }
    eval_plain(host, rule, src, base)
}

fn put_all_exec<H: RuleHost>(host: &H, bound: usize, s: &[char], src: &FieldSource, base: &str, ctx: &mut Context)
    requires
        s@.len() < bound,
    ensures
        final(ctx)@ == put_all(host, bound as int, s@, *src, base@, old(ctx)@),
    decreases bound, s@.len(),
{
    let comma = vec![','];
    let colon = vec![':'];
    assert(comma@ =~= seq![',']);
    assert(colon@ =~= seq![':']);
    proof {
        lemma_find(s@, seq![',']);
    }
    let k = find_chars(s, comma.as_slice());
    let part = match k {
        Some(k) => slice(s, 0, k),
        None => slice(s, 0, s.len()),
    };
    assert(k matches Some(kk) ==> part@ =~= s@.take(kk as int));
    assert(k is None ==> part@ =~= s@);
    proof {
        lemma_find(part@, seq![':']);
    }
    if let Some(i) = find_chars(part.as_slice(), colon.as_slice()) {
        let key_raw = slice(part.as_slice(), 0, i);
        assert(key_raw@ =~= part@.take(i as int));
        let key = trim_chars(key_raw.as_slice());
        let val_raw = slice(part.as_slice(), i + 1, part.len());
        assert(val_raw@ =~= part@.skip(i + 1));
        let val_trim = trim_chars(val_raw.as_slice());
        let vr = strip_chars(val_trim.as_slice(), '"');
        proof {
            lemma_trim_len(part@.skip(i + 1));
            lemma_strip_len(val_trim@, '"');
        }
        let val = eval_field(host, vr.as_slice(), src, base, ctx);
        let v = or_empty_chars(val);
        ctx.insert(key.as_slice(), v.as_slice());
    }
    if let Some(k) = k {
        let rest = slice(s, k + 1, s.len());
        assert(rest@ =~= s@.skip(k + 1));
        put_all_exec(host, bound, rest.as_slice(), src, base, ctx);
    }
}


/// Whether a list rule is a JSONPath (starts with `$`).
pub open spec fn is_json_path_rule(o: Option<String>) -> bool {
    match o {
        Some(r) => has_prefix(trim_start(r@), seq!['$']),
        None => false,
    }
}

fn json_path_rule(o: &Option<String>) -> (b: bool)
    ensures
        b == is_json_path_rule(*o),
{
    match o {
        Some(r) => {
            let cs = chars_of(r.as_str());
            let t = trim_start_chars(cs.as_slice());
            let dollar = vec!['$'];
            assert(dollar@ =~= seq!['$']);
            starts_with(t.as_slice(), dollar.as_slice())
        },
        None => false,
    }
}

/// The text of an optional rule, or the empty rule.
pub open spec fn rule_text(o: Option<String>) -> Seq<char> {
    match o {
        Some(r) => r@,
        None => seq![],
    }
}

/// A field evaluated with fresh variables; an absent rule gives nothing.
pub open spec fn fresh_field<H: RuleHost>(host: &H, rule: Option<String>, src: FieldSource<'_>, base: Seq<char>) -> Option<Seq<char>> {
    match rule {
        Some(r) => spec_eval_field(host, r@, src, base, Map::empty()).0,
        None => None,
    }
}

/// A field of a JSON item evaluated with fresh variables; an absent rule is
/// the empty rule.
pub open spec fn fresh_json_field<H: RuleHost>(host: &H, rule: Option<String>, item: &Value, base: Seq<char>) -> Option<Seq<char>> {
    spec_eval_field(host, rule_text(rule), FieldSource::Json(item), base, Map::empty()).0
}

/// An optional URL resolved against the base.
pub open spec fn resolve_opt(base: Seq<char>, u: Option<Seq<char>>) -> Option<Seq<char>> {
    match u {
        Some(x) => Some(spec_resolve_url(base, x)),
        None => None,
    }
}

/// The search result one listed element gives.
pub open spec fn html_search_item<H: RuleHost>(host: &H, source: BookSource, rule: SearchRule, el: ElementRef<'_>, base: Seq<char>) -> SearchBookView {
    let src = FieldSource::Element(el);
    SearchBookView {
        name: or_empty(fresh_field(host, rule.name, src, base)),
        author: or_empty(fresh_field(host, rule.author, src, base)),
        book_url: spec_resolve_url(base, or_empty(fresh_field(host, rule.book_url, src, base))),
        origin: source.book_source_url@,
        cover_url: resolve_opt(base, fresh_field(host, rule.cover_url, src, base)),
        intro: fresh_field(host, rule.intro, src, base),
        kind: fresh_field(host, rule.kind, src, base),
        last_chapter: fresh_field(host, rule.last_chapter, src, base),
        update_time: fresh_field(host, rule.update_time, src, base),
    }
}

/// The search result one JSON item gives.
pub open spec fn json_search_item<H: RuleHost>(host: &H, source: BookSource, rule: SearchRule, item: Value, base: Seq<char>) -> SearchBookView {
    SearchBookView {
        name: or_empty(fresh_json_field(host, rule.name, &item, base)),
        author: or_empty(fresh_json_field(host, rule.author, &item, base)),
        book_url: or_empty(fresh_json_field(host, rule.book_url, &item, base)),
        origin: source.book_source_url@,
        cover_url: fresh_json_field(host, rule.cover_url, &item, base),
        intro: fresh_json_field(host, rule.intro, &item, base),
        kind: fresh_json_field(host, rule.kind, &item, base),
        last_chapter: fresh_json_field(host, rule.last_chapter, &item, base),
        update_time: fresh_json_field(host, rule.update_time, &item, base),
    }
}

/// The books an HTML search page lists.
pub open spec fn spec_search_books_html<H: RuleHost>(host: &H, source: BookSource, rule: SearchRule, body: Seq<char>, base: Seq<char>) -> Seq<SearchBookView> {
    match rule.book_list {
        None => seq![],
        Some(l) => spec_select_list(&parsed_html(body), l@).map_values(
            |el: ElementRef<'_>| html_search_item(host, source, rule, el, base),
        ),
    }
}

/// The books a JSON search response lists.
pub open spec fn spec_search_books_json<H: RuleHost>(host: &H, source: BookSource, rule: SearchRule, body: Seq<char>, base: Seq<char>) -> Seq<SearchBookView> {
    match json_parse(body) {
        None => seq![],
        Some(v) => host.json_query_result(v, rule_text(rule.book_list)).map_values(
            |item: Value| json_search_item(host, source, rule, item, base),
        ),
    }
}

/// The books a search page lists, read as JSON when the body looks like
/// JSON and the list rule is a JSONPath, else as HTML.
pub open spec fn spec_search_with_rule<H: RuleHost>(host: &H, source: BookSource, rule: SearchRule, body: Seq<char>, base: Seq<char>) -> Seq<SearchBookView> {
    if spec_is_json(body) && is_json_path_rule(rule.book_list) {
        spec_search_books_json(host, source, rule, body, base)
    } else {
        spec_search_books_html(host, source, rule, body, base)
    }
}

/// The list rules of a search rule on which selecting does not panic.
pub open spec fn search_rule_ok(rule: SearchRule) -> bool {
    rule.book_list matches Some(l) ==> list_rule_ok(l@)
}

/// The search rule of a source (empty when it has none).
pub open spec fn search_rule_of(source: BookSource) -> SearchRule {
    match source.rule_search {
        Some(r) => r,
        None => empty_search_rule(),
    }
}

/// The explore rule of a source, falling back to its search rule.
pub open spec fn explore_rule_of(source: BookSource) -> SearchRule {
    match source.rule_explore {
        Some(r) => r,
        None => search_rule_of(source),
    }
}

pub open spec fn empty_search_rule() -> SearchRule {
    SearchRule {
        book_list: None,
        name: None,
        author: None,
        book_url: None,
        cover_url: None,
        intro: None,
        kind: None,
        last_chapter: None,
        update_time: None,
    }
}

fn fresh_field_exec<H: RuleHost>(host: &H, rule: &Option<String>, src: &FieldSource, base: &str) -> (r: Option<Vec<char>>)
    ensures
        opt_chars(r) == fresh_field(host, *rule, *src, base@),
{
    match rule {
        Some(rs) => {
            let mut ctx = Context::new();
            let cs = chars_of(rs.as_str());
            eval_field(host, cs.as_slice(), src, base, &mut ctx)
        },
        None => None,
    }
}

fn rule_chars(o: &Option<String>) -> (r: Vec<char>)
    ensures
        r@ == rule_text(*o),
{
    match o {
        Some(s) => chars_of(s.as_str()),
        None => Vec::new(),
    }
}

fn fresh_json_field_exec<H: RuleHost>(host: &H, rule: &Option<String>, item: &Value, base: &str) -> (r: Option<Vec<char>>)
    ensures
        opt_chars(r) == fresh_json_field(host, *rule, item, base@),
{
    let mut ctx = Context::new();
    let cs = rule_chars(rule);
    eval_field(host, cs.as_slice(), &FieldSource::Json(item), base, &mut ctx)
}

fn opt_string(o: Option<Vec<char>>) -> (r: Option<String>)
    ensures
        opt_view(r) == opt_chars(o),
{
    match o {
        Some(c) => Some(string_of(c.as_slice())),
        None => None,
    }
}

fn text_string(o: Option<Vec<char>>) -> (r: String)
    ensures
        r@ == or_empty(opt_chars(o)),
{
    match o {
        Some(c) => string_of(c.as_slice()),
        None => String::new(),
    }
}

fn resolve_opt_exec(base: &str, u: Option<Vec<char>>) -> (r: Option<String>)
    ensures
        opt_view(r) == resolve_opt(base@, opt_chars(u)),
{
    match u {
        Some(x) => Some(resolve_url(base, string_of(x.as_slice()).as_str())),
        None => None,
    }
}

/// The books an HTML search page lists under a search rule.
pub fn search_books_html<H: RuleHost>(host: &H, source: &BookSource, rule: &SearchRule, body: &str, base_url: &str) -> (r: Vec<SearchBook>)
    requires
        search_rule_ok(*rule),
    ensures
        r@.map_values(|b: SearchBook| b@) == spec_search_books_html(host, *source, *rule, body@, base_url@),
{
    let list_sel = match &rule.book_list {
        Some(l) => l,
        None => return Vec::new(),
    };
    let doc = parse_document(body);
    let items = select_list(&doc, list_sel.as_str());
    let mut out: Vec<SearchBook> = Vec::new();
    let mut i: usize = 0;
    while i < items.len()
        invariant
            i <= items@.len(),
            items@ == spec_select_list(&parsed_html(body@), list_sel@),
            out@.map_values(|b: SearchBook| b@) == items@.take(i as int).map_values(
                |el: ElementRef<'_>| html_search_item(host, *source, *rule, el, base_url@),
            ),
        decreases items@.len() - i,
    {
        let el = items[i];
        let src = FieldSource::Element(el);
        let name = fresh_field_exec(host, &rule.name, &src, base_url);
        let author = fresh_field_exec(host, &rule.author, &src, base_url);
        let book_url = fresh_field_exec(host, &rule.book_url, &src, base_url);
        let cover_url = fresh_field_exec(host, &rule.cover_url, &src, base_url);
        let intro = fresh_field_exec(host, &rule.intro, &src, base_url);
        let kind = fresh_field_exec(host, &rule.kind, &src, base_url);
        let last_chapter = fresh_field_exec(host, &rule.last_chapter, &src, base_url);
        let update_time = fresh_field_exec(host, &rule.update_time, &src, base_url);
        let book_url_abs = resolve_url(base_url, text_string(book_url).as_str());
        let cover_url_abs = resolve_opt_exec(base_url, cover_url);
        let book = SearchBook {
            name: text_string(name),
            author: text_string(author),
            book_url: book_url_abs,
            origin: source.book_source_url.clone(),
            cover_url: cover_url_abs,
            intro: opt_string(intro),
            kind: opt_string(kind),
            last_chapter: opt_string(last_chapter),
            update_time: opt_string(update_time),
        };
        let ghost prev = out@.map_values(|b: SearchBook| b@);
        out.push(book);
        proof {
            let f = |el: ElementRef<'_>| html_search_item(host, *source, *rule, el, base_url@);
            assert(out@.map_values(|b: SearchBook| b@) =~= prev.push(book@));
            assert(items@.take(i + 1).map_values(f) =~= items@.take(i as int).map_values(f).push(
                f(items@[i as int]),
            ));
        }
        i = i + 1;
    }
    assert(items@.take(items@.len() as int) =~= items@);
    out
}

/// The books a JSON search response lists under a search rule.
pub fn search_books_json<H: RuleHost>(host: &H, source: &BookSource, rule: &SearchRule, body: &str, base_url: &str) -> (r: Vec<SearchBook>)
    ensures
        r@.map_values(|b: SearchBook| b@) == spec_search_books_json(host, *source, *rule, body@, base_url@),
{
    let v = match parse_json(body) {
        Some(v) => v,
        None => return Vec::new(),
    };
    let list_rule = rule_chars(&rule.book_list);
    let items = host.json_query(&v, string_of(list_rule.as_slice()).as_str());
    let mut out: Vec<SearchBook> = Vec::new();
    let mut i: usize = 0;
    while i < items.len()
        invariant
            i <= items@.len(),
            json_parse(body@) == Some(v),
            items@ == host.json_query_result(v, rule_text(rule.book_list)),
            out@.map_values(|b: SearchBook| b@) == items@.take(i as int).map_values(
                |item: Value| json_search_item(host, *source, *rule, item, base_url@),
            ),
        decreases items@.len() - i,
    {
        let item = &items[i];
        let name = fresh_json_field_exec(host, &rule.name, item, base_url);
        let author = fresh_json_field_exec(host, &rule.author, item, base_url);
        let book_url = fresh_json_field_exec(host, &rule.book_url, item, base_url);
        let cover_url = fresh_json_field_exec(host, &rule.cover_url, item, base_url);
        let intro = fresh_json_field_exec(host, &rule.intro, item, base_url);
        let kind = fresh_json_field_exec(host, &rule.kind, item, base_url);
        let last_chapter = fresh_json_field_exec(host, &rule.last_chapter, item, base_url);
        let update_time = fresh_json_field_exec(host, &rule.update_time, item, base_url);
        let book = SearchBook {
            name: text_string(name),
            author: text_string(author),
            book_url: text_string(book_url),
            origin: source.book_source_url.clone(),
            cover_url: opt_string(cover_url),
            intro: opt_string(intro),
            kind: opt_string(kind),
            last_chapter: opt_string(last_chapter),
            update_time: opt_string(update_time),
        };
        let ghost prev = out@.map_values(|b: SearchBook| b@);
        out.push(book);
        proof {
            let f = |item: Value| json_search_item(host, *source, *rule, item, base_url@);
            assert(out@.map_values(|b: SearchBook| b@) =~= prev.push(book@));
            assert(items@.take(i + 1).map_values(f) =~= items@.take(i as int).map_values(f).push(
                f(items@[i as int]),
            ));
        }
        i = i + 1;
    }
    assert(items@.take(items@.len() as int) =~= items@);
    out
}

/// Whether a search rule's list rule is accepted (`search_rule_ok`).
pub fn search_rule_is_ok(rule: &SearchRule) -> (b: bool)
    ensures
        b == search_rule_ok(*rule),
{
    match &rule.book_list {
        Some(l) => list_rule_is_ok(l.as_str()),
        None => true,
    }
}

/// Whether a table-of-contents rule's list rule is accepted (`toc_rule_ok`).
pub fn toc_rule_is_ok(rule: &TocRule) -> (b: bool)
    ensures
        b == toc_rule_ok(*rule),
{
    match &rule.chapter_list {
        Some(l) => list_rule_is_ok(l.as_str()),
        None => true,
    }
}

/// Whether `RuleEngine::search_books` accepts a source.
pub fn can_search(source: &BookSource) -> (b: bool)
    ensures
        b == search_rule_ok(search_rule_of(*source)),
{
    match &source.rule_search {
        Some(r) => search_rule_is_ok(r),
        None => true,
    }
}

/// Whether `RuleEngine::explore_books` accepts a source.
pub fn can_explore(source: &BookSource) -> (b: bool)
    ensures
        b == search_rule_ok(explore_rule_of(*source)),
{
    match &source.rule_explore {
        Some(r) => search_rule_is_ok(r),
        None => can_search(source),
    }
}

/// Whether `RuleEngine::chapter_list` accepts a source.
pub fn can_read_toc(source: &BookSource) -> (b: bool)
    ensures
        b == toc_rule_ok(toc_rule_of(*source)),
{
    match &source.rule_toc {
        Some(r) => toc_rule_is_ok(r),
        None => true,
    }
}

fn search_with_rule<H: RuleHost>(host: &H, source: &BookSource, rule: &SearchRule, body: &str, base_url: &str) -> (r: Vec<SearchBook>)
    requires
        search_rule_ok(*rule),
    ensures
        r@.map_values(|b: SearchBook| b@) == spec_search_with_rule(host, *source, *rule, body@, base_url@),
{
    if is_json(body) && json_path_rule(&rule.book_list) {
        return search_books_json(host, source, rule, body, base_url);
    }
    search_books_html(host, source, rule, body, base_url)
}

/// A field evaluated with the current variables; an absent rule gives
/// nothing and leaves them as they are.
pub open spec fn ctx_field<H: RuleHost>(
    host: &H,
    rule: Option<String>,
    src: FieldSource<'_>,
    base: Seq<char>,
    ctx: Map<Seq<char>, Seq<char>>,
) -> (Option<Seq<char>>, Map<Seq<char>, Seq<char>>) {
    match rule {
        Some(r) => spec_eval_field(host, r@, src, base, ctx),
        None => (None, ctx),
    }
}

/// The chapters of the first `n` listed elements, with the variables after
/// them; each chapter's name and URL are read with the variables left by
/// the ones before.
pub open spec fn toc_html_fold<H: RuleHost>(
    host: &H,
    rule: TocRule,
    items: Seq<ElementRef<'_>>,
    base: Seq<char>,
    ctx0: Map<Seq<char>, Seq<char>>,
    n: int,
) -> (Seq<BookChapterView>, Map<Seq<char>, Seq<char>>)
    decreases n,
{
    if n <= 0 {
        (seq![], ctx0)
    } else {
        let prev = toc_html_fold(host, rule, items, base, ctx0, n - 1);
        let src = FieldSource::Element(items[n - 1]);
        let t = ctx_field(host, rule.chapter_name, src, base, prev.1);
        let u = ctx_field(host, rule.chapter_url, src, base, t.1);
        (
            prev.0.push(
                BookChapterView {
                    title: or_empty(t.0),
                    url: spec_resolve_url(base, or_empty(u.0)),
                    index: (n - 1) as i32,
                },
            ),
            u.1,
        )
    }
}

/// The chapters of the first `n` JSON items, with the variables after them.
pub open spec fn toc_json_fold<H: RuleHost>(
    host: &H,
    rule: TocRule,
    items: Seq<Value>,
    base: Seq<char>,
    ctx0: Map<Seq<char>, Seq<char>>,
    n: int,
) -> (Seq<BookChapterView>, Map<Seq<char>, Seq<char>>)
    decreases n,
{
    if n <= 0 {
        (seq![], ctx0)
    } else {
        let prev = toc_json_fold(host, rule, items, base, ctx0, n - 1);
        let t = spec_eval_field(host, rule_text(rule.chapter_name), FieldSource::Json(&items[n - 1]), base, prev.1);
        let u = spec_eval_field(host, rule_text(rule.chapter_url), FieldSource::Json(&items[n - 1]), base, t.1);
        (prev.0.push(BookChapterView { title: or_empty(t.0), url: or_empty(u.0), index: (n - 1) as i32 }), u.1)
    }
}

/// The chapters an HTML table of contents lists: the `init` rule runs on
/// the document first, then each listed element gives a chapter whose URL
/// is resolved against the base.
pub open spec fn spec_chapter_list_html<H: RuleHost>(
    host: &H,
    rule: TocRule,
    body: Seq<char>,
    base: Seq<char>,
    ctx0: Map<Seq<char>, Seq<char>>,
) -> (Seq<BookChapterView>, Map<Seq<char>, Seq<char>>) {
    match rule.chapter_list {
        None => (seq![], ctx0),
        Some(l) => {
            let doc = parsed_html(body);
            let ctx = ctx_field(host, rule.init, FieldSource::Document(&doc), base, ctx0).1;
            let items = spec_select_list(&doc, l@);
            toc_html_fold(host, rule, items, base, ctx, items.len() as int)
        },
    }
}

/// The chapters a JSON table of contents lists.
pub open spec fn spec_chapter_list_json<H: RuleHost>(
    host: &H,
    rule: TocRule,
    body: Seq<char>,
    base: Seq<char>,
    ctx0: Map<Seq<char>, Seq<char>>,
) -> (Seq<BookChapterView>, Map<Seq<char>, Seq<char>>) {
    match json_parse(body) {
        None => (seq![], ctx0),
        Some(v) => {
            let ctx = ctx_field(host, rule.init, FieldSource::Json(&v), base, ctx0).1;
            let items = host.json_query_result(v, rule_text(rule.chapter_list));
            toc_json_fold(host, rule, items, base, ctx, items.len() as int)
        },
    }
}

/// The table-of-contents rule of a source (empty when it has none).
pub open spec fn toc_rule_of(source: BookSource) -> TocRule {
    match source.rule_toc {
        Some(r) => r,
        None => TocRule { init: None, chapter_list: None, chapter_name: None, chapter_url: None },
    }
}

/// The chapters a table of contents lists, read as JSON when the body looks
/// like JSON and the list rule is a JSONPath.
pub open spec fn spec_chapter_list<H: RuleHost>(host: &H, rule: TocRule, body: Seq<char>, base: Seq<char>) -> Seq<BookChapterView> {
    if spec_is_json(body) && is_json_path_rule(rule.chapter_list) {
        spec_chapter_list_json(host, rule, body, base, Map::empty()).0
    } else {
        spec_chapter_list_html(host, rule, body, base, Map::empty()).0
    }
}

/// The table-of-contents rules on which selecting does not panic.
pub open spec fn toc_rule_ok(rule: TocRule) -> bool {
    rule.chapter_list matches Some(l) ==> list_rule_ok(l@)
}

fn ctx_field_exec<H: RuleHost>(host: &H, rule: &Option<String>, src: &FieldSource, base: &str, ctx: &mut Context) -> (r: Option<Vec<char>>)
    ensures
        (opt_chars(r), final(ctx)@) == ctx_field(host, *rule, *src, base@, old(ctx)@),
{
    match rule {
        Some(rs) => {
            let cs = chars_of(rs.as_str());
            eval_field(host, cs.as_slice(), src, base, ctx)
        },
        None => None,
    }
}

/// The chapters an HTML table of contents lists, read with the caller's
/// variables, which are left as the `init`, name and URL rules leave them.
pub fn parse_chapter_list_html<H: RuleHost>(
    host: &H,
    body: &str,
    base_url: &str,
    rule: &TocRule,
    ctx: &mut Context,
) -> (r: Vec<BookChapter>)
    requires
        toc_rule_ok(*rule),
    ensures
        (r@.map_values(|c: BookChapter| c@), final(ctx)@) == spec_chapter_list_html(
            host,
            *rule,
            body@,
            base_url@,
            old(ctx)@,
        ),
{
    let list_sel = match &rule.chapter_list {
        Some(l) => l,
        None => return Vec::new(),
    };
    let doc = parse_document(body);
    let _ = ctx_field_exec(host, &rule.init, &FieldSource::Document(&doc), base_url, ctx);
    let ghost ctx0 = ctx@;
    let items = select_list(&doc, list_sel.as_str());
    let mut out: Vec<BookChapter> = Vec::new();
    let mut i: usize = 0;
    while i < items.len()
        invariant
            i <= items@.len(),
            (out@.map_values(|c: BookChapter| c@), ctx@) == toc_html_fold(
                host,
                *rule,
                items@,
                base_url@,
                ctx0,
                i as int,
            ),
        decreases items@.len() - i,
    {
        let src = FieldSource::Element(items[i]);
        let title = ctx_field_exec(host, &rule.chapter_name, &src, base_url, ctx);
        let url = ctx_field_exec(host, &rule.chapter_url, &src, base_url, ctx);
        let chapter = BookChapter {
            title: text_string(title),
            url: resolve_url(base_url, text_string(url).as_str()),
            index: i as i32,
        };
        let ghost prev = out@.map_values(|c: BookChapter| c@);
        out.push(chapter);
        assert(out@.map_values(|c: BookChapter| c@) =~= prev.push(chapter@));
        i = i + 1;
    }
    out
}

/// The chapters a JSON table of contents lists, read with the caller's
/// variables, which are left as the `init`, name and URL rules leave them.
pub fn parse_chapter_list_json<H: RuleHost>(
    host: &H,
    body: &str,
    base_url: &str,
    rule: &TocRule,
    ctx: &mut Context,
) -> (r: Vec<BookChapter>)
    ensures
        (r@.map_values(|c: BookChapter| c@), final(ctx)@) == spec_chapter_list_json(
            host,
            *rule,
            body@,
            base_url@,
            old(ctx)@,
        ),
{
    let v = match parse_json(body) {
        Some(v) => v,
        None => return Vec::new(),
    };
    let _ = ctx_field_exec(host, &rule.init, &FieldSource::Json(&v), base_url, ctx);
    let ghost ctx0 = ctx@;
    let list_rule = rule_chars(&rule.chapter_list);
    let items = host.json_query(&v, string_of(list_rule.as_slice()).as_str());
    let name_rule = rule_chars(&rule.chapter_name);
    let url_rule = rule_chars(&rule.chapter_url);
    let mut out: Vec<BookChapter> = Vec::new();
    let mut i: usize = 0;
    while i < items.len()
        invariant
            i <= items@.len(),
            name_rule@ == rule_text(rule.chapter_name),
            url_rule@ == rule_text(rule.chapter_url),
            (out@.map_values(|c: BookChapter| c@), ctx@) == toc_json_fold(
                host,
                *rule,
                items@,
                base_url@,
                ctx0,
                i as int,
            ),
        decreases items@.len() - i,
    {
        let src = FieldSource::Json(&items[i]);
        let title = eval_field(host, name_rule.as_slice(), &src, base_url, ctx);
        let url = eval_field(host, url_rule.as_slice(), &src, base_url, ctx);
        let chapter = BookChapter { title: text_string(title), url: text_string(url), index: i as i32 };
        let ghost prev = out@.map_values(|c: BookChapter| c@);
        out.push(chapter);
        assert(out@.map_values(|c: BookChapter| c@) =~= prev.push(chapter@));
        i = i + 1;
    }
    out
}

/// The details an HTML book page gives: the `init` rule runs first, then
/// each field rule in turn with the variables left by the ones before; the
/// cover and table-of-contents URLs are resolved against the base, and the
/// table of contents defaults to the book's own URL.
pub open spec fn spec_book_info_html<H: RuleHost>(
    host: &H,
    source: BookSource,
    rule: BookInfoRule,
    body: Seq<char>,
    base: Seq<char>,
    book_url: Seq<char>,
    ctx0: Map<Seq<char>, Seq<char>>,
) -> (BookView, Map<Seq<char>, Seq<char>>) {
    let doc = parsed_html(body);
    let src = FieldSource::Document(&doc);
    let c0 = ctx_field(host, rule.init, src, base, ctx0).1;
    let name = ctx_field(host, rule.name, src, base, c0);
    let author = ctx_field(host, rule.author, src, base, name.1);
    let intro = ctx_field(host, rule.intro, src, base, author.1);
    let kind = ctx_field(host, rule.kind, src, base, intro.1);
    let last = ctx_field(host, rule.last_chapter, src, base, kind.1);
    let update = ctx_field(host, rule.update_time, src, base, last.1);
    let cover = ctx_field(host, rule.cover_url, src, base, update.1);
    let words = ctx_field(host, rule.word_count, src, base, cover.1);
    let toc = ctx_field(host, rule.toc_url, src, base, words.1);
    (
        BookView {
            name: or_empty(name.0),
            author: or_empty(author.0),
            book_url: book_url,
            origin: source.book_source_url@,
            origin_name: Some(source.book_source_name@),
            cover_url: resolve_opt(base, cover.0),
            toc_url: match resolve_opt(base, toc.0) {
                Some(t) => Some(t),
                None => Some(book_url),
            },
            intro: intro.0,
            latest_chapter_title: last.0,
            word_count: words.0,
            info_html: None,
            toc_html: None,
            kind: kind.0,
            update_time: update.0,
        },
        toc.1,
    )
}

/// The details a JSON book response gives (an absent field rule is the
/// empty rule; URLs are kept as they are).
pub open spec fn spec_book_info_json<H: RuleHost>(
    host: &H,
    source: BookSource,
    rule: BookInfoRule,
    v: Value,
    base: Seq<char>,
    book_url: Seq<char>,
    ctx0: Map<Seq<char>, Seq<char>>,
) -> (BookView, Map<Seq<char>, Seq<char>>) {
    let src = FieldSource::Json(&v);
    let c0 = ctx_field(host, rule.init, src, base, ctx0).1;
    let name = spec_eval_field(host, rule_text(rule.name), src, base, c0);
    let author = spec_eval_field(host, rule_text(rule.author), src, base, name.1);
    let intro = spec_eval_field(host, rule_text(rule.intro), src, base, author.1);
    let kind = spec_eval_field(host, rule_text(rule.kind), src, base, intro.1);
    let last = spec_eval_field(host, rule_text(rule.last_chapter), src, base, kind.1);
    let update = spec_eval_field(host, rule_text(rule.update_time), src, base, last.1);
    let cover = spec_eval_field(host, rule_text(rule.cover_url), src, base, update.1);
    let words = spec_eval_field(host, rule_text(rule.word_count), src, base, cover.1);
    let toc = spec_eval_field(host, rule_text(rule.toc_url), src, base, words.1);
    (
        BookView {
            name: or_empty(name.0),
            author: or_empty(author.0),
            book_url: book_url,
            origin: source.book_source_url@,
            origin_name: Some(source.book_source_name@),
            cover_url: cover.0,
            toc_url: match toc.0 {
                Some(t) => Some(t),
                None => Some(book_url),
            },
            intro: intro.0,
            latest_chapter_title: last.0,
            word_count: words.0,
            info_html: None,
            toc_html: None,
            kind: kind.0,
            update_time: update.0,
        },
        toc.1,
    )
}

/// The book-info rule of a source (empty when it has none).
pub open spec fn info_rule_of(source: BookSource) -> BookInfoRule {
    match source.rule_book_info {
        Some(r) => r,
        None => BookInfoRule {
            init: None,
            name: None,
            author: None,
            intro: None,
            kind: None,
            last_chapter: None,
            update_time: None,
            cover_url: None,
            word_count: None,
            toc_url: None,
        },
    }
}

/// The details a book page gives, read as JSON when the body looks like
/// JSON and parses, else as HTML.
pub open spec fn spec_book_info<H: RuleHost>(
    host: &H,
    source: BookSource,
    body: Seq<char>,
    base: Seq<char>,
    book_url: Seq<char>,
) -> BookView {
    if spec_is_json(body) && json_parse(body) is Some {
        spec_book_info_json(host, source, info_rule_of(source), json_parse(body)->0, base, book_url, Map::empty()).0
    } else {
        spec_book_info_html(host, source, info_rule_of(source), body, base, book_url, Map::empty()).0
    }
}

fn some_or(o: Option<String>, d: &str) -> (r: Option<String>)
    ensures
        opt_view(r) == (match opt_view(o) {
            Some(t) => Some(t),
            None => Some(d@),
        }),
{
    match o {
        Some(t) => Some(t),
        None => Some(String::from_str(d)),
    }
}

/// The details an HTML book page gives, read with the caller's variables,
/// which are left as the `init` and field rules leave them.
pub fn parse_book_info_html<H: RuleHost>(
    host: &H,
    source: &BookSource,
    body: &str,
    base_url: &str,
    rule: &BookInfoRule,
    book_url: &str,
    ctx: &mut Context,
) -> (r: Book)
    ensures
        (r@, final(ctx)@) == spec_book_info_html(host, *source, *rule, body@, base_url@, book_url@, old(ctx)@),
{
    let doc = parse_document(body);
    let src = FieldSource::Document(&doc);
    let _ = ctx_field_exec(host, &rule.init, &src, base_url, ctx);
    let name = ctx_field_exec(host, &rule.name, &src, base_url, ctx);
    let author = ctx_field_exec(host, &rule.author, &src, base_url, ctx);
    let intro = ctx_field_exec(host, &rule.intro, &src, base_url, ctx);
    let kind = ctx_field_exec(host, &rule.kind, &src, base_url, ctx);
    let last_chapter = ctx_field_exec(host, &rule.last_chapter, &src, base_url, ctx);
    let update_time = ctx_field_exec(host, &rule.update_time, &src, base_url, ctx);
    let cover_url = ctx_field_exec(host, &rule.cover_url, &src, base_url, ctx);
    let word_count = ctx_field_exec(host, &rule.word_count, &src, base_url, ctx);
    let toc_url = ctx_field_exec(host, &rule.toc_url, &src, base_url, ctx);
    let cover_abs = resolve_opt_exec(base_url, cover_url);
    let toc_abs = resolve_opt_exec(base_url, toc_url);
    Book {
        name: text_string(name),
        author: text_string(author),
        book_url: String::from_str(book_url),
        origin: source.book_source_url.clone(),
        origin_name: Some(source.book_source_name.clone()),
        cover_url: cover_abs,
        toc_url: some_or(toc_abs, book_url),
        intro: opt_string(intro),
        latest_chapter_title: opt_string(last_chapter),
        word_count: opt_string(word_count),
        info_html: None,
        toc_html: None,
        kind: opt_string(kind),
        update_time: opt_string(update_time),
    }
}

fn json_ctx_field<H: RuleHost>(host: &H, rule: &Option<String>, src: &FieldSource, base: &str, ctx: &mut Context) -> (r: Option<Vec<char>>)
    ensures
        (opt_chars(r), final(ctx)@) == spec_eval_field(host, rule_text(*rule), *src, base@, old(ctx)@),
{
    let cs = rule_chars(rule);
    eval_field(host, cs.as_slice(), src, base, ctx)
}

/// The details a JSON book response gives, read with the caller's
/// variables, which are left as the `init` and field rules leave them.
pub fn parse_book_info_json<H: RuleHost>(
    host: &H,
    source: &BookSource,
    v: &Value,
    base_url: &str,
    rule: &BookInfoRule,
    book_url: &str,
    ctx: &mut Context,
) -> (r: Book)
    ensures
        (r@, final(ctx)@) == spec_book_info_json(host, *source, *rule, *v, base_url@, book_url@, old(ctx)@),
{
    let src = FieldSource::Json(v);
    let _ = ctx_field_exec(host, &rule.init, &src, base_url, ctx);
    let name = json_ctx_field(host, &rule.name, &src, base_url, ctx);
    let author = json_ctx_field(host, &rule.author, &src, base_url, ctx);
    let intro = json_ctx_field(host, &rule.intro, &src, base_url, ctx);
    let kind = json_ctx_field(host, &rule.kind, &src, base_url, ctx);
    let last_chapter = json_ctx_field(host, &rule.last_chapter, &src, base_url, ctx);
    let update_time = json_ctx_field(host, &rule.update_time, &src, base_url, ctx);
    let cover_url = json_ctx_field(host, &rule.cover_url, &src, base_url, ctx);
    let word_count = json_ctx_field(host, &rule.word_count, &src, base_url, ctx);
    let toc_url = json_ctx_field(host, &rule.toc_url, &src, base_url, ctx);
    Book {
        name: text_string(name),
        author: text_string(author),
        book_url: String::from_str(book_url),
        origin: source.book_source_url.clone(),
        origin_name: Some(source.book_source_name.clone()),
        cover_url: opt_string(cover_url),
        toc_url: some_or(opt_string(toc_url), book_url),
        intro: opt_string(intro),
        latest_chapter_title: opt_string(last_chapter),
        word_count: opt_string(word_count),
        info_html: None,
        toc_html: None,
        kind: opt_string(kind),
        update_time: opt_string(update_time),
    }
}

/// `s` without the copies of `p` it starts with (`str::trim_start_matches`).
pub open spec fn strip_lead_pat(s: Seq<char>, p: Seq<char>) -> Seq<char>
    decreases s.len(),
{
    if p.len() > 0 && has_prefix(s, p) {
        strip_lead_pat(s.skip(p.len() as int), p)
    } else {
        s
    }
}

fn strip_lead_pat_exec(s: &[char], p: &[char]) -> (r: Vec<char>)
    ensures
        r@ == strip_lead_pat(s@, p@),
{
    let mut i: usize = 0;
    assert(s@.skip(0) =~= s@);
    while p.len() > 0 && crate::strings::prefix_at(s, p, i)
        invariant
            i <= s@.len(),
            strip_lead_pat(s@, p@) == strip_lead_pat(s@.skip(i as int), p@),
        decreases s@.len() - i,
    {
        assert(s@.skip(i as int).skip(p@.len() as int) =~= s@.skip(i + p@.len()));
        assert(s@.len() == s.len());
        i = i + p.len();
    }
    slice(s, i, s.len())
}

pub open spec fn lit_js_colon() -> Seq<char> {
    seq!['j', 's', ':']
}

/// What the content rule's text is before its replacements: the JSONPath
/// result for JSON bodies and `$` rules, else the first text the rule
/// selects from the page.
pub open spec fn content_text<H: RuleHost>(host: &H, rule: ContentRule, body: Seq<char>) -> Seq<char> {
    if spec_is_json(body) && is_json_path_rule(rule.content) {
        match json_parse(body) {
            Some(v) => or_empty(host.json_first_string_result(v, rule_text(rule.content))),
            None => seq![],
        }
    } else {
        or_empty(spec_select_text(&parsed_html(body), rule_text(rule.content)))
    }
}

/// The content rule of a source (empty when it has none).
pub open spec fn content_rule_of(source: BookSource) -> ContentRule {
    match source.rule_content {
        Some(r) => r,
        None => ContentRule { content: None, replace_regex: None },
    }
}

/// The script of a `js:` content rule, when the rule is one.
pub open spec fn content_script(rule: ContentRule) -> Option<Seq<char>> {
    match rule.content {
        Some(c) => if has_prefix(trim_start(c@), lit_js_colon()) {
            Some(strip_lead_pat(c@, lit_js_colon()))
        } else {
            None
        },
        None => None,
    }
}

/// What `content` gives: a `js:` rule's script result when it succeeds;
/// else the selected text with the replacements applied.
pub open spec fn spec_content<H: RuleHost>(host: &H, source: BookSource, body: Seq<char>, base: Seq<char>) -> Seq<char> {
    let rule = content_rule_of(source);
    let scripted = match content_script(rule) {
        Some(script) => host.script_result(script, body, base),
        None => None,
    };
    match scripted {
        Some(res) => res,
        None => {
            let text = content_text(host, rule, body);
            match rule.replace_regex {
                Some(r) => spec_apply_legado_regex(text, r@),
                None => text,
            }
        },
    }
}

/// The rule engine: reads books, chapters and text out of fetched pages
/// with a book source's rules.
#[derive(Clone, Copy, Default)]
pub struct RuleEngine;

impl RuleEngine {
    /// A rule engine.
    pub fn new() -> (r: Result<RuleEngine, ()>)
        ensures
            r is Ok,
    {
        Ok(RuleEngine)
    }

    /// The books a source's search page lists.
    pub fn search_books<H: RuleHost>(&self, host: &H, source: &BookSource, body: &str, base_url: &str) -> (r: Vec<SearchBook>)
        requires
            search_rule_ok(search_rule_of(*source)),
        ensures
            r@.map_values(|b: SearchBook| b@) == spec_search_with_rule(
                host,
                *source,
                search_rule_of(*source),
                body@,
                base_url@,
            ),
    {
        let empty = SearchRule::default();
        let rule = match &source.rule_search {
            Some(r) => r,
            None => &empty,
        };
        search_with_rule(host, source, rule, body, base_url)
    }

    /// The books a source's explore page lists (read with the search rule
    /// when the source has no explore rule).
    pub fn explore_books<H: RuleHost>(&self, host: &H, source: &BookSource, body: &str, base_url: &str) -> (r: Vec<SearchBook>)
        requires
            search_rule_ok(explore_rule_of(*source)),
        ensures
            r@.map_values(|b: SearchBook| b@) == spec_search_with_rule(
                host,
                *source,
                explore_rule_of(*source),
                body@,
                base_url@,
            ),
    {
        let empty = SearchRule::default();
        let rule = match &source.rule_explore {
            Some(r) => r,
            None => match &source.rule_search {
                Some(r) => r,
                None => &empty,
            },
        };
        search_with_rule(host, source, rule, body, base_url)
    }

    /// The chapters a source's table of contents lists.
    pub fn chapter_list<H: RuleHost>(&self, host: &H, source: &BookSource, body: &str, base_url: &str) -> (r: Vec<BookChapter>)
        requires
            toc_rule_ok(toc_rule_of(*source)),
        ensures
            r@.map_values(|c: BookChapter| c@) == spec_chapter_list(host, toc_rule_of(*source), body@, base_url@),
    {
        let empty = TocRule::default();
        let rule = match &source.rule_toc {
            Some(r) => r,
            None => &empty,
        };
        if is_json(body) && json_path_rule(&rule.chapter_list) {
            let mut ctx = Context::new();
            return parse_chapter_list_json(host, body, base_url, rule, &mut ctx);
        }
        let mut ctx = Context::new();
        parse_chapter_list_html(host, body, base_url, rule, &mut ctx)
    }

    /// The details a source's book page gives.
    pub fn book_info<H: RuleHost>(&self, host: &H, source: &BookSource, body: &str, base_url: &str, book_url: &str) -> (r: Book)
        ensures
            r@ == spec_book_info(host, *source, body@, base_url@, book_url@),
    {
        let empty = BookInfoRule::default();
        let rule = match &source.rule_book_info {
            Some(r) => r,
            None => &empty,
        };
        if is_json(body) {
            if let Some(v) = parse_json(body) {
                let mut ctx = Context::new();
                return parse_book_info_json(host, source, &v, base_url, rule, book_url, &mut ctx);
            }
        }
        let mut ctx = Context::new();
        parse_book_info_html(host, source, body, base_url, rule, book_url, &mut ctx)
    }

    /// The text of a chapter page.
    pub fn content<H: RuleHost>(&self, host: &H, source: &BookSource, body: &str, base_url: &str) -> (r: String)
        ensures
            r@ == spec_content(host, *source, body@, base_url@),
    {
        let empty = ContentRule::default();
        let rule = match &source.rule_content {
            Some(r) => r,
            None => &empty,
        };
        let js_l = vec!['j', 's', ':'];
        assert(js_l@ =~= lit_js_colon());
        if let Some(content_rule) = &rule.content {
            let cs = chars_of(content_rule.as_str());
            let t = trim_start_chars(cs.as_slice());
            if starts_with(t.as_slice(), js_l.as_slice()) {
                let script = strip_lead_pat_exec(cs.as_slice(), js_l.as_slice());
                if let Some(res) = host.eval_js(string_of(script.as_slice()).as_str(), body, base_url) {
                    return res;
                }
            }
        }
        let content_rule = rule_chars(&rule.content);
        let content = if is_json(body) && json_path_rule(&rule.content) {
            match parse_json(body) {
                Some(v) => {
                    match host.json_first_string(&v, string_of(content_rule.as_slice()).as_str()) {
                        Some(t) => t,
                        None => String::new(),
                    }
                },
                None => String::new(),
            }
        } else {
            let doc = parse_document(body);
            let texts = text_list_chars(&doc, content_rule.as_slice());
            if texts.len() > 0 {
                assert(texts@[0]@ == views(texts@)[0]);
                string_of(texts[0].as_slice())
            } else {
                String::new()
            }
        };
        match &rule.replace_regex {
            Some(r) => apply_legado_regex(content.as_str(), r.as_str()),
            None => content,
        }
    }
}

} // verus!
