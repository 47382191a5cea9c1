//! Text helpers: whitespace normalisation and regular-expression replacement.

use vstd::prelude::*;
use crate::strings::{chars_of, join, join_chars, string_of, words, words_chars};

verus! {

#[verifier::external_type_specification]
#[verifier::external_body]
pub struct ExRegex(regex::Regex);

/// Whether `regex::Regex::new` accepts the pattern.
pub uninterp spec fn regex_compiles(pattern: Seq<char>) -> bool;

/// What `Regex::replace_all` gives for a regex compiled from `pattern`:
/// every match in `input` replaced by `replacement` (with `$name` expansion).
pub uninterp spec fn regex_replace_all(pattern: Seq<char>, input: Seq<char>, replacement: Seq<char>) -> Seq<char>;

/// A compiled regular expression together with the pattern it came from.
pub struct Pattern {
    source: String,
    re: regex::Regex,
}

impl View for Pattern {
    type V = Seq<char>;

    closed spec fn view(&self) -> Seq<char> {
        self.source@
    }
}

/// Calls `regex::Regex::new`; the claim is that it succeeds exactly when
/// `regex_compiles` holds of the pattern, and keeps the pattern text.
#[verifier::external_body]
fn compile_regex(pattern: &str) -> (r: Option<Pattern>)
    ensures
        r is Some <==> regex_compiles(pattern@),
        r matches Some(p) ==> p@ == pattern@,
{
    regex::Regex::new(pattern).ok().map(|re| Pattern { source: pattern.to_string(), re })
}

/// Calls `regex::Regex::replace_all`; the claim is that the result is the
/// named replacement of the pattern's matches in `input`.
#[verifier::external_body]
fn regex_replace(p: &Pattern, input: &str, replacement: &str) -> (r: String)
    ensures
        r@ == regex_replace_all(p@, input@, replacement@),
{
    p.re.replace_all(input, replacement).into_owned()
}

/// `strip_whitespace` as a function of the characters.
pub open spec fn spec_strip_whitespace(s: Seq<char>) -> Seq<char> {
    join(words(s), seq![' '])
}

/// Collapses every run of whitespace to a single space and drops leading
/// and trailing whitespace.
pub fn strip_whitespace(s: &str) -> (r: String)
    ensures
        r@ == spec_strip_whitespace(s@),
{
    let cs = chars_of(s);
    let ws = words_chars(cs.as_slice());
    let sep = vec![' '];
    assert(sep@ =~= seq![' ']);
    let joined = join_chars(&ws, sep.as_slice());
    string_of(joined.as_slice())
}

/// What `apply_regex_replace` returns.
pub open spec fn spec_apply_regex_replace(input: Seq<char>, pattern: Seq<char>, replace: Seq<char>) -> Seq<char> {
    if regex_compiles(pattern) {
        regex_replace_all(pattern, input, replace)
    } else {
        input
    }
}

/// Replaces every match of `pattern` in `input`; an invalid pattern leaves
/// the input unchanged.
pub fn apply_regex_replace(input: &str, pattern: &str, replace: &str) -> (r: String)
    ensures
        r@ == spec_apply_regex_replace(input@, pattern@, replace@),
{
    match compile_regex(pattern) {
        Some(re) => regex_replace(&re, input, replace),
        None => String::from_str(input),
    }
}

} // verus!
