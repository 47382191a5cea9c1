//! The Legado selector dialect: its translation to CSS, the index suffixes
//! (`.n`, `.-n`, `.a:b`, `!n`) and how they pick among matched elements.

use vstd::prelude::*;
use crate::strings::{
    lemma_trim_len,
    chars_of, contains, contains_chars, has_prefix, join, join_chars, rfind_char, rfind_char_exec,
    slice, split, split_chars, starts_with, string_of, trim, trim_chars, views, words, words_chars,
};

verus! {

/// Whether `char::is_alphabetic` holds (the Unicode `Alphabetic` property).
pub uninterp spec fn unicode_alphabetic(c: char) -> bool;

/// Calls `char::is_alphabetic`.
#[verifier::external_body]
fn char_is_alphabetic(c: char) -> (b: bool)
    ensures
        b == unicode_alphabetic(c),
{
    c.is_alphabetic()
}

pub open spec fn class_prefix() -> Seq<char> {
    seq!['c', 'l', 'a', 's', 's', '.']
}

pub open spec fn id_prefix() -> Seq<char> {
    seq!['i', 'd', '.']
}

pub open spec fn tag_prefix() -> Seq<char> {
    seq!['t', 'a', 'g', '.']
}

/// The CSS selector for a Legado selector:
/// `class.a b c` gives `.a.b.c`, `class.a` gives `.a`, `id.x` gives `#x`,
/// `tag.x` gives `x`; selectors starting with `.`, `#` or `[` stay as they
/// are; a selector starting with a letter and holding several words gives
/// the words as classes of one element.
pub open spec fn spec_legado_to_css(selector: Seq<char>) -> Seq<char> {
    let s = trim(selector);
    if has_prefix(s, class_prefix()) {
        let rest = s.skip(6);
        if words(rest).len() > 1 {
            seq!['.'] + join(words(rest), seq!['.'])
        } else {
            seq!['.'] + trim(rest)
        }
    } else if has_prefix(s, id_prefix()) {
        seq!['#'] + s.skip(3)
    } else if has_prefix(s, tag_prefix()) {
        s.skip(4)
    } else if s.len() > 0 && (s[0] == '.' || s[0] == '#' || s[0] == '[') {
        s
    } else if s.len() > 0 && unicode_alphabetic(s[0]) && words(s).len() > 1 {
        seq!['.'] + join(words(s), seq!['.'])
    } else {
        s
    }
}

fn dot_join(ws: &Vec<Vec<char>>) -> (r: Vec<char>)
    ensures
        r@ == seq!['.'] + join(views(ws@), seq!['.']),
{
    let dot = vec!['.'];
    assert(dot@ =~= seq!['.']);
    let joined = join_chars(ws, dot.as_slice());
    let mut r = vec!['.'];
    let mut k: usize = 0;
    while k < joined.len()
        invariant
            k <= joined@.len(),
            r@ == seq!['.'] + joined@.take(k as int),
        decreases joined@.len() - k,
    {
        r.push(joined[k]);
        assert(r@ =~= seq!['.'] + joined@.take(k + 1));
        k = k + 1;
    }
    assert(joined@.take(joined@.len() as int) =~= joined@);
    r
}

fn prepend(c: char, s: &[char]) -> (r: Vec<char>)
    ensures
        r@ == seq![c] + s@,
{
    let mut r = vec![c];
    let mut k: usize = 0;
    while k < s.len()
        invariant
            k <= s@.len(),
            r@ == seq![c] + s@.take(k as int),
        decreases s@.len() - k,
    {
        r.push(s[k]);
        assert(r@ =~= seq![c] + s@.take(k + 1));
        k = k + 1;
    }
    assert(s@.take(s@.len() as int) =~= s@);
    r
}

pub fn css_chars(selector: &[char]) -> (r: Vec<char>)
    ensures
        r@ == spec_legado_to_css(selector@),
{
    let s = trim_chars(selector);
    let class_p = vec!['c', 'l', 'a', 's', 's', '.'];
    let id_p = vec!['i', 'd', '.'];
    let tag_p = vec!['t', 'a', 'g', '.'];
    assert(class_p@ =~= class_prefix());
    assert(id_p@ =~= id_prefix());
    assert(tag_p@ =~= tag_prefix());
    if starts_with(s.as_slice(), class_p.as_slice()) {
        let rest = slice(s.as_slice(), 6, s.len());
        let classes = words_chars(rest.as_slice());
        if classes.len() > 1 {
            return dot_join(&classes);
        } else {
            let t = trim_chars(rest.as_slice());
            return prepend('.', t.as_slice());
        }
    }
    if starts_with(s.as_slice(), id_p.as_slice()) {
        let rest = slice(s.as_slice(), 3, s.len());
        return prepend('#', rest.as_slice());
    }
    if starts_with(s.as_slice(), tag_p.as_slice()) {
        return slice(s.as_slice(), 4, s.len());
    }
    if s.len() > 0 && (s[0] == '.' || s[0] == '#' || s[0] == '[') {
        return s;
    }
    if s.len() > 0 && char_is_alphabetic(s[0]) {
        let parts = words_chars(s.as_slice());
        if parts.len() > 1 {
            return dot_join(&parts);
        }
        return s;
    }
    s
}

/// Converts a Legado selector to a CSS selector.
pub fn legado_to_css(selector: &str) -> (r: String)
    ensures
        r@ == spec_legado_to_css(selector@),
{
    let cs = chars_of(selector);
    let r = css_chars(cs.as_slice());
    string_of(r.as_slice())
}


pub open spec fn is_digit(c: char) -> bool {
    '0' <= c && c <= '9'
}

/// The value of a sequence of decimal digits.
pub open spec fn digits_value(s: Seq<char>) -> int
    decreases s.len(),
{
    if s.len() == 0 {
        0
    } else {
        digits_value(s.drop_last()) * 10 + ((s.last() as int) - ('0' as int))
    }
}

/// Whether the text starts with a sign character.
pub open spec fn has_sign(s: Seq<char>) -> bool {
    s.len() > 0 && (s[0] == '-' || s[0] == '+')
}

/// The text after its sign character, if any.
pub open spec fn unsigned_part(s: Seq<char>) -> Seq<char> {
    if has_sign(s) {
        s.drop_first()
    } else {
        s
    }
}

pub open spec fn all_digits(s: Seq<char>) -> bool {
    forall|i: int| 0 <= i < s.len() ==> is_digit(#[trigger] s[i])
}

/// The signed value written by the text.
pub open spec fn signed_value(s: Seq<char>) -> int {
    if s.len() > 0 && s[0] == '-' {
        -digits_value(unsigned_part(s))
    } else {
        digits_value(unsigned_part(s))
    }
}

/// What `str::parse::<i32>` gives: an optional `+` or `-` followed by at
/// least one decimal digit, the value lying in the range of `i32`.
pub open spec fn spec_parse_i32(s: Seq<char>) -> Option<i32> {
    if unsigned_part(s).len() > 0 && all_digits(unsigned_part(s)) && i32::MIN <= signed_value(s)
        <= i32::MAX {
        Some(signed_value(s) as i32)
    } else {
        None
    }
}

proof fn lemma_digits_value_grows(s: Seq<char>, k: int)
    requires
        0 <= k <= s.len(),
        forall|i: int| 0 <= i < s.len() ==> is_digit(#[trigger] s[i]),
    ensures
        0 <= digits_value(s.take(k)) <= digits_value(s),
    decreases s.len(),
{
    if s.len() > 0 {
        if k == s.len() {
            assert(s.take(k) =~= s);
            lemma_digits_value_grows(s.drop_last(), k - 1);
            assert(s.drop_last().take(k - 1) =~= s.drop_last());
        } else {
            lemma_digits_value_grows(s.drop_last(), k);
            assert(s.drop_last().take(k) =~= s.take(k));
            lemma_digits_value_grows(s.drop_last(), s.len() - 1);
            assert(s.drop_last().take(s.len() - 1) =~= s.drop_last());
        }
    } else {
        assert(s.take(k) =~= s);
    }
}

/// `str::parse::<i32>`.
pub fn parse_i32(s: &[char]) -> (r: Option<i32>)
    ensures
        r == spec_parse_i32(s@),
{
    let neg = s.len() > 0 && s[0] == '-';
    let start: usize = if s.len() > 0 && (s[0] == '-' || s[0] == '+') {
        1
    } else {
        0
    };
    let ghost ds = s@.skip(start as int);
    assert(start == 1 ==> ds =~= s@.drop_first());
    assert(start == 0 ==> ds =~= s@);
    if start == s.len() {
        return None;
    }
    let mut acc: i64 = 0;
    let mut i = start;
    let mut too_big = false;
    while i < s.len()
        invariant
            start <= i <= s@.len(),
            ds == s@.skip(start as int),
            start == 1 ==> ds == s@.drop_first(),
            start == 0 ==> ds == s@,
            start == 1 <==> (s@.len() > 0 && (s@[0] == '-' || s@[0] == '+')),
            start <= 1,
            neg == (s@.len() > 0 && s@[0] == '-'),
            forall|k: int| start <= k < i ==> is_digit(#[trigger] s@[k]),
            !too_big ==> acc == digits_value(ds.take(i - start)),
            !too_big ==> 0 <= acc <= 2147483648,
            too_big ==> digits_value(ds.take(i - start)) > 2147483648,
        decreases s@.len() - i,
    {
        let c = s[i];
        if !('0' <= c && c <= '9') {
            assert(!is_digit(ds[i - start]));
            assert(!all_digits(unsigned_part(s@)));
            return None;
        }
        proof {
            assert(ds.take(i - start + 1).drop_last() =~= ds.take(i - start));
            assert(ds.take(i - start + 1).last() == c);
        }
        if !too_big {
            let d = (c as u32 - '0' as u32) as i64;
            acc = acc * 10 + d;
            if acc > 2147483648 {
                too_big = true;
            }
        } else {
            proof {
                let prev = ds.take(i - start);
                assert(digits_value(ds.take(i - start + 1)) == digits_value(prev) * 10 + ((c as int) - ('0' as int)));
            }
        }
        i = i + 1;
    }
    assert(ds.take(ds.len() as int) =~= ds);
    assert(ds == unsigned_part(s@));
    assert forall|k: int| 0 <= k < ds.len() implies is_digit(#[trigger] ds[k]) by {
        assert(ds[k] == s@[k + start]);
    }
    if too_big {
        return None;
    }
    if neg {
        Some((-acc) as i32)
    } else if acc <= 2147483647 {
        Some(acc as i32)
    } else {
        None
    }
}

/// `sel!n`: the selector before the last `!` and the number after it.
pub open spec fn bang_split(conv: Seq<char>) -> Option<(Seq<char>, i32)> {
    match rfind_char(conv, '!') {
        Some(p) => match spec_parse_i32(conv.skip(p + 1)) {
            Some(v) => Some((conv.take(p), v)),
            None => None,
        },
        None => None,
    }
}

/// `sel.a:b` or `sel.n`: the selector before the last `.` and the indices
/// written after it.
pub open spec fn dot_split(conv: Seq<char>) -> Option<(Seq<char>, Seq<i32>)> {
    match rfind_char(conv, '.') {
        Some(p) => {
            let last_part = conv.skip(p + 1);
            let parts = split(last_part, seq![':']);
            if contains(last_part, seq![':']) && parts.len() >= 2 {
                let start = match spec_parse_i32(parts[0]) {
                    Some(v) => v,
                    None => 0i32,
                };
                let end = match spec_parse_i32(parts[1]) {
                    Some(v) => v,
                    None => -1i32,
                };
                Some((conv.take(p), seq![start, end]))
            } else {
                match spec_parse_i32(last_part) {
                    Some(v) => Some((conv.take(p), seq![v])),
                    None => None,
                }
            }
        },
        None => None,
    }
}

/// The selector, index list and exclusion list that a Legado selector
/// carries: `sel!n` excludes the `n`-th match, `sel.a:b` takes a range,
/// `sel.n` picks the `n`-th match (negative counts from the end).
pub open spec fn spec_parse_selector_with_index(s: Seq<char>) -> (Seq<char>, Seq<i32>, Option<Seq<i32>>) {
    let converted = spec_legado_to_css(s);
    match bang_split(converted) {
        Some((before, v)) => (before, seq![0i32], Some(seq![v])),
        None => match dot_split(converted) {
            Some((before, indices)) => (before, indices, None),
            None => (converted, seq![0i32], None),
        },
    }
}

/// The view of an optional index list.
pub open spec fn opt_seq(o: Option<Vec<i32>>) -> Option<Seq<i32>> {
    match o {
        Some(v) => Some(v@),
        None => None,
    }
}

pub fn parse_selector_chars(s: &[char]) -> (r: (Vec<char>, Vec<i32>, Option<Vec<i32>>))
    ensures
        r.0@ == spec_parse_selector_with_index(s@).0,
        r.1@ == spec_parse_selector_with_index(s@).1,
        opt_seq(r.2) == spec_parse_selector_with_index(s@).2,
{
    let converted = css_chars(s);
    if let Some(pos) = rfind_char_exec(converted.as_slice(), '!') {
        assert(pos < converted.len());
        let after = slice(converted.as_slice(), pos + 1, converted.len());
        assert(after@ =~= converted@.skip(pos + 1));
        if let Some(idx) = parse_i32(after.as_slice()) {
            let before = slice(converted.as_slice(), 0, pos);
            assert(before@ =~= converted@.take(pos as int));
            let r = (before, vec![0i32], Some(vec![idx]));
            assert(r.1@ =~= seq![0i32]);
            assert(opt_seq(r.2)->0 =~= seq![idx]);
            assert(bang_split(converted@) == Some((before@, idx)));
            return r;
        }
    }
    assert(bang_split(converted@) is None);
    if let Some(pos) = rfind_char_exec(converted.as_slice(), '.') {
        assert(pos < converted.len());
        let last_part = slice(converted.as_slice(), pos + 1, converted.len());
        assert(last_part@ =~= converted@.skip(pos + 1));
        let colon = vec![':'];
        assert(colon@ =~= seq![':']);
        let parts = split_chars(last_part.as_slice(), colon.as_slice());
        if contains_chars(last_part.as_slice(), colon.as_slice()) && parts.len() >= 2 {
            assert(parts[0]@ == views(parts@)[0]);
            assert(parts[1]@ == views(parts@)[1]);
            let start: i32 = match parse_i32(parts[0].as_slice()) {
                Some(v) => v,
                None => 0,
            };
            let end: i32 = match parse_i32(parts[1].as_slice()) {
                Some(v) => v,
                None => -1,
            };
            let before = slice(converted.as_slice(), 0, pos);
            assert(before@ =~= converted@.take(pos as int));
            let r = (before, vec![start, end], None);
            assert(r.1@ =~= seq![start, end]);
            assert(dot_split(converted@) == Some((before@, seq![start, end])));
            return r;
        }
        if let Some(idx) = parse_i32(last_part.as_slice()) {
            let before = slice(converted.as_slice(), 0, pos);
            assert(before@ =~= converted@.take(pos as int));
            let r = (before, vec![idx], None);
            assert(r.1@ =~= seq![idx]);
            assert(dot_split(converted@) == Some((before@, seq![idx])));
            return r;
        }
    }
    assert(dot_split(converted@) is None);
    let r = (converted, vec![0i32], None);
    assert(r.1@ =~= seq![0i32]);
    r
}

/// Splits a Legado selector into its CSS selector, its index list and its
/// exclusion list.
pub fn parse_selector_with_index(s: &str) -> (r: (String, Vec<i32>, Option<Vec<i32>>))
    ensures
        r.0@ == spec_parse_selector_with_index(s@).0,
        r.1@ == spec_parse_selector_with_index(s@).1,
        opt_seq(r.2) == spec_parse_selector_with_index(s@).2,
{
    let cs = chars_of(s);
    let (css, indices, exclude) = parse_selector_chars(cs.as_slice());
    (string_of(css.as_slice()), indices, exclude)
}


/// The matches left after dropping those whose position (as an `i32`) is
/// listed in `ex`.
pub open spec fn without_positions<T>(m: Seq<T>, ex: Seq<i32>) -> Seq<T>
    decreases m.len(),
{
    if m.len() == 0 {
        m
    } else if ex.contains((m.len() - 1) as i32) {
        without_positions(m.drop_last(), ex)
    } else {
        without_positions(m.drop_last(), ex).push(m.last())
    }
}

/// The matches from position `start` through position `end` (to the last
/// one where `end` is negative); nothing where `start` is negative.
pub open spec fn range_slice<T>(m: Seq<T>, start: i32, end: i32) -> Seq<T> {
    let e: int = if end < 0 {
        m.len() as int
    } else {
        end + 1
    };
    let hi: int = if e < m.len() {
        e
    } else {
        m.len() as int
    };
    if start < 0 || start >= m.len() || e <= start {
        Seq::empty()
    } else {
        m.subrange(start as int, hi)
    }
}

/// The position a non-zero index designates: negative indices count from
/// the end.
pub open spec fn designated(len: int, index: i32) -> int {
    if index < 0 {
        len + index
    } else {
        index as int
    }
}

/// Index 0 keeps every match; any other index keeps the one match it
/// designates, or none.
pub open spec fn pick_index<T>(m: Seq<T>, index: i32) -> Seq<T> {
    let idx = designated(m.len() as int, index);
    if index == 0 {
        m
    } else if 0 <= idx < m.len() {
        seq![m[idx]]
    } else {
        Seq::empty()
    }
}

/// The first index of an index list (0 when it is empty).
pub open spec fn first_index(indices: Seq<i32>) -> i32 {
    if indices.len() > 0 {
        indices[0]
    } else {
        0
    }
}

/// How a list selector narrows its matches: an exclusion list drops the
/// listed positions, two indices take a range, one index picks a match.
pub open spec fn select_by_index<T>(m: Seq<T>, indices: Seq<i32>, exclude: Option<Seq<i32>>) -> Seq<T> {
    if m.len() == 0 {
        m
    } else {
        match exclude {
            Some(ex) => without_positions(m, ex),
            None => if indices.len() == 2 {
                range_slice(m, indices[0], indices[1])
            } else {
                pick_index(m, first_index(indices))
            },
        }
    }
}

fn contains_i32(v: &Vec<i32>, x: i32) -> (b: bool)
    ensures
        b == v@.contains(x),
{
    let mut i: usize = 0;
    while i < v.len()
        invariant
            i <= v@.len(),
            forall|k: int| 0 <= k < i ==> v@[k] != x,
        decreases v@.len() - i,
    {
        if v[i] == x {
            assert(v@[i as int] == x);
            return true;
        }
        i = i + 1;
    }
    false
}

/// Drops the matches whose position is listed in `ex`.
pub fn exclude_positions<T: Copy>(m: &Vec<T>, ex: &Vec<i32>) -> (r: Vec<T>)
    ensures
        r@ == without_positions(m@, ex@),
{
    let mut r: Vec<T> = Vec::new();
    let mut i: usize = 0;
    while i < m.len()
        invariant
            i <= m@.len(),
            r@ == without_positions(m@.take(i as int), ex@),
        decreases m@.len() - i,
    {
        assert(m@.take(i + 1).drop_last() =~= m@.take(i as int));
        assert(m@.take(i + 1).last() == m@[i as int]);
        if !contains_i32(ex, i as i32) {
            r.push(m[i]);
        }
        i = i + 1;
    }
    assert(m@.take(m@.len() as int) =~= m@);
    r
}

/// Takes the matches from `start` through `end`.
pub fn slice_range<T: Copy>(m: &Vec<T>, start: i32, end: i32) -> (r: Vec<T>)
    ensures
        r@ == range_slice(m@, start, end),
{
    let len = m.len();
    if start < 0 || start as usize >= len {
        return Vec::new();
    }
    let st = start as usize;
    let e: usize = if end < 0 {
        len
    } else {
        end as usize + 1
    };
    if e <= st {
        return Vec::new();
    }
    let hi = if e < len {
        e
    } else {
        len
    };
    let mut r: Vec<T> = Vec::new();
    let mut i = st;
    while i < hi
        invariant
            st <= i <= hi <= m@.len(),
            r@ == m@.subrange(st as int, i as int),
        decreases hi - i,
    {
        r.push(m[i]);
        assert(r@ =~= m@.subrange(st as int, i + 1));
        i = i + 1;
    }
    r
}

/// Keeps every match for index 0, otherwise the designated match.
pub fn pick_by_index<T: Copy>(m: Vec<T>, index: i32) -> (r: Vec<T>)
    ensures
        r@ == pick_index(m@, index),
{
    if index == 0 {
        return m;
    }
    let len = m.len();
    let idx: usize = if index < 0 {
        let back = (0i64 - index as i64) as usize;
        if back > len {
            return Vec::new();
        }
        len - back
    } else {
        index as usize
    };
    if idx < len {
        let r = vec![m[idx]];
        assert(r@ =~= seq![m@[idx as int]]);
        r
    } else {
        Vec::new()
    }
}

/// Narrows a list of matches as a list selector's index suffix says.
pub fn apply_index_selection<T: Copy>(m: Vec<T>, indices: &Vec<i32>, exclude: &Option<Vec<i32>>) -> (r: Vec<T>)
    ensures
        r@ == select_by_index(m@, indices@, opt_seq(*exclude)),
{
    if m.len() == 0 {
        return m;
    }
    match exclude {
        Some(ex) => exclude_positions(&m, ex),
        None => {
            if indices.len() == 2 {
                slice_range(&m, indices[0], indices[1])
            } else {
                let index: i32 = if indices.len() > 0 {
                    indices[0]
                } else {
                    0
                };
                pick_by_index(m, index)
            }
        },
    }
}


/// The number of bytes `char::len_utf8` gives.
pub open spec fn utf8_len(c: char) -> int {
    if (c as u32) < 0x80 {
        1
    } else if (c as u32) < 0x800 {
        2
    } else if (c as u32) < 0x10000 {
        3
    } else {
        4
    }
}

fn char_utf8_len(c: char) -> (n: usize)
    ensures
        n == utf8_len(c),
{
    let v = c as u32;
    if v < 0x80 {
        1
    } else if v < 0x800 {
        2
    } else if v < 0x10000 {
        3
    } else {
        4
    }
}

/// The byte offset of the `k`-th character in the UTF-8 encoding of `s`.
pub open spec fn byte_offset(s: Seq<char>, k: int) -> int
    decreases k,
{
    if k <= 0 {
        0
    } else {
        byte_offset(s, k - 1) + utf8_len(s[k - 1])
    }
}

pub proof fn lemma_byte_offset_ge(s: Seq<char>, k: int)
    requires
        0 <= k,
    ensures
        byte_offset(s, k) >= k,
    decreases k,
{
    if k > 0 {
        lemma_byte_offset_ge(s, k - 1);
    }
}

/// Whether a list-combination operator (`&&`, `||`, `%%`) is recognised at
/// character `k`: its first character is at `k`, and its second is looked
/// up at the character whose index is the byte offset of `k` plus one.
pub open spec fn op_at(s: Seq<char>, k: int) -> bool {
    let c = s[k];
    let j = byte_offset(s, k) + 1;
    (c == '&' || c == '|' || c == '%') && j < s.len() && s[j] == c
}

/// The first character index at or after `k` where an operator is recognised.
pub open spec fn first_op_from(s: Seq<char>, k: int) -> Option<int>
    decreases s.len() - k,
{
    if k < 0 || k >= s.len() {
        None
    } else if op_at(s, k) {
        Some(k)
    } else {
        first_op_from(s, k + 1)
    }
}

pub proof fn lemma_first_op_from(s: Seq<char>, k: int)
    requires
        0 <= k,
    ensures
        first_op_from(s, k) matches Some(i) ==> k <= i && i + 1 < s.len() && op_at(s, i),
    decreases s.len() - k,
{
    if k < s.len() {
        if op_at(s, k) {
            lemma_byte_offset_ge(s, k);
        } else {
            lemma_first_op_from(s, k + 1);
        }
    }
}

/// The rules and operators of a combined list rule `r1 && r2 || r3 %% r4`.
pub open spec fn tokenize(s: Seq<char>) -> (Seq<Seq<char>>, Seq<char>)
    decreases s.len(),
{
    if s.len() == 0 {
        (seq![], seq![])
    } else {
        match first_op_from(s, 0) {
            Some(k) => {
                proof {
                    lemma_first_op_from(s, 0);
                    lemma_trim_len(s.skip(k + 2));
                }
                let rest = trim(s.skip(k + 2));
                (seq![trim(s.take(k))] + tokenize(rest).0, seq![s[k]] + tokenize(rest).1)
            },
            None => (seq![trim(s)], seq![]),
        }
    }
}

/// The inputs on which splitting a combined rule stays within character
/// boundaries: the character after each recognised operator is one byte
/// long, and every operator is followed by a rule.
pub open spec fn tokenize_ok(s: Seq<char>) -> bool
    decreases s.len(),
{
    if s.len() == 0 {
        true
    } else {
        match first_op_from(s, 0) {
            Some(k) => {
                proof {
                    lemma_first_op_from(s, 0);
                    lemma_trim_len(s.skip(k + 2));
                }
                utf8_len(s[k + 1]) == 1 && trim(s.skip(k + 2)).len() > 0 && tokenize_ok(
                    trim(s.skip(k + 2)),
                )
            },
            None => true,
        }
    }
}

pub proof fn lemma_tokenize_counts(s: Seq<char>)
    requires
        tokenize_ok(s),
        s.len() > 0,
    ensures
        tokenize(s).0.len() == tokenize(s).1.len() + 1,
    decreases s.len(),
{
    if let Some(k) = first_op_from(s, 0) {
        lemma_first_op_from(s, 0);
        lemma_trim_len(s.skip(k + 2));
        lemma_tokenize_counts(trim(s.skip(k + 2)));
    }
}

fn first_op(s: &[char]) -> (r: Option<usize>)
    ensures
        match r {
            Some(k) => first_op_from(s@, 0) == Some(k as int),
            None => first_op_from(s@, 0) is None,
        },
{
    let mut k: usize = 0;
    let mut b: usize = 0;
    while k < s.len()
        invariant
            k <= s@.len(),
            b == byte_offset(s@, k as int),
            first_op_from(s@, 0) == first_op_from(s@, k as int),
        decreases s@.len() - k,
    {
        let c = s[k];
        if b >= s.len() {
            proof {
                lemma_no_op_past(s@, k as int);
            }
            return None;
        }
        let j = b + 1;
        if (c == '&' || c == '|' || c == '%') && j < s.len() && s[j] == c {
            return Some(k);
        }
        let n = char_utf8_len(c);
        if n > s.len() - b {
            proof {
                lemma_no_op_past(s@, k + 1);
            }
            return None;
        }
        b = b + n;
        k = k + 1;
    }
    None
}

proof fn lemma_byte_offset_mono(s: Seq<char>, k: int, m: int)
    requires
        0 <= k <= m,
    ensures
        byte_offset(s, k) <= byte_offset(s, m),
    decreases m - k,
{
    if k < m {
        lemma_byte_offset_mono(s, k, m - 1);
    }
}

proof fn lemma_no_op_past(s: Seq<char>, k: int)
    requires
        0 <= k,
        byte_offset(s, k) >= s.len(),
    ensures
        first_op_from(s, k) is None,
    decreases s.len() - k,
{
    if k < s.len() {
        lemma_byte_offset_mono(s, k, k + 1);
        lemma_no_op_past(s, k + 1);
    }
}

/// Splits a combined list rule into its rules and operators.
pub fn tokenize_rule(s: &[char]) -> (r: (Vec<Vec<char>>, Vec<char>))
    ensures
        views(r.0@) == tokenize(s@).0,
        r.1@ == tokenize(s@).1,
{
    let mut rules: Vec<Vec<char>> = Vec::new();
    let mut ops: Vec<char> = Vec::new();
    let mut current: Vec<char> = slice(s, 0, s.len());
    assert(current@ =~= s@);
    while current.len() > 0
        invariant
            views(rules@) + tokenize(current@).0 == tokenize(s@).0,
            ops@ + tokenize(current@).1 == tokenize(s@).1,
        decreases current@.len(),
    {
        match first_op(current.as_slice()) {
            Some(k) => {
                proof {
                    lemma_first_op_from(current@, 0);
                    lemma_trim_len(current@.skip(k + 2));
                }
                let head = slice(current.as_slice(), 0, k);
                let rule = trim_chars(head.as_slice());
                let tail = slice(current.as_slice(), k + 2, current.len());
                let next = trim_chars(tail.as_slice());
                assert(head@ =~= current@.take(k as int));
                assert(tail@ =~= current@.skip(k + 2));
                let ghost old_rules = views(rules@);
                let ghost old_ops = ops@;
                rules.push(rule);
                ops.push(current[k]);
                assert(views(rules@) =~= old_rules.push(rule@));
                assert(views(rules@) + tokenize(next@).0 =~= old_rules + tokenize(current@).0);
                assert(ops@ + tokenize(next@).1 =~= old_ops + tokenize(current@).1);
                current = next;
            },
            None => {
                let rule = trim_chars(current.as_slice());
                let ghost old_rules = views(rules@);
                rules.push(rule);
                assert(views(rules@) =~= old_rules.push(rule@));
                assert(views(rules@) =~= old_rules + tokenize(current@).0);
                assert(ops@ =~= ops@ + tokenize(current@).1);
                return (rules, ops);
            },
        }
    }
    assert(views(rules@) =~= views(rules@) + tokenize(current@).0);
    assert(ops@ =~= ops@ + tokenize(current@).1);
    (rules, ops)
}

/// Whether splitting a combined list rule stays within character
/// boundaries (`tokenize_ok`).
pub fn tokenize_is_ok(s: &[char]) -> (b: bool)
    ensures
        b == tokenize_ok(s@),
{
    let mut current: Vec<char> = slice(s, 0, s.len());
    assert(current@ =~= s@);
    while current.len() > 0
        invariant
            tokenize_ok(current@) == tokenize_ok(s@),
        decreases current@.len(),
    {
        match first_op(current.as_slice()) {
            Some(k) => {
                proof {
                    lemma_first_op_from(current@, 0);
                    lemma_trim_len(current@.skip(k + 2));
                }
                if char_utf8_len(current[k + 1]) != 1 {
                    return false;
                }
                let tail = slice(current.as_slice(), k + 2, current.len());
                assert(tail@ =~= current@.skip(k + 2));
                let next = trim_chars(tail.as_slice());
                if next.len() == 0 {
                    return false;
                }
                current = next;
            },
            None => {
                return true;
            },
        }
    }
    true
}

/// `a[0], b[0], a[1], b[1], ...` over the first `n` positions, skipping
/// positions past the end of either list.
pub open spec fn interleave_upto<T>(a: Seq<T>, b: Seq<T>, n: int) -> Seq<T>
    decreases n,
{
    if n <= 0 {
        seq![]
    } else {
        let r = interleave_upto(a, b, n - 1);
        let r1 = if n - 1 < a.len() {
            r.push(a[n - 1])
        } else {
            r
        };
        if n - 1 < b.len() {
            r1.push(b[n - 1])
        } else {
            r1
        }
    }
}

/// The elements of `a` and `b` taken alternately (`%%`).
pub open spec fn interleave<T>(a: Seq<T>, b: Seq<T>) -> Seq<T> {
    interleave_upto(a, b, if a.len() >= b.len() { a.len() as int } else { b.len() as int })
}

/// One step of a combined list rule: `&&` concatenates, `||` takes the
/// next list when the current one is empty, `%%` interleaves.
pub open spec fn merge_step<T>(acc: Seq<T>, next: Seq<T>, op: char) -> Seq<T> {
    if op == '&' {
        acc + next
    } else if op == '|' {
        if acc.len() == 0 {
            next
        } else {
            acc
        }
    } else if op == '%' {
        interleave(acc, next)
    } else {
        acc
    }
}

/// The result of a combined list rule: the first rule's list merged, left
/// to right, with the lists of the following rules.
pub open spec fn combine<T>(first: Seq<T>, rest: Seq<Seq<T>>, ops: Seq<char>) -> Seq<T>
    decreases ops.len(),
{
    if ops.len() == 0 {
        first
    } else {
        merge_step(combine(first, rest, ops.drop_last()), rest[ops.len() - 1], ops.last())
    }
}

/// Interleaves two lists.
pub fn interleave_lists<T: Copy>(a: &Vec<T>, b: &Vec<T>) -> (r: Vec<T>)
    ensures
        r@ == interleave(a@, b@),
{
    let n = if a.len() >= b.len() {
        a.len()
    } else {
        b.len()
    };
    let mut r: Vec<T> = Vec::new();
    let mut j: usize = 0;
    while j < n
        invariant
            j <= n,
            n == if a@.len() >= b@.len() { a@.len() } else { b@.len() },
            r@ == interleave_upto(a@, b@, j as int),
        decreases n - j,
    {
        if j < a.len() {
            r.push(a[j]);
        }
        if j < b.len() {
            r.push(b[j]);
        }
        j = j + 1;
    }
    r
}

/// One step of a combined list rule.
pub fn merge_lists<T: Copy>(acc: Vec<T>, next: Vec<T>, op: char) -> (r: Vec<T>)
    ensures
        r@ == merge_step(acc@, next@, op),
{
    if op == '&' {
        let mut acc = acc;
        let mut next = next;
        acc.append(&mut next);
        acc
    } else if op == '|' {
        if acc.len() == 0 {
            next
        } else {
            acc
        }
    } else if op == '%' {
        interleave_lists(&acc, &next)
    } else {
        acc
    }
}


/// The one match a step of an element rule moves to: the first match left
/// by an exclusion list, the start of a range, or the designated match.
pub open spec fn step_pick<T>(m: Seq<T>, indices: Seq<i32>, exclude: Option<Seq<i32>>) -> Option<T> {
    if m.len() == 0 {
        None
    } else {
        match exclude {
            Some(ex) => {
                let f = without_positions(m, ex);
                if f.len() == 0 {
                    None
                } else {
                    Some(f[0])
                }
            },
            None => if indices.len() == 2 {
                let start = indices[0];
                let e: int = if indices[1] < 0 {
                    m.len() as int
                } else {
                    indices[1] + 1
                };
                if start < 0 || start >= e || start >= m.len() {
                    None
                } else {
                    Some(m[start as int])
                }
            } else {
                let idx = designated(m.len() as int, first_index(indices));
                if 0 <= idx < m.len() {
                    Some(m[idx])
                } else {
                    None
                }
            },
        }
    }
}

/// Picks the one match a step of an element rule moves to.
pub fn pick_one<T: Copy>(m: &Vec<T>, indices: &Vec<i32>, exclude: &Option<Vec<i32>>) -> (r: Option<T>)
    ensures
        r == step_pick(m@, indices@, opt_seq(*exclude)),
{
    if m.len() == 0 {
        return None;
    }
    match exclude {
        Some(ex) => {
            let f = exclude_positions(m, ex);
            if f.len() == 0 {
                None
            } else {
                Some(f[0])
            }
        },
        None => {
            let len = m.len();
            if indices.len() == 2 {
                let start = indices[0];
                if start < 0 || start as usize >= len {
                    return None;
                }
                let st = start as usize;
                let e: usize = if indices[1] < 0 {
                    len
                } else {
                    indices[1] as usize + 1
                };
                if st >= e {
                    None
                } else {
                    Some(m[st])
                }
            } else {
                let index: i32 = if indices.len() > 0 {
                    indices[0]
                } else {
                    0
                };
                let idx: usize = if index < 0 {
                    let back = (0i64 - index as i64) as usize;
                    if back > len {
                        return None;
                    }
                    len - back
                } else {
                    index as usize
                };
                if idx < len {
                    Some(m[idx])
                } else {
                    None
                }
            }
        },
    }
}

} // verus!
