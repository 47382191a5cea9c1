//! Character-sequence model of the string operations the rules use:
//! Unicode whitespace, trimming, searching, splitting and joining.

use vstd::prelude::*;

verus! {

/// The Unicode `White_Space` property, as used by `char::is_whitespace`,
/// `str::trim` and `str::split_whitespace`.
pub open spec fn is_ws(c: char) -> bool {
    ||| ('\u{9}' <= c && c <= '\u{d}')
    ||| c == ' '
    ||| c == '\u{85}'
    ||| c == '\u{a0}'
    ||| c == '\u{1680}'
    ||| ('\u{2000}' <= c && c <= '\u{200a}')
    ||| c == '\u{2028}'
    ||| c == '\u{2029}'
    ||| c == '\u{202f}'
    ||| c == '\u{205f}'
    ||| c == '\u{3000}'
}

pub fn char_is_ws(c: char) -> (b: bool)
    ensures
        b == is_ws(c),
{
    ('\u{9}' <= c && c <= '\u{d}') || c == ' ' || c == '\u{85}' || c == '\u{a0}' || c == '\u{1680}'
        || ('\u{2000}' <= c && c <= '\u{200a}') || c == '\u{2028}' || c == '\u{2029}' || c
        == '\u{202f}' || c == '\u{205f}' || c == '\u{3000}'
}

/// `s` with its leading whitespace removed.
pub open spec fn trim_start(s: Seq<char>) -> Seq<char>
    decreases s.len(),
{
    if s.len() > 0 && is_ws(s[0]) {
        trim_start(s.drop_first())
    } else {
        s
    }
}

/// `s` with its trailing whitespace removed.
pub open spec fn trim_end(s: Seq<char>) -> Seq<char>
    decreases s.len(),
{
    if s.len() > 0 && is_ws(s.last()) {
        trim_end(s.drop_last())
    } else {
        s
    }
}

/// `str::trim`.
pub open spec fn trim(s: Seq<char>) -> Seq<char> {
    trim_end(trim_start(s))
}

pub proof fn lemma_trim_len(s: Seq<char>)
    ensures
        trim_start(s).len() <= s.len(),
        trim_end(s).len() <= s.len(),
        trim(s).len() <= s.len(),
    decreases s.len(),
{
    if s.len() > 0 {
        lemma_trim_len(s.drop_first());
        lemma_trim_len(s.drop_last());
    }
    lemma_trim_end_len(trim_start(s));
}

proof fn lemma_trim_end_len(s: Seq<char>)
    ensures
        trim_end(s).len() <= s.len(),
    decreases s.len(),
{
    if s.len() > 0 {
        lemma_trim_end_len(s.drop_last());
    }
}

/// The characters of a string slice.
pub(crate) fn chars_of(s: &str) -> (v: Vec<char>)
    ensures
        v@ == s@,
{
    broadcast use vstd::string::axiom_spec_iter;
    let mut v: Vec<char> = Vec::new();
    for c in it: s.chars()
        invariant
            v@ == it.seq().take(it.index() as int),
    {
        v.push(c);
    }
    v
}

/// The string made of the given characters.
#[verifier::external_body]
pub(crate) fn string_of(v: &[char]) -> (s: String)
    ensures
        s@ == v@,
{
    v.iter().collect()
}

/// A copy of `s[from..to]`.
pub fn slice(s: &[char], from: usize, to: usize) -> (r: Vec<char>)
    requires
        from <= to <= s@.len(),
    ensures
        r@ == s@.subrange(from as int, to as int),
{
    let mut r: Vec<char> = Vec::new();
    let mut i = from;
    while i < to
        invariant
            from <= i <= to <= s@.len(),
            r@ == s@.subrange(from as int, i as int),
        decreases to - i,
    {
        r.push(s[i]);
        i = i + 1;
    }
    r
}

proof fn lemma_trim_start_skip(s: Seq<char>, i: int)
    requires
        0 <= i <= s.len(),
        forall|k: int| 0 <= k < i ==> is_ws(#[trigger] s[k]),
    ensures
        trim_start(s) == trim_start(s.skip(i)),
    decreases i,
{
    if i > 0 {
        lemma_trim_start_skip(s, i - 1);
        assert(s.skip(i - 1).drop_first() =~= s.skip(i));
    } else {
        assert(s.skip(0) =~= s);
    }
}

proof fn lemma_trim_end_take(s: Seq<char>, j: int)
    requires
        0 <= j <= s.len(),
        forall|k: int| j <= k < s.len() ==> is_ws(#[trigger] s[k]),
    ensures
        trim_end(s) == trim_end(s.take(j)),
    decreases s.len() - j,
{
    if j < s.len() {
        lemma_trim_end_take(s, j + 1);
        assert(s.take(j + 1).drop_last() =~= s.take(j));
    } else {
        assert(s.take(j) =~= s);
    }
}

/// The index of the first non-whitespace character (or the length).
pub fn trim_start_index(s: &[char]) -> (i: usize)
    ensures
        i <= s@.len(),
        trim_start(s@) == s@.skip(i as int),
{
    let mut i: usize = 0;
    while i < s.len() && char_is_ws(s[i])
        invariant
            i <= s@.len(),
            forall|k: int| 0 <= k < i ==> is_ws(#[trigger] s@[k]),
        decreases s@.len() - i,
    {
        i = i + 1;
    }
    proof {
        lemma_trim_start_skip(s@, i as int);
    }
    i
}

/// The index just after the last non-whitespace character (or 0).
pub fn trim_end_index(s: &[char]) -> (j: usize)
    ensures
        j <= s@.len(),
        trim_end(s@) == s@.take(j as int),
{
    let mut j: usize = s.len();
    while j > 0 && char_is_ws(s[j - 1])
        invariant
            j <= s@.len(),
            forall|k: int| j <= k < s@.len() ==> is_ws(#[trigger] s@[k]),
        decreases j,
    {
        j = j - 1;
    }
    proof {
        lemma_trim_end_take(s@, j as int);
    }
    j
}

/// `str::trim_start`.
pub fn trim_start_chars(s: &[char]) -> (r: Vec<char>)
    ensures
        r@ == trim_start(s@),
{
    let i = trim_start_index(s);
    slice(s, i, s.len())
}

/// `str::trim`.
pub fn trim_chars(s: &[char]) -> (r: Vec<char>)
    ensures
        r@ == trim(s@),
{
    let t = trim_start_chars(s);
    let j = trim_end_index(t.as_slice());
    slice(t.as_slice(), 0, j)
}


/// `p` is a prefix of `s`.
pub open spec fn has_prefix(s: Seq<char>, p: Seq<char>) -> bool {
    p.len() <= s.len() && s.take(p.len() as int) == p
}

/// `str::find`: the index of the first occurrence of `p` in `s`.
pub open spec fn find(s: Seq<char>, p: Seq<char>) -> Option<int>
    decreases s.len(),
{
    if has_prefix(s, p) {
        Some(0)
    } else if s.len() == 0 {
        None
    } else {
        match find(s.drop_first(), p) {
            Some(k) => Some(k + 1),
            None => None,
        }
    }
}

/// `str::contains`.
pub open spec fn contains(s: Seq<char>, p: Seq<char>) -> bool {
    find(s, p) is Some
}

/// `str::rfind` with a single character: the index of its last occurrence.
pub open spec fn rfind_char(s: Seq<char>, c: char) -> Option<int>
    decreases s.len(),
{
    if s.len() == 0 {
        None
    } else if s.last() == c {
        Some(s.len() - 1)
    } else {
        rfind_char(s.drop_last(), c)
    }
}

pub proof fn lemma_find(s: Seq<char>, p: Seq<char>)
    ensures
        find(s, p) matches Some(k) ==> {
            &&& 0 <= k <= s.len() - p.len()
            &&& has_prefix(s.skip(k), p)
            &&& forall|j: int| 0 <= j < k ==> !has_prefix(#[trigger] s.skip(j), p)
        },
        find(s, p) is None ==> forall|j: int| 0 <= j <= s.len() ==> !has_prefix(#[trigger] s.skip(j), p),
    decreases s.len(),
{
    assert(s.skip(0) =~= s);
    if !has_prefix(s, p) && s.len() > 0 {
        lemma_find(s.drop_first(), p);
        assert forall|j: int| 1 <= j <= s.len() implies #[trigger] s.skip(j) =~= s.drop_first().skip(j - 1) by {}
        if let Some(k) = find(s.drop_first(), p) {
            assert forall|j: int| 0 <= j < k + 1 implies !has_prefix(#[trigger] s.skip(j), p) by {
                if j > 0 {
                    assert(s.skip(j) =~= s.drop_first().skip(j - 1));
                }
            }
        } else {
            assert forall|j: int| 0 <= j <= s.len() implies !has_prefix(#[trigger] s.skip(j), p) by {
                if j > 0 {
                    assert(s.skip(j) =~= s.drop_first().skip(j - 1));
                }
            }
        }
    }
}

pub proof fn lemma_find_unique(s: Seq<char>, p: Seq<char>, k: int)
    requires
        0 <= k <= s.len(),
        has_prefix(s.skip(k), p),
        forall|j: int| 0 <= j < k ==> !has_prefix(#[trigger] s.skip(j), p),
    ensures
        find(s, p) == Some(k),
{
    lemma_find(s, p);
    match find(s, p) {
        Some(k2) => {
            if k2 < k {
                assert(!has_prefix(s.skip(k2), p));
            } else if k < k2 {
                assert(!has_prefix(s.skip(k), p));
            }
        },
        None => {
            assert(!has_prefix(s.skip(k), p));
        },
    }
}

pub proof fn lemma_find_none(s: Seq<char>, p: Seq<char>)
    requires
        forall|j: int| 0 <= j <= s.len() ==> !has_prefix(#[trigger] s.skip(j), p),
    ensures
        find(s, p) is None,
{
    lemma_find(s, p);
    if let Some(k) = find(s, p) {
        assert(!has_prefix(s.skip(k), p));
    }
}

/// Whether `p` occurs in `s` at index `at`.
pub fn prefix_at(s: &[char], p: &[char], at: usize) -> (b: bool)
    requires
        at <= s@.len(),
    ensures
        b == has_prefix(s@.skip(at as int), p@),
{
    if p.len() > s.len() - at {
        return false;
    }
    let mut i: usize = 0;
    while i < p.len()
        invariant
            at <= s@.len(),
            p@.len() <= s@.len() - at,
            i <= p@.len(),
            forall|k: int| 0 <= k < i ==> s@[at + k] == p@[k],
        decreases p@.len() - i,
    {
        assert(at + i < s.len());
        if s[at + i] != p[i] {
            assert(s@.skip(at as int).take(p@.len() as int)[i as int] != p@[i as int]);
            return false;
        }
        i = i + 1;
    }
    assert(s@.skip(at as int).take(p@.len() as int) =~= p@);
    true
}

/// The first occurrence of `p` in `s` at or after `from`.
pub fn find_from(s: &[char], p: &[char], from: usize) -> (r: Option<usize>)
    requires
        from <= s@.len(),
    ensures
        match r {
            Some(k) => find(s@.skip(from as int), p@) == Some(k - from) && from <= k <= s@.len() - p@.len(),
            None => find(s@.skip(from as int), p@) is None,
        },
{
    let ghost t = s@.skip(from as int);
    let mut j = from;
    loop
        invariant
            from <= j <= s@.len(),
            t == s@.skip(from as int),
            forall|k: int| 0 <= k < j - from ==> !has_prefix(#[trigger] t.skip(k), p@),
        ensures
            forall|k: int| 0 <= k <= s@.len() - from ==> !has_prefix(#[trigger] t.skip(k), p@),
        decreases s@.len() - j,
    {
        if prefix_at(s, p, j) {
            proof {
                assert(t.skip(j - from) =~= s@.skip(j as int));
                lemma_find_unique(t, p@, j - from);
            }
            return Some(j);
        }
        proof {
            assert(t.skip(j - from) =~= s@.skip(j as int));
        }
        if j == s.len() {
            break;
        }
        j = j + 1;
    }
    proof {
        lemma_find_none(t, p@);
    }
    None
}

/// `str::find`.
pub fn find_chars(s: &[char], p: &[char]) -> (r: Option<usize>)
    ensures
        match r {
            Some(k) => find(s@, p@) == Some(k as int) && k <= s@.len() - p@.len(),
            None => find(s@, p@) is None,
        },
{
    assert(s@.skip(0) =~= s@);
    find_from(s, p, 0)
}

/// `str::starts_with`.
pub fn starts_with(s: &[char], p: &[char]) -> (b: bool)
    ensures
        b == has_prefix(s@, p@),
{
    assert(s@.skip(0) =~= s@);
    prefix_at(s, p, 0)
}

/// `str::contains`.
pub fn contains_chars(s: &[char], p: &[char]) -> (b: bool)
    ensures
        b == contains(s@, p@),
{
    find_chars(s, p).is_some()
}

pub proof fn lemma_rfind_char(s: Seq<char>, c: char)
    ensures
        rfind_char(s, c) matches Some(k) ==> 0 <= k < s.len() && s[k] == c,
    decreases s.len(),
{
    if s.len() > 0 && s.last() != c {
        lemma_rfind_char(s.drop_last(), c);
    }
}

/// `str::rfind` with a single character.
pub fn rfind_char_exec(s: &[char], c: char) -> (r: Option<usize>)
    ensures
        match r {
            Some(k) => rfind_char(s@, c) == Some(k as int) && k < s@.len(),
            None => rfind_char(s@, c) is None,
        },
{
    proof {
        lemma_rfind_char(s@, c);
    }
    let mut j = s.len();
    assert(s@.take(s@.len() as int) =~= s@);
    while j > 0
        invariant
            j <= s@.len(),
            rfind_char(s@, c) == rfind_char(s@.take(j as int), c),
        decreases j,
    {
        assert(s@.take(j as int).drop_last() =~= s@.take(j - 1));
        if s[j - 1] == c {
            return Some(j - 1);
        }
        j = j - 1;
    }
    None
}


/// The character sequences held by a vector of character vectors.
pub open spec fn views(v: Seq<Vec<char>>) -> Seq<Seq<char>> {
    v.map_values(|x: Vec<char>| x@)
}

/// `str::split` with a non-empty pattern: the pieces of `s` between the
/// successive leftmost occurrences of `p`.
pub open spec fn split(s: Seq<char>, p: Seq<char>) -> Seq<Seq<char>>
    decreases s.len(),
{
    if p.len() == 0 {
        seq![s]
    } else {
        match find(s, p) {
            Some(k) => {
                proof {
                    lemma_find(s, p);
                }
                seq![s.take(k)] + split(s.skip(k + p.len()), p)
            },
            None => seq![s],
        }
    }
}

pub proof fn lemma_split_len(s: Seq<char>, p: Seq<char>)
    ensures
        split(s, p).len() >= 1,
    decreases s.len(),
{
    if p.len() > 0 {
        if let Some(k) = find(s, p) {
            lemma_find(s, p);
            lemma_split_len(s.skip(k + p.len()), p);
        }
    }
}

/// `str::split`.
pub fn split_chars(s: &[char], p: &[char]) -> (r: Vec<Vec<char>>)
    requires
        p@.len() > 0,
    ensures
        views(r@) == split(s@, p@),
{
    let mut r: Vec<Vec<char>> = Vec::new();
    let mut i: usize = 0;
    assert(s@.skip(0) =~= s@);
    loop
        invariant
            p@.len() > 0,
            i <= s@.len(),
            views(r@) + split(s@.skip(i as int), p@) == split(s@, p@),
        decreases s@.len() - i,
    {
        let ghost t = s@.skip(i as int);
        proof {
            lemma_find(t, p@);
        }
        match find_from(s, p, i) {
            None => {
                let piece = slice(s, i, s.len());
                let ghost old_r = views(r@);
                r.push(piece);
                assert(views(r@) =~= old_r.push(piece@));
                assert(piece@ =~= t);
                assert(views(r@) =~= old_r + seq![t]);
                return r;
            },
            Some(k) => {
                proof {
                    let k0 = find(t, p@)->0;
                    assert(0 <= k0 <= t.len() - p@.len());
                    assert(t.len() == s@.len() - i);
                    assert(s@.len() == s.len());
                    assert(k as int == k0 + i);
                }
                let piece = slice(s, i, k);
                let ghost old_r = views(r@);
                r.push(piece);
                assert(views(r@) =~= old_r.push(piece@));
                assert(piece@ =~= t.take(k - i));
                assert(t.skip(k - i + p@.len()) =~= s@.skip(k + p@.len()));
                assert(split(t, p@) =~= seq![t.take(k - i)] + split(s@.skip(k + p@.len()), p@));
                assert(views(r@) + split(s@.skip(k + p@.len()), p@) =~= old_r + split(t, p@));
                i = k + p.len();
            },
        }
    }
}

/// The number of leading whitespace characters.
pub open spec fn lead_ws(s: Seq<char>) -> nat
    decreases s.len(),
{
    if s.len() > 0 && is_ws(s[0]) {
        1 + lead_ws(s.drop_first())
    } else {
        0
    }
}

/// The number of leading non-whitespace characters.
pub open spec fn lead_word(s: Seq<char>) -> nat
    decreases s.len(),
{
    if s.len() > 0 && !is_ws(s[0]) {
        1 + lead_word(s.drop_first())
    } else {
        0
    }
}

pub proof fn lemma_lead_ws(s: Seq<char>)
    ensures
        lead_ws(s) <= s.len(),
        forall|k: int| 0 <= k < lead_ws(s) ==> is_ws(#[trigger] s[k]),
        lead_ws(s) < s.len() ==> !is_ws(s[lead_ws(s) as int]),
        trim_start(s) == s.skip(lead_ws(s) as int),
    decreases s.len(),
{
    if s.len() > 0 && is_ws(s[0]) {
        lemma_lead_ws(s.drop_first());
        assert(s.drop_first().skip(lead_ws(s.drop_first()) as int) =~= s.skip(lead_ws(s) as int));
        assert forall|k: int| 0 <= k < lead_ws(s) implies is_ws(#[trigger] s[k]) by {
            if k > 0 {
                assert(s[k] == s.drop_first()[k - 1]);
            }
        }
    } else {
        assert(s.skip(0) =~= s);
    }
}

pub proof fn lemma_lead_word(s: Seq<char>)
    ensures
        lead_word(s) <= s.len(),
        forall|k: int| 0 <= k < lead_word(s) ==> !is_ws(#[trigger] s[k]),
        lead_word(s) < s.len() ==> is_ws(s[lead_word(s) as int]),
    decreases s.len(),
{
    if s.len() > 0 && !is_ws(s[0]) {
        lemma_lead_word(s.drop_first());
        assert forall|k: int| 0 <= k < lead_word(s) implies !is_ws(#[trigger] s[k]) by {
            if k > 0 {
                assert(s[k] == s.drop_first()[k - 1]);
            }
        }
    }
}

pub proof fn lemma_lead_ws_at(s: Seq<char>, n: int)
    requires
        0 <= n <= s.len(),
        forall|k: int| 0 <= k < n ==> is_ws(#[trigger] s[k]),
        n < s.len() ==> !is_ws(s[n]),
    ensures
        lead_ws(s) == n,
    decreases n,
{
    if n > 0 {
        assert forall|k: int| 0 <= k < n - 1 implies is_ws(#[trigger] s.drop_first()[k]) by {
            assert(s.drop_first()[k] == s[k + 1]);
        }
        lemma_lead_ws_at(s.drop_first(), n - 1);
    }
}

pub proof fn lemma_lead_word_at(s: Seq<char>, n: int)
    requires
        0 <= n <= s.len(),
        forall|k: int| 0 <= k < n ==> !is_ws(#[trigger] s[k]),
        n < s.len() ==> is_ws(s[n]),
    ensures
        lead_word(s) == n,
    decreases n,
{
    if n > 0 {
        assert forall|k: int| 0 <= k < n - 1 implies !is_ws(#[trigger] s.drop_first()[k]) by {
            assert(s.drop_first()[k] == s[k + 1]);
        }
        lemma_lead_word_at(s.drop_first(), n - 1);
    }
}

/// `str::split_whitespace`: the maximal runs of non-whitespace characters.
pub open spec fn words(s: Seq<char>) -> Seq<Seq<char>>
    decreases s.len(),
{
    let t = s.skip(lead_ws(s) as int);
    if t.len() == 0 {
        seq![]
    } else {
        proof {
            lemma_lead_ws(s);
            lemma_lead_word(t);
        }
        seq![t.take(lead_word(t) as int)] + words(t.skip(lead_word(t) as int))
    }
}

/// `str::split_whitespace`.
pub fn words_chars(s: &[char]) -> (r: Vec<Vec<char>>)
    ensures
        views(r@) == words(s@),
{
    let mut r: Vec<Vec<char>> = Vec::new();
    let mut i: usize = 0;
    assert(s@.skip(0) =~= s@);
    loop
        invariant
            i <= s@.len(),
            views(r@) + words(s@.skip(i as int)) == words(s@),
        decreases s@.len() - i,
    {
        let ghost u = s@.skip(i as int);
        let mut j = i;
        while j < s.len() && char_is_ws(s[j])
            invariant
                i <= j <= s@.len(),
                forall|k: int| i <= k < j ==> is_ws(#[trigger] s@[k]),
            decreases s@.len() - j,
        {
            j = j + 1;
        }
        proof {
            lemma_lead_ws_at(u, j - i);
            assert(u.skip(j - i) =~= s@.skip(j as int));
        }
        if j == s.len() {
            assert(words(u) =~= seq![]);
            assert(views(r@) =~= views(r@) + words(u));
            return r;
        }
        let mut k = j;
        while k < s.len() && !char_is_ws(s[k])
            invariant
                j <= k <= s@.len(),
                forall|m: int| j <= m < k ==> !is_ws(#[trigger] s@[m]),
            decreases s@.len() - k,
        {
            k = k + 1;
        }
        let ghost t = s@.skip(j as int);
        proof {
            lemma_lead_word_at(t, k - j);
            assert(t.skip(k - j) =~= s@.skip(k as int));
        }
        let piece = slice(s, j, k);
        assert(piece@ =~= t.take(k - j));
        let ghost old_r = views(r@);
        r.push(piece);
        assert(views(r@) =~= old_r.push(piece@));
        assert(words(u) =~= seq![t.take(k - j)] + words(s@.skip(k as int)));
        assert(views(r@) + words(s@.skip(k as int)) =~= old_r + words(u));
        i = k;
    }
}

/// `[T]::join` on strings: the pieces separated by `sep`.
pub open spec fn join(ps: Seq<Seq<char>>, sep: Seq<char>) -> Seq<char>
    decreases ps.len(),
{
    if ps.len() == 0 {
        seq![]
    } else if ps.len() == 1 {
        ps[0]
    } else {
        join(ps.drop_last(), sep) + sep + ps.last()
    }
}

/// `[String]::join`.
pub fn join_chars(ps: &Vec<Vec<char>>, sep: &[char]) -> (r: Vec<char>)
    ensures
        r@ == join(views(ps@), sep@),
{
    let mut r: Vec<char> = Vec::new();
    let mut i: usize = 0;
    while i < ps.len()
        invariant
            i <= ps@.len(),
            r@ == join(views(ps@).take(i as int), sep@),
        decreases ps@.len() - i,
    {
        let ghost old_r = r@;
        if i > 0 {
            let mut k: usize = 0;
            while k < sep.len()
                invariant
                    k <= sep@.len(),
                    r@ == old_r + sep@.take(k as int),
                decreases sep@.len() - k,
            {
                r.push(sep[k]);
                assert(r@ =~= old_r + sep@.take(k + 1));
                k = k + 1;
            }
        }
        let ghost mid = r@;
        let piece = &ps[i];
        let mut k: usize = 0;
        while k < piece.len()
            invariant
                k <= piece@.len(),
                r@ == mid + piece@.take(k as int),
            decreases piece@.len() - k,
        {
            r.push(piece[k]);
            assert(r@ =~= mid + piece@.take(k + 1));
            k = k + 1;
        }
        proof {
            let d = views(ps@);
            assert(d.take(i + 1).drop_last() =~= d.take(i as int));
            assert(d[i as int] == piece@);
            assert(piece@.take(piece@.len() as int) =~= piece@);
            assert(sep@.take(sep@.len() as int) =~= sep@);
            if i == 0 {
                assert(d.take(1)[0] == d[0]);
                assert(r@ =~= join(d.take(i + 1), sep@));
            } else {
                assert(r@ =~= join(d.take(i + 1), sep@));
            }
        }
        i = i + 1;
    }
    assert(views(ps@).take(ps@.len() as int) =~= views(ps@));
    r
}


/// The concatenation of a sequence of sequences, in order.
pub open spec fn concat_all<A>(ss: Seq<Seq<A>>) -> Seq<A>
    decreases ss.len(),
{
    if ss.len() == 0 {
        seq![]
    } else {
        concat_all(ss.drop_last()) + ss.last()
    }
}

/// Appends the pieces of `more` to `acc`.
pub fn append_pieces(acc: &mut Vec<Vec<char>>, more: Vec<Vec<char>>)
    ensures
        views(final(acc)@) == views(old(acc)@) + views(more@),
{
    let ghost m = more@;
    let mut more = more;
    acc.append(&mut more);
    assert(views(acc@) =~= views(old(acc)@) + views(m)) by {
        assert(acc@ =~= old(acc)@ + m);
    }
}

/// Character-wise equality.
pub fn chars_eq(a: &[char], b: &[char]) -> (r: bool)
    ensures
        r == (a@ == b@),
{
    if a.len() != b.len() {
        return false;
    }
    let mut i: usize = 0;
    while i < a.len()
        invariant
            a@.len() == b@.len(),
            i <= a@.len(),
            forall|k: int| 0 <= k < i ==> a@[k] == b@[k],
        decreases a@.len() - i,
    {
        if a[i] != b[i] {
            return false;
        }
        i = i + 1;
    }
    assert(a@ =~= b@);
    true
}

/// Appends the characters of `t` to `r`.
pub fn extend_chars(r: &mut Vec<char>, t: &[char])
    ensures
        final(r)@ == old(r)@ + t@,
{
    let ghost start = r@;
    let mut k: usize = 0;
    while k < t.len()
        invariant
            k <= t@.len(),
            r@ == start + t@.take(k as int),
        decreases t@.len() - k,
    {
        r.push(t[k]);
        assert(r@ =~= start + t@.take(k + 1));
        k = k + 1;
    }
    assert(t@.take(t@.len() as int) =~= t@);
}


/// `s` without the copies of `c` it starts with (`str::trim_start_matches`).
pub open spec fn strip_lead_char(s: Seq<char>, c: char) -> Seq<char>
    decreases s.len(),
{
    if s.len() > 0 && s[0] == c {
        strip_lead_char(s.drop_first(), c)
    } else {
        s
    }
}

/// `s` without the copies of `c` it ends with (`str::trim_end_matches`).
pub open spec fn strip_trail_char(s: Seq<char>, c: char) -> Seq<char>
    decreases s.len(),
{
    if s.len() > 0 && s.last() == c {
        strip_trail_char(s.drop_last(), c)
    } else {
        s
    }
}

/// `str::trim_matches` with one character.
pub open spec fn strip_char(s: Seq<char>, c: char) -> Seq<char> {
    strip_trail_char(strip_lead_char(s, c), c)
}

proof fn lemma_strip_lead_skip(s: Seq<char>, c: char, i: int)
    requires
        0 <= i <= s.len(),
        forall|k: int| 0 <= k < i ==> #[trigger] s[k] == c,
    ensures
        strip_lead_char(s, c) == strip_lead_char(s.skip(i), c),
    decreases i,
{
    if i > 0 {
        lemma_strip_lead_skip(s, c, i - 1);
        assert(s.skip(i - 1).drop_first() =~= s.skip(i));
    } else {
        assert(s.skip(0) =~= s);
    }
}

proof fn lemma_strip_trail_take(s: Seq<char>, c: char, j: int)
    requires
        0 <= j <= s.len(),
        forall|k: int| j <= k < s.len() ==> #[trigger] s[k] == c,
    ensures
        strip_trail_char(s, c) == strip_trail_char(s.take(j), c),
    decreases s.len() - j,
{
    if j < s.len() {
        lemma_strip_trail_take(s, c, j + 1);
        assert(s.take(j + 1).drop_last() =~= s.take(j));
    } else {
        assert(s.take(j) =~= s);
    }
}

pub proof fn lemma_strip_len(s: Seq<char>, c: char)
    ensures
        strip_lead_char(s, c).len() <= s.len(),
        strip_trail_char(s, c).len() <= s.len(),
        strip_char(s, c).len() <= s.len(),
    decreases s.len(),
{
    if s.len() > 0 {
        lemma_strip_len(s.drop_first(), c);
        lemma_strip_len(s.drop_last(), c);
    }
    lemma_strip_trail_len(strip_lead_char(s, c), c);
}

proof fn lemma_strip_trail_len(s: Seq<char>, c: char)
    ensures
        strip_trail_char(s, c).len() <= s.len(),
    decreases s.len(),
{
    if s.len() > 0 {
        lemma_strip_trail_len(s.drop_last(), c);
    }
}

/// `str::trim_start_matches` with one character.
pub fn strip_lead_chars(s: &[char], c: char) -> (r: Vec<char>)
    ensures
        r@ == strip_lead_char(s@, c),
{
    let mut i: usize = 0;
    while i < s.len() && s[i] == c
        invariant
            i <= s@.len(),
            forall|k: int| 0 <= k < i ==> #[trigger] s@[k] == c,
        decreases s@.len() - i,
    {
        i = i + 1;
    }
    proof {
        lemma_strip_lead_skip(s@, c, i as int);
    }
    slice(s, i, s.len())
}

/// `str::trim_end_matches` with one character.
pub fn strip_trail_chars(s: &[char], c: char) -> (r: Vec<char>)
    ensures
        r@ == strip_trail_char(s@, c),
{
    let mut j: usize = s.len();
    while j > 0 && s[j - 1] == c
        invariant
            j <= s@.len(),
            forall|k: int| j <= k < s@.len() ==> #[trigger] s@[k] == c,
        decreases j,
    {
        j = j - 1;
    }
    proof {
        lemma_strip_trail_take(s@, c, j as int);
    }
    slice(s, 0, j)
}

/// `str::trim_matches` with one character.
pub fn strip_chars(s: &[char], c: char) -> (r: Vec<char>)
    ensures
        r@ == strip_char(s@, c),
{
    let t = strip_lead_chars(s, c);
    strip_trail_chars(t.as_slice(), c)
}

/// The last index at or before `k` where `p` occurs in `s`.
pub open spec fn rfind_upto(s: Seq<char>, p: Seq<char>, k: int) -> Option<int>
    decreases k + 1,
{
    if k < 0 {
        None
    } else if has_prefix(s.skip(k), p) {
        Some(k)
    } else {
        rfind_upto(s, p, k - 1)
    }
}

/// `str::rfind`: the index of the last occurrence of `p` in `s`.
pub open spec fn rfind(s: Seq<char>, p: Seq<char>) -> Option<int> {
    rfind_upto(s, p, s.len() - p.len())
}

pub proof fn lemma_rfind_upto(s: Seq<char>, p: Seq<char>, k: int)
    requires
        k <= s.len() - p.len(),
    ensures
        rfind_upto(s, p, k) matches Some(j) ==> 0 <= j <= k && has_prefix(s.skip(j), p),
    decreases k + 1,
{
    if k >= 0 && !has_prefix(s.skip(k), p) {
        lemma_rfind_upto(s, p, k - 1);
    }
}

/// `str::rfind`.
pub fn rfind_chars(s: &[char], p: &[char]) -> (r: Option<usize>)
    ensures
        match r {
            Some(k) => rfind(s@, p@) == Some(k as int) && k + p@.len() <= s@.len() && has_prefix(
                s@.skip(k as int),
                p@,
            ),
            None => rfind(s@, p@) is None,
        },
{
    if p.len() > s.len() {
        return None;
    }
    let mut k: usize = s.len() - p.len();
    loop
        invariant
            k <= s@.len() - p@.len(),
            rfind(s@, p@) == rfind_upto(s@, p@, k as int),
        decreases k,
    {
        if prefix_at(s, p, k) {
            return Some(k);
        }
        if k == 0 {
            assert(rfind_upto(s@, p@, -1) is None);
            assert(rfind_upto(s@, p@, 0) is None);
            return None;
        }
        k = k - 1;
    }
}


/// `find` of a character that does not occur finds nothing.
pub proof fn lemma_find_char_absent(s: Seq<char>, c: char)
    requires
        !s.contains(c),
    ensures
        find(s, seq![c]) is None,
    decreases s.len(),
{
    if s.len() > 0 {
        if has_prefix(s, seq![c]) {
            assert(s[0] == s.take(1)[0]);
            assert(s.contains(s[0]));
        }
        assert(!s.drop_first().contains(c)) by {
            if s.drop_first().contains(c) {
                let j = choose|j: int| 0 <= j < s.drop_first().len() && s.drop_first()[j] == c;
                assert(s[j + 1] == c);
            }
        }
        lemma_find_char_absent(s.drop_first(), c);
    }
}

/// `find` of a character finds its first occurrence.
pub proof fn lemma_find_char_first(a: Seq<char>, c: char, b: Seq<char>)
    requires
        !a.contains(c),
    ensures
        find(a + seq![c] + b, seq![c]) == Some(a.len() as int),
    decreases a.len(),
{
    let s = a + seq![c] + b;
    if a.len() == 0 {
        assert(s.take(1) =~= seq![c]);
    } else {
        assert(s.take(1)[0] == a[0]);
        assert(a.contains(a[0]));
        assert(!has_prefix(s, seq![c]));
        assert(s.drop_first() =~= a.drop_first() + seq![c] + b);
        assert(!a.drop_first().contains(c)) by {
            if a.drop_first().contains(c) {
                let j = choose|j: int| 0 <= j < a.drop_first().len() && a.drop_first()[j] == c;
                assert(a[j + 1] == c);
            }
        }
        lemma_find_char_first(a.drop_first(), c, b);
    }
}

/// Splitting `a c b` at `c` gives `a` and `b` when neither holds `c`.
pub proof fn lemma_split_char_pair(a: Seq<char>, c: char, b: Seq<char>)
    requires
        !a.contains(c),
        !b.contains(c),
    ensures
        split(a + seq![c] + b, seq![c]) == seq![a, b],
{
    let s = a + seq![c] + b;
    lemma_find_char_first(a, c, b);
    lemma_find_char_absent(b, c);
    assert(s.take(a.len() as int) =~= a);
    assert(s.skip(a.len() as int + 1) =~= b);
    assert(split(b, seq![c]) == seq![b]);
    assert(split(s, seq![c]) =~= seq![a, b]);
}

/// A pattern starting with a character that does not occur is not found.
pub proof fn lemma_find_absent_start(s: Seq<char>, p: Seq<char>)
    requires
        p.len() > 0,
        !s.contains(p[0]),
    ensures
        find(s, p) is None,
{
    assert forall|j: int| 0 <= j <= s.len() implies !has_prefix(#[trigger] s.skip(j), p) by {
        if has_prefix(s.skip(j), p) {
            assert(s.skip(j).take(p.len() as int)[0] == s[j]);
            assert(s.contains(s[j]));
        }
    }
    lemma_find_none(s, p);
}

/// `trim_end` keeps a prefix, which ends with a non-whitespace character
/// unless it is empty.
pub proof fn lemma_trim_end_prefix(x: Seq<char>)
    ensures
        trim_end(x).len() <= x.len(),
        trim_end(x) == x.take(trim_end(x).len() as int),
        trim_end(x).len() > 0 ==> !is_ws(trim_end(x).last()),
    decreases x.len(),
{
    if x.len() > 0 && is_ws(x.last()) {
        lemma_trim_end_prefix(x.drop_last());
        let n = trim_end(x).len() as int;
        assert(x.drop_last().take(n) =~= x.take(n));
    } else {
        assert(x.take(x.len() as int) =~= x);
    }
}

/// `trim` keeps a contiguous part of the text; the result gives where it
/// starts.
pub proof fn lemma_trim_sub(s: Seq<char>) -> (a: int)
    ensures
        0 <= a,
        a + trim(s).len() <= s.len(),
        trim(s) == s.subrange(a, a + trim(s).len()),
{
    lemma_lead_ws(s);
    let a = lead_ws(s) as int;
    let x = trim_start(s);
    lemma_trim_end_prefix(x);
    let n = trim(s).len() as int;
    assert(trim(s) =~= s.subrange(a, a + n));
    a
}

/// Trimming twice is trimming once.
pub proof fn lemma_trim_idem(s: Seq<char>)
    ensures
        trim(trim(s)) == trim(s),
{
    lemma_lead_ws(s);
    let x = trim_start(s);
    lemma_trim_end_prefix(x);
    let y = trim_end(x);
    if y.len() > 0 {
        assert(y[0] == x[0]);
        assert(x[0] == s[lead_ws(s) as int]);
    }
    assert(trim_start(y) == y);
    assert(trim_end(y) == y);
}

/// A character that does not occur in a text does not occur in its trimmed
/// text.
pub proof fn lemma_trim_no_char(s: Seq<char>, c: char)
    requires
        !s.contains(c),
    ensures
        !trim(s).contains(c),
{
    let a = lemma_trim_sub(s);
    if trim(s).contains(c) {
        let j = choose|j: int| 0 <= j < trim(s).len() && trim(s)[j] == c;
        assert(s[a + j] == c);
    }
}

/// What occurs in a part of a text occurs in the text.
pub proof fn lemma_contains_sub(s: Seq<char>, a: int, b: int, p: Seq<char>)
    requires
        0 <= a <= b <= s.len(),
        contains(s.subrange(a, b), p),
    ensures
        contains(s, p),
{
    let t = s.subrange(a, b);
    lemma_find(t, p);
    let k = find(t, p)->0;
    assert(s.skip(a + k).take(p.len() as int) =~= t.skip(k).take(p.len() as int));
    lemma_find(s, p);
    if find(s, p) is None {
        assert(!has_prefix(s.skip(a + k), p));
    }
}

} // verus!
