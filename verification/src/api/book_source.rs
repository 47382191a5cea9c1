//! The decisions behind the book-source endpoints.

use vstd::prelude::*;
use serde_json::Value;
use crate::strings::chars_of;
use crate::util::json::{json_array, json_get, json_is_array, json_member};

verus! {

/// The `bookSourceUrl` parameter of the book-source endpoints.
pub struct BookSourceUrlParam {
    pub book_source_url: Option<String>,
}

/// The URL of a remote book-source file.
pub struct RemoteSourceParam {
    pub url: String,
}

/// Where the list of book sources lies in an uploaded JSON payload.
pub enum SourceList {
    /// The payload itself is the list.
    Payload,
    /// The list is this member of the payload object.
    Member(Value),
}

/// Why a payload holds no list of book sources.
#[derive(Debug, PartialEq, Eq, Structural)]
pub enum SourcesError {
    InvalidPayload,
}

pub open spec fn key_book_source_list() -> Seq<char> {
    seq!['b', 'o', 'o', 'k', 'S', 'o', 'u', 'r', 'c', 'e', 'L', 'i', 's', 't']
}

pub open spec fn key_book_sources() -> Seq<char> {
    seq!['b', 'o', 'o', 'k', 'S', 'o', 'u', 'r', 'c', 'e', 's']
}

pub open spec fn key_data() -> Seq<char> {
    seq!['d', 'a', 't', 'a']
}

pub open spec fn key_sources() -> Seq<char> {
    seq!['s', 'o', 'u', 'r', 'c', 'e', 's']
}

/// The members that may hold the list, in the order they are tried.
pub open spec fn source_list_keys() -> Seq<Seq<char>> {
    seq![key_book_source_list(), key_book_sources(), key_data(), key_sources()]
}

/// The first of the keys from `i` on whose member is an array.
pub open spec fn array_member_from(v: Value, keys: Seq<Seq<char>>, i: int) -> Option<Value>
    decreases keys.len() - i,
{
    if i < 0 || i >= keys.len() {
        None
    } else {
        match json_member(v, keys[i]) {
            Some(m) => if json_array(m) {
                Some(m)
            } else {
                array_member_from(v, keys, i + 1)
            },
            None => array_member_from(v, keys, i + 1),
        }
    }
}

/// Where the list of book sources lies: the payload when it is an array,
/// else the first of `bookSourceList`, `bookSources`, `data`, `sources`
/// that is an array member of it.
pub open spec fn spec_source_list(payload: Value) -> Option<SourceList> {
    if json_array(payload) {
        Some(SourceList::Payload)
    } else {
        match array_member_from(payload, source_list_keys(), 0) {
            Some(m) => Some(SourceList::Member(m)),
            None => None,
        }
    }
}

/// Finds the list of book sources in an uploaded payload.
pub fn extract_sources(payload: &Value) -> (r: Result<SourceList, SourcesError>)
    ensures
        match r {
            Ok(l) => spec_source_list(*payload) == Some(l),
            Err(e) => spec_source_list(*payload) is None && e == SourcesError::InvalidPayload,
        },
{
    if json_is_array(payload) {
        return Ok(SourceList::Payload);
    }
    proof {
        reveal_strlit("bookSourceList");
        reveal_strlit("bookSources");
        reveal_strlit("data");
        reveal_strlit("sources");
    }
    let keys = ["bookSourceList", "bookSources", "data", "sources"];
    assert(keys[0]@ =~= key_book_source_list());
    assert(keys[1]@ =~= key_book_sources());
    assert(keys[2]@ =~= key_data());
    assert(keys[3]@ =~= key_sources());
    let mut i: usize = 0;
    while i < 4
        invariant
            i <= 4,
            !json_array(*payload),
            forall|k: int| 0 <= k < 4 ==> #[trigger] keys@[k]@ == source_list_keys()[k],
            array_member_from(*payload, source_list_keys(), 0) == array_member_from(
                *payload,
                source_list_keys(),
                i as int,
            ),
        decreases 4 - i,
    {
        assert(keys@[i as int]@ == source_list_keys()[i as int]);
        if let Some(m) = json_get(payload, keys[i]) {
            if json_is_array(&m) {
                return Ok(SourceList::Member(m));
            }
        }
        i = i + 1;
    }
    Err(SourcesError::InvalidPayload)
}

/// `s` ends with `p`.
pub open spec fn has_suffix(s: Seq<char>, p: Seq<char>) -> bool {
    p.len() <= s.len() && s.skip(s.len() - p.len()) == p
}

fn ends_with(s: &[char], p: &[char]) -> (b: bool)
    ensures
        b == has_suffix(s@, p@),
{
    if p.len() > s.len() {
        return false;
    }
    let off = s.len() - p.len();
    let mut k: usize = 0;
    while k < p.len()
        invariant
            off + p@.len() == s@.len(),
            s@.len() == s.len(),
            k <= p@.len(),
            forall|m: int| 0 <= m < k ==> s@[off + m] == p@[m],
        decreases p@.len() - k,
    {
        assert(off + k < s.len());
        if s[off + k] != p[k] {
            assert(s@.skip(off as int)[k as int] != p@[k as int]);
            return false;
        }
        k = k + 1;
    }
    assert(s@.skip(off as int) =~= p@);
    true
}

/// Whether an uploaded file may hold book sources: its name ends with
/// `.json` or `.txt`.
pub fn is_source_file_name(name: &str) -> (b: bool)
    ensures
        b == (has_suffix(name@, seq!['.', 'j', 's', 'o', 'n']) || has_suffix(name@, seq!['.', 't', 'x', 't'])),
{
    let cs = chars_of(name);
    let json = vec!['.', 'j', 's', 'o', 'n'];
    let txt = vec!['.', 't', 'x', 't'];
    assert(json@ =~= seq!['.', 'j', 's', 'o', 'n']);
    assert(txt@ =~= seq!['.', 't', 'x', 't']);
    ends_with(cs.as_slice(), json.as_slice()) || ends_with(cs.as_slice(), txt.as_slice())
}

} // verus!
