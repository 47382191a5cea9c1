//! Where the text cache keeps each entry: one file per key, named by the
//! MD5 digest of the key, in a directory per user.

use vstd::prelude::*;
use crate::strings::{chars_of, string_of};

verus! {

/// The MD5 digest of the UTF-8 bytes of a text.
pub uninterp spec fn md5_of(data: Seq<char>) -> Seq<u8>;

/// Calls `md5::compute` on the bytes of `data`; the claim is that the
/// digest is `md5_of(data)`, and that it has 16 bytes (the crate's `Digest`
/// wraps a `[u8; 16]`).
#[verifier::external_body]
fn md5_digest(data: &str) -> (r: Vec<u8>)
    ensures
        r@ == md5_of(data@),
        r@.len() == 16,
{
    md5::compute(data.as_bytes()).0.to_vec()
}

/// The lowercase hexadecimal digits.
pub open spec fn hex_digits() -> Seq<char> {
    seq!['0', '1', '2', '3', '4', '5', '6', '7', '8', '9', 'a', 'b', 'c', 'd', 'e', 'f']
}

/// The bytes written as two lowercase hexadecimal digits each.
pub open spec fn hex_of(bytes: Seq<u8>) -> Seq<char>
    decreases bytes.len(),
{
    if bytes.len() == 0 {
        seq![]
    } else {
        hex_of(bytes.drop_last()) + seq![
            hex_digits()[(bytes.last() / 16) as int],
            hex_digits()[(bytes.last() % 16) as int],
        ]
    }
}

/// `Path::join` on Unix: an absolute path replaces the base; otherwise the
/// path is appended, with a `/` between them unless the base is empty or
/// already ends with one.
pub open spec fn path_join(base: Seq<char>, p: Seq<char>) -> Seq<char> {
    if p.len() > 0 && p[0] == '/' {
        p
    } else if base.len() == 0 || base.last() == '/' {
        base + p
    } else {
        base + seq!['/'] + p
    }
}

/// The file an entry is kept in:
/// `root/user_ns/<md5 of key in hex>.txt`.
pub open spec fn spec_key_path(root: Seq<char>, user_ns: Seq<char>, key: Seq<char>) -> Seq<char> {
    path_join(path_join(root, user_ns), hex_of(md5_of(key))) + seq!['.', 't', 'x', 't']
}

/// A text cache kept as files under a root directory.
#[derive(Clone)]
pub struct FileCache {
    root: String,
}

impl View for FileCache {
    type V = Seq<char>;

    /// The root directory.
    closed spec fn view(&self) -> Seq<char> {
        self.root@
    }
}

fn path_join_chars(base: &[char], p: &[char]) -> (r: Vec<char>)
    ensures
        r@ == path_join(base@, p@),
{
    let mut r: Vec<char> = Vec::new();
    if p.len() > 0 && p[0] == '/' {
        crate::strings::extend_chars(&mut r, p);
        return r;
    }
    crate::strings::extend_chars(&mut r, base);
    if base.len() > 0 && base[base.len() - 1] != '/' {
        r.push('/');
    }
    crate::strings::extend_chars(&mut r, p);
    r
}

fn hex_chars(bytes: &Vec<u8>) -> (r: Vec<char>)
    ensures
        r@ == hex_of(bytes@),
{
    let digits = vec!['0', '1', '2', '3', '4', '5', '6', '7', '8', '9', 'a', 'b', 'c', 'd', 'e', 'f'];
    assert(digits@ =~= hex_digits());
    let mut r: Vec<char> = Vec::new();
    let mut i: usize = 0;
    while i < bytes.len()
        invariant
            i <= bytes@.len(),
            digits@ == hex_digits(),
            r@ == hex_of(bytes@.take(i as int)),
        decreases bytes@.len() - i,
    {
        let b = bytes[i];
        let hi = (b / 16) as usize;
        let lo = (b % 16) as usize;
        r.push(digits[hi]);
        r.push(digits[lo]);
        assert(bytes@.take(i + 1).drop_last() =~= bytes@.take(i as int));
        i = i + 1;
    }
    assert(bytes@.take(bytes@.len() as int) =~= bytes@);
    r
}

impl FileCache {
    /// A cache kept under the directory `root`.
    pub fn new(root: &str) -> (c: FileCache)
        ensures
            c@ == root@,
    {
        FileCache { root: String::from_str(root) }
    }

    /// The file that holds the entry `key` of the user namespace `user_ns`.
    pub fn key_path(&self, user_ns: &str, key: &str) -> (p: String)
        ensures
            p@ == spec_key_path(self@, user_ns@, key@),
    {
        let digest = md5_digest(key);
        let name = hex_chars(&digest);
        let root = chars_of(self.root.as_str());
        let ns = chars_of(user_ns);
        let dir = path_join_chars(root.as_slice(), ns.as_slice());
        let mut path = path_join_chars(dir.as_slice(), name.as_slice());
        path.push('.');
        path.push('t');
        path.push('x');
        path.push('t');
        assert(path@ =~= spec_key_path(self@, user_ns@, key@));
        string_of(path.as_slice())
    }
}

} // verus!
