//! The list operations behind the bookmark endpoints.

use vstd::prelude::*;
use crate::model::bookmark::Bookmark;
use crate::strings::{chars_eq, chars_of};

verus! {

/// The query parameters that identify the caller.
pub struct AccessTokenQuery {
    pub access_token: Option<String>,
    pub secure_key: Option<String>,
}

/// Why a bookmark was refused.
#[derive(Debug, PartialEq, Eq, Structural)]
pub enum BookmarkError {
    /// Neither the book's name nor its author is given.
    MissingBookInfo,
}

/// The key bookmarks are stored under: the book's name, `_`, its author.
pub open spec fn bookmark_key(b: Bookmark) -> Seq<char> {
    b.book_name@ + seq!['_'] + b.book_author@
}

/// A bookmark that names neither a book nor an author.
pub open spec fn is_blank(b: Bookmark) -> bool {
    b.book_name@.len() == 0 && b.book_author@.len() == 0
}

/// The first position of a bookmark with the given key, from position `i` on.
pub open spec fn key_position_from(list: Seq<Bookmark>, key: Seq<char>, i: int) -> Option<int>
    decreases list.len() - i,
{
    if i < 0 || i >= list.len() {
        None
    } else if bookmark_key(list[i]) == key {
        Some(i)
    } else {
        key_position_from(list, key, i + 1)
    }
}

/// The list after storing `item`: it replaces the first bookmark with the
/// same key, or is appended when there is none.
pub open spec fn spec_upsert(list: Seq<Bookmark>, item: Bookmark) -> Seq<Bookmark> {
    match key_position_from(list, bookmark_key(item), 0) {
        Some(p) => list.update(p, item),
        None => list.push(item),
    }
}

fn key_chars(b: &Bookmark) -> (r: Vec<char>)
    ensures
        r@ == bookmark_key(*b),
{
    let mut r = chars_of(b.book_name.as_str());
    r.push('_');
    let a = chars_of(b.book_author.as_str());
    crate::strings::extend_chars(&mut r, a.as_slice());
    r
}

/// Stores `item`, replacing the bookmark with the same key if there is one.
pub fn upsert_by_key(list: &mut Vec<Bookmark>, item: Bookmark)
    ensures
        final(list)@ == spec_upsert(old(list)@, item),
{
    let key = key_chars(&item);
    let mut i: usize = 0;
    while i < list.len()
        invariant
            i <= list@.len(),
            list@ == old(list)@,
            key@ == bookmark_key(item),
            key_position_from(list@, key@, 0) == key_position_from(list@, key@, i as int),
        decreases list@.len() - i,
    {
        let k = key_chars(&list[i]);
        if chars_eq(k.as_slice(), key.as_slice()) {
            list.set(i, item);
            return;
        }
        i = i + 1;
    }
    list.push(item);
}

/// The list after removing every bookmark of the given book and author.
pub open spec fn spec_remove(list: Seq<Bookmark>, name: Seq<char>, author: Seq<char>) -> Seq<Bookmark> {
    list.filter(other_book(name, author))
}

/// Whether a bookmark is of another book than the given name and author.
pub open spec fn other_book(name: Seq<char>, author: Seq<char>) -> spec_fn(Bookmark) -> bool {
    |b: Bookmark| !(b.book_name@ == name && b.book_author@ == author)
}

/// Removes every bookmark of the same book and author as `bookmark`.
pub fn remove_bookmark(list: &mut Vec<Bookmark>, bookmark: &Bookmark)
    ensures
        final(list)@ == spec_remove(old(list)@, bookmark.book_name@, bookmark.book_author@),
{
    let name = chars_of(bookmark.book_name.as_str());
    let author = chars_of(bookmark.book_author.as_str());
    let ghost pred = other_book(bookmark.book_name@, bookmark.book_author@);
    let ghost all = list@;
    let mut i: usize = 0;
    let ghost mut j: int = 0;
    while i < list.len()
        invariant
            0 <= i <= list@.len(),
            0 <= j <= all.len(),
            list@.len() - i == all.len() - j,
            list@.take(i as int) == all.take(j).filter(pred),
            list@.skip(i as int) == all.skip(j),
            all == old(list)@,
            pred == other_book(bookmark.book_name@, bookmark.book_author@),
            name@ == bookmark.book_name@,
            author@ == bookmark.book_author@,
        decreases list@.len() - i,
    {
        let bn = chars_of(list[i].book_name.as_str());
        let ba = chars_of(list[i].book_author.as_str());
        let same_name = chars_eq(bn.as_slice(), name.as_slice());
        let same_author = chars_eq(ba.as_slice(), author.as_slice());
        let same = same_name && same_author;
        proof {
            reveal_with_fuel(Seq::filter, 1);
            assert(all.take(j + 1).drop_last() =~= all.take(j));
            assert(all[j] == list@.skip(i as int)[0]);
            assert(all.take(j + 1).last() == all[j]);
            assert(all.skip(j + 1) =~= all.skip(j).drop_first());
            assert(list@.skip(i + 1) =~= list@.skip(i as int).drop_first());
            assert(list@[i as int] == list@.skip(i as int)[0]);
            assert(list@[i as int] == all[j]);
            assert(bn@ == all[j].book_name@);
            assert(ba@ == all[j].book_author@);
            assert(same == !pred(all[j]));
        }
        if same {
            let ghost before = list@;
            list.remove(i);
            proof {
                assert(list@.take(i as int) =~= before.take(i as int));
                assert(list@.skip(i as int) =~= before.skip(i + 1));
                assert(list@.skip(i as int) =~= all.skip(j + 1));
                j = j + 1;
            }
        } else {
            proof {
                assert(list@.take(i + 1) =~= list@.take(i as int).push(all[j]));
                assert(list@.skip(i + 1) =~= all.skip(j + 1));
                j = j + 1;
            }
            i = i + 1;
        }
    }
    assert(all.skip(j) =~= seq![]);
    assert(j == all.len());
    assert(all.take(j) =~= all);
    assert(list@.take(i as int) =~= list@);
}

/// The list after removing the bookmarks of each given book in turn.
pub open spec fn spec_remove_all(list: Seq<Bookmark>, bs: Seq<Bookmark>) -> Seq<Bookmark>
    decreases bs.len(),
{
    if bs.len() == 0 {
        list
    } else {
        spec_remove(spec_remove_all(list, bs.drop_last()), bs.last().book_name@, bs.last().book_author@)
    }
}

/// Removes the bookmarks of each given book.
pub fn remove_bookmarks(list: &mut Vec<Bookmark>, bookmarks: &Vec<Bookmark>)
    ensures
        final(list)@ == spec_remove_all(old(list)@, bookmarks@),
{
    let mut k: usize = 0;
    while k < bookmarks.len()
        invariant
            k <= bookmarks@.len(),
            list@ == spec_remove_all(old(list)@, bookmarks@.take(k as int)),
        decreases bookmarks@.len() - k,
    {
        remove_bookmark(list, &bookmarks[k]);
        assert(bookmarks@.take(k + 1).drop_last() =~= bookmarks@.take(k as int));
        k = k + 1;
    }
    assert(bookmarks@.take(bookmarks@.len() as int) =~= bookmarks@);
}

/// Whether a bookmark names neither a book nor an author.
pub fn lacks_book_info(b: &Bookmark) -> (r: bool)
    ensures
        r == is_blank(*b),
{
    b.book_name.as_str().is_empty() && b.book_author.as_str().is_empty()
}

/// Stores a bookmark; one that names neither a book nor an author is refused
/// and the list is left as it is.
pub fn add_bookmark(list: &mut Vec<Bookmark>, bookmark: Bookmark) -> (r: Result<(), BookmarkError>)
    ensures
        is_blank(bookmark) ==> r == Err::<(), BookmarkError>(BookmarkError::MissingBookInfo) && final(list)@ == old(list)@,
        !is_blank(bookmark) ==> r is Ok && final(list)@ == spec_upsert(old(list)@, bookmark),
{
    if lacks_book_info(&bookmark) {
        return Err(BookmarkError::MissingBookInfo);
    }
    upsert_by_key(list, bookmark);
    Ok(())
}

/// The list after storing each bookmark in turn.
pub open spec fn spec_upsert_all(list: Seq<Bookmark>, items: Seq<Bookmark>) -> Seq<Bookmark>
    decreases items.len(),
{
    if items.len() == 0 {
        list
    } else {
        spec_upsert(spec_upsert_all(list, items.drop_last()), items.last())
    }
}

/// Whether a bookmark names a book or an author.
pub open spec fn names_book() -> spec_fn(Bookmark) -> bool {
    |b: Bookmark| !is_blank(b)
}

/// Stores each bookmark that names a book or an author, in order.
pub fn add_bookmarks(list: &mut Vec<Bookmark>, bookmarks: Vec<Bookmark>)
    ensures
        final(list)@ == spec_upsert_all(old(list)@, bookmarks@.filter(names_book())),
{
    let ghost all = bookmarks@;
    let mut rest = bookmarks;
    let ghost mut k: int = 0;
    while rest.len() > 0
        invariant
            0 <= k <= all.len(),
            rest@ == all.skip(k),
            list@ == spec_upsert_all(old(list)@, all.take(k).filter(names_book())),
        decreases rest@.len(),
    {
        let b = rest.remove(0);
        let ghost f = all.take(k).filter(names_book());
        proof {
            reveal_with_fuel(Seq::filter, 1);
            assert(b == all[k]);
            assert(all.take(k + 1).drop_last() =~= all.take(k));
            assert(all.take(k + 1).last() == all[k]);
            assert(f.push(b).drop_last() =~= f);
        }
        let keep = !lacks_book_info(&b);
        if keep {
            upsert_by_key(list, b);
        }
        proof {
            if keep {
                assert(all.take(k + 1).filter(names_book()) == f.push(all[k]));
            } else {
                assert(all.take(k + 1).filter(names_book()) == f);
            }
        }
        proof {
            assert(rest@ =~= all.skip(k + 1));
            k = k + 1;
        }
    }
    assert(all.skip(k).len() == 0);
    assert(all.take(k) =~= all);
}

} // verus!
