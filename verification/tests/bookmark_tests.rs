use reader_rust::api::bookmark::{
    add_bookmark, add_bookmarks, lacks_book_info, remove_bookmark, remove_bookmarks, upsert_by_key, BookmarkError,
};
use reader_rust::model::bookmark::Bookmark;

fn mark(name: &str, author: &str, chapter: i32) -> Bookmark {
    Bookmark {
        time: 0,
        book_name: name.to_string(),
        book_author: author.to_string(),
        chapter_index: chapter,
        chapter_pos: 0,
        chapter_name: String::new(),
        book_text: String::new(),
        content: String::new(),
    }
}

fn summary(list: &[Bookmark]) -> Vec<(String, String, i32)> {
    list.iter().map(|b| (b.book_name.clone(), b.book_author.clone(), b.chapter_index)).collect()
}

#[test]
fn upsert_replaces_same_book() {
    let mut list = vec![mark("A", "x", 1), mark("B", "y", 2)];
    upsert_by_key(&mut list, mark("A", "x", 9));
    assert_eq!(summary(&list), vec![("A".into(), "x".into(), 9), ("B".into(), "y".into(), 2)]);
    upsert_by_key(&mut list, mark("C", "z", 3));
    assert_eq!(list.len(), 3);
    assert_eq!(list[2].book_name, "C");
}

#[test]
fn upsert_twice_equals_once() {
    let mut once = vec![mark("A", "x", 1)];
    upsert_by_key(&mut once, mark("B", "y", 5));
    let mut twice = once.clone();
    upsert_by_key(&mut twice, mark("B", "y", 5));
    assert_eq!(summary(&once), summary(&twice));
}

#[test]
fn upsert_key_joins_name_and_author() {
    // "a_b" + "c" and "a" + "b_c" share the key "a_b_c".
    let mut list = vec![mark("a_b", "c", 1)];
    upsert_by_key(&mut list, mark("a", "b_c", 2));
    assert_eq!(summary(&list), vec![("a".into(), "b_c".into(), 2)]);
}

#[test]
fn add_bookmark_refuses_blank_book() {
    let mut list = vec![mark("A", "x", 1)];
    assert_eq!(add_bookmark(&mut list, mark("", "", 4)), Err(BookmarkError::MissingBookInfo));
    assert_eq!(list.len(), 1);
    assert_eq!(add_bookmark(&mut list, mark("", "only author", 4)), Ok(()));
    assert_eq!(list.len(), 2);
}

#[test]
fn add_bookmarks_skips_blank_ones() {
    let mut list = vec![mark("A", "x", 1)];
    add_bookmarks(&mut list, vec![mark("", "", 7), mark("A", "x", 2), mark("B", "y", 3)]);
    assert_eq!(summary(&list), vec![("A".into(), "x".into(), 2), ("B".into(), "y".into(), 3)]);
}

#[test]
fn remove_drops_every_bookmark_of_the_book() {
    let mut list = vec![mark("A", "x", 1), mark("B", "y", 2), mark("A", "x", 3), mark("A", "z", 4)];
    remove_bookmark(&mut list, &mark("A", "x", 0));
    assert_eq!(summary(&list), vec![("B".into(), "y".into(), 2), ("A".into(), "z".into(), 4)]);
    remove_bookmark(&mut list, &mark("Q", "q", 0));
    assert_eq!(list.len(), 2);
}

#[test]
fn remove_many() {
    let mut list = vec![mark("A", "x", 1), mark("B", "y", 2), mark("C", "z", 3)];
    remove_bookmarks(&mut list, &vec![mark("A", "x", 0), mark("C", "z", 0)]);
    assert_eq!(summary(&list), vec![("B".into(), "y".into(), 2)]);
}

#[test]
fn blank_bookmarks_lack_book_info() {
    assert!(lacks_book_info(&mark("", "", 0)));
    assert!(!lacks_book_info(&mark("A", "", 0)));
    assert!(!lacks_book_info(&mark("", "x", 0)));
}
