use reader_rust::storage::file_cache::FileCache;
use reader_rust::util::text::{apply_regex_replace, strip_whitespace};

#[test]
fn strip_whitespace_collapses_runs() {
    assert_eq!(strip_whitespace("  a \t b\n\n c  "), "a b c");
    assert_eq!(strip_whitespace(""), "");
    assert_eq!(strip_whitespace(" \u{3000} "), "");
    assert_eq!(strip_whitespace("one"), "one");
}

#[test]
fn strip_whitespace_twice_is_once() {
    let once = strip_whitespace("  x  y\tz ");
    assert_eq!(strip_whitespace(&once), once);
}

#[test]
fn regex_replace_all_matches() {
    assert_eq!(apply_regex_replace("a1b22c", "\\d+", "#"), "a#b#c");
    assert_eq!(apply_regex_replace("2024-01-02", "(\\d+)-(\\d+)-(\\d+)", "$3/$2/$1"), "02/01/2024");
    assert_eq!(apply_regex_replace("abc", "x", "y"), "abc");
}

#[test]
fn invalid_regex_leaves_text() {
    assert_eq!(apply_regex_replace("a(b", "(", "x"), "a(b");
}

#[test]
fn cache_key_paths() {
    let cache = FileCache::new("/tmp/cache");
    assert_eq!(cache.key_path("alice", "hello"), "/tmp/cache/alice/5d41402abc4b2a76b9719d911017c592.txt");
    let cache = FileCache::new("/tmp/cache/");
    assert_eq!(cache.key_path("alice", ""), "/tmp/cache/alice/d41d8cd98f00b204e9800998ecf8427e.txt");
    let cache = FileCache::new("");
    assert_eq!(cache.key_path("bob", "hello"), "bob/5d41402abc4b2a76b9719d911017c592.txt");
    let cache = FileCache::new("/root");
    assert_eq!(cache.key_path("/abs", "hello"), "/abs/5d41402abc4b2a76b9719d911017c592.txt");
}
