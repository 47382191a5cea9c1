# reader_rust

The rule engine and request logic of a book-reader server, verified with
Verus.

- `src/` is the verified library:
  - `strings` — the character-sequence model of the string operations the
    rules use (trim, find, split, whitespace words, join);
  - `parser::legado` — the Legado selector dialect, its index suffixes and
    list combinations;
  - `parser::html` — element selection and text extraction on `scraper`
    documents;
  - `parser::rule_engine` — field rules (`@put`/`@get`, `<js>`, `##`
    replacements), URL resolution, and the search, explore, table of
    contents, book details and content readers;
  - `api` — the list operations behind the bookmark endpoints and the
    payload decisions behind the book-source endpoints;
  - `parser::xpath` — XPath queries over XML text, on top of `sxd_xpath`;
  - `storage::file_cache` — where the text cache keeps each entry;
  - `laws`, `rule_laws` — properties that span the operations above.
- `app/` is the server around it: HTTP handlers, file storage and the
  clock.
- `tests/` exercises the library on concrete inputs.

The cache names each entry by the MD5 digest of its key. The `md5` crate
computes the digest; the helper the server used for it is not part of
these sources, so the crate is named directly.
