use reader_rust::api::book_source::{extract_sources, is_source_file_name, SourceList, SourcesError};

fn parse(text: &str) -> serde_json::Value {
    serde_json::from_str(text).unwrap()
}

#[test]
fn payload_array_is_the_list() {
    assert!(matches!(extract_sources(&parse("[{\"bookSourceUrl\": \"u\"}]")), Ok(SourceList::Payload)));
    assert!(matches!(extract_sources(&parse("[]")), Ok(SourceList::Payload)));
}

#[test]
fn list_members_in_order() {
    match extract_sources(&parse("{\"data\": {\"x\": 1}, \"sources\": [1, 2], \"bookSources\": [3]}")) {
        Ok(SourceList::Member(v)) => assert_eq!(v, parse("[3]")),
        _ => panic!("expected a member list"),
    }
    match extract_sources(&parse("{\"data\": {\"x\": 1}, \"sources\": [1, 2]}")) {
        Ok(SourceList::Member(v)) => assert_eq!(v, parse("[1, 2]")),
        _ => panic!("expected a member list"),
    }
    match extract_sources(&parse("{\"bookSourceList\": [], \"data\": [4]}")) {
        Ok(SourceList::Member(v)) => assert_eq!(v, parse("[]")),
        _ => panic!("expected a member list"),
    }
}

#[test]
fn other_payloads_are_refused() {
    assert!(matches!(extract_sources(&parse("{\"data\": {}}")), Err(SourcesError::InvalidPayload)));
    assert!(matches!(extract_sources(&parse("\"text\"")), Err(SourcesError::InvalidPayload)));
    assert!(matches!(extract_sources(&parse("42")), Err(SourcesError::InvalidPayload)));
}

#[test]
fn source_file_names() {
    assert!(is_source_file_name("sources.json"));
    assert!(is_source_file_name("sources.txt"));
    assert!(!is_source_file_name("sources.xml"));
    assert!(!is_source_file_name("json"));
    assert!(is_source_file_name(".json"));
}
