use nostcat::Response;

#[test]
fn classify_event() {
    let raw = r#"["EVENT","sub1",{"id":"e1"}]"#.to_string();
    let r = Response::from_string(raw.clone());
    assert!(matches!(r, Response::Event(s) if s == raw));
}

#[test]
fn classify_notice() {
    let raw = r#"["NOTICE","rate limited"]"#.to_string();
    let r = Response::from_string(raw.clone());
    assert!(matches!(r, Response::Notice(s) if s == raw));
}

#[test]
fn classify_ok() {
    let raw = r#"["OK","b1b2",true,""]"#.to_string();
    let r = Response::from_string(raw.clone());
    assert!(matches!(r, Response::Okay(s) if s == raw));
}

#[test]
fn classify_eose() {
    let raw = r#"["EOSE","sub1"]"#.to_string();
    let r = Response::from_string(raw.clone());
    assert!(matches!(r, Response::EOSE(s) if s == raw));
}

#[test]
fn classify_count() {
    let raw = r#"["COUNT","sub1",{"count":5}]"#.to_string();
    let r = Response::from_string(raw.clone());
    assert!(matches!(r, Response::Count(s) if s == raw));
}

#[test]
fn classify_unsupported_unknown_tag() {
    let raw = r#"["AUTH","challenge"]"#.to_string();
    let r = Response::from_string(raw.clone());
    assert!(matches!(r, Response::Unsupported(s) if s == raw));
}

#[test]
fn classify_unsupported_not_an_array() {
    let raw = "hello world".to_string();
    let r = Response::from_string(raw.clone());
    assert!(matches!(r, Response::Unsupported(s) if s == raw));
}

#[test]
fn classify_unsupported_empty() {
    let r = Response::from_string(String::new());
    assert!(matches!(r, Response::Unsupported(s) if s.is_empty()));
}

#[test]
fn classify_is_case_sensitive() {
    let raw = r#"["event","sub1"]"#.to_string();
    let r = Response::from_string(raw.clone());
    assert!(matches!(r, Response::Unsupported(s) if s == raw));
}

#[test]
fn classify_needs_the_quote() {
    // The tag must match literally, quote and bracket included: a prefix
    // that stops short of the closing quote is not enough.
    let raw = r#"["OKAY","x"]"#.to_string();
    let r = Response::from_string(raw.clone());
    assert!(matches!(r, Response::Unsupported(s) if s == raw));
}

#[test]
fn classify_tag_alone_is_enough() {
    // Only the prefix is inspected; the rest of the text may be anything,
    // even structurally broken.
    let raw = r#"["EVENT" this is not json"#.to_string();
    let r = Response::from_string(raw.clone());
    assert!(matches!(r, Response::Event(s) if s == raw));
}

#[test]
fn classify_prefix_shorter_than_tag() {
    let raw = r#"["EVE"#.to_string();
    let r = Response::from_string(raw.clone());
    assert!(matches!(r, Response::Unsupported(s) if s == raw));
}
