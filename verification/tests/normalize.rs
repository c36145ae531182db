use apibook::model;
use apibook::parse;
use apibook::strutil::key_to_name;

fn short(v: &str) -> parse::Software {
    parse::Software::Short(v.to_string())
}

fn long_only_version(v: &str) -> parse::Software {
    parse::Software::Long {
        entity: None,
        version: v.to_string(),
        docs: None,
        note: None,
        deprecated: None,
        removed: None,
    }
}

#[test]
fn short_form_sets_only_version() {
    let s = model::Software::from(short("1.2.3"));
    assert_eq!(s.version, "1.2.3");
    assert!(s.entity.is_none());
    assert!(s.docs.is_none());
    assert!(s.note.is_none());
    assert!(s.deprecated.is_none());
    assert!(s.removed.is_none());
}

#[test]
fn short_form_equals_long_form_with_version_only() {
    let a = model::Software::from(short("1.2.3"));
    let b = model::Software::from(long_only_version("1.2.3"));
    assert_eq!(a.entity, b.entity);
    assert_eq!(a.version, b.version);
    assert_eq!(a.docs, b.docs);
    assert_eq!(a.note, b.note);
    assert_eq!(a.deprecated, b.deprecated);
    assert_eq!(a.removed, b.removed);
}

#[test]
fn long_form_passes_through_unchanged() {
    let s = model::Software::from(parse::Software::Long {
        entity: Some("other".to_string()),
        version: ">=2".to_string(),
        docs: Some("d".to_string()),
        note: Some("n".to_string()),
        deprecated: Some("3".to_string()),
        removed: Some("4".to_string()),
    });
    assert_eq!(s.entity.as_deref(), Some("other"));
    assert_eq!(s.version, ">=2");
    assert_eq!(s.docs.as_deref(), Some("d"));
    assert_eq!(s.note.as_deref(), Some("n"));
    assert_eq!(s.deprecated.as_deref(), Some("3"));
    assert_eq!(s.removed.as_deref(), Some("4"));
}

#[test]
fn reference_with_array_suffix() {
    let rs = model::Response::from(parse::Response::Reference("Widget[]".to_string()));
    assert_eq!(rs.len(), 1);
    match &rs[0] {
        model::Response::Reference { value, array } => {
            assert_eq!(value, "Widget");
            assert!(*array);
        }
        _ => panic!("expected a reference descriptor"),
    }
}

#[test]
fn reference_without_array_suffix() {
    let rs = model::Response::from(parse::Response::Reference("Widget".to_string()));
    assert_eq!(rs.len(), 1);
    match &rs[0] {
        model::Response::Reference { value, array } => {
            assert_eq!(value, "Widget");
            assert!(!*array);
        }
        _ => panic!("expected a reference descriptor"),
    }
}

#[test]
fn absent_response_collapses_to_empty() {
    let rs = model::Response::from(parse::Response::Absent);
    assert!(rs.is_empty());
}

#[test]
fn multiple_responses_keep_order_and_codes() {
    let rs = model::Response::from(parse::Response::Multiple(vec![
        parse::SingleResponse { http_code: Some(200), value: Vec::new() },
        parse::SingleResponse { http_code: Some(404), value: Vec::new() },
    ]));
    assert_eq!(rs.len(), 2);
    match &rs[0] {
        model::Response::Value { http_code, .. } => assert_eq!(*http_code, Some(200)),
        _ => panic!("expected a value descriptor"),
    }
    match &rs[1] {
        model::Response::Value { http_code, .. } => assert_eq!(*http_code, Some(404)),
        _ => panic!("expected a value descriptor"),
    }
}

#[test]
fn inline_response_collapses_to_one_value() {
    let rs = model::Response::from(parse::Response::Inline(parse::SingleResponse {
        http_code: None,
        value: Vec::new(),
    }));
    assert_eq!(rs.len(), 1);
    match &rs[0] {
        model::Response::Value { http_code, value } => {
            assert!(http_code.is_none());
            assert!(value.is_empty());
        }
        _ => panic!("expected a value descriptor"),
    }
}

#[test]
fn title_casing_default_name() {
    assert_eq!(key_to_name("api-rate-limit"), "Api Rate Limit");
    assert_eq!(key_to_name("widget"), "Widget");
    assert_eq!(key_to_name(""), "");
}

#[test]
fn entity_defaults_name_and_path() {
    let raw = parse::Entity {
        name: None,
        software: Vec::new(),
        attributes: Vec::new(),
        values: Vec::new(),
    };
    let e = model::Entity::from(raw, "/", "api-rate-limit");
    assert_eq!(e.name, "Api Rate Limit");
    assert_eq!(e.path, "/api-entities/api-rate-limit");
}

#[test]
fn entity_explicit_name_kept() {
    let raw = parse::Entity {
        name: Some("My Thing".to_string()),
        software: Vec::new(),
        attributes: Vec::new(),
        values: Vec::new(),
    };
    let e = model::Entity::from(raw, "/", "thing");
    assert_eq!(e.name, "My Thing");
}
