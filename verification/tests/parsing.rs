use apibook::parse;
use apibook::paths;

#[test]
fn parses_minimal_data_file() {
    let data = parse::parse_data_file("[entity.widget]\n").unwrap();
    assert_eq!(data.entity.len(), 1);
    assert_eq!(data.entity[0].0, "widget");
    assert!(data.entity[0].1.name.is_none());
    assert!(data.api.is_empty());
}

#[test]
fn parses_api_with_string_response() {
    let text = "[[api]]\nrequest = \"get_widget\"\nresponse = \"widget\"\n";
    let data = parse::parse_data_file(text).unwrap();
    assert_eq!(data.api.len(), 1);
    assert_eq!(data.api[0].request, "get_widget");
    match &data.api[0].response {
        parse::Response::Reference(s) => assert_eq!(s, "widget"),
        _ => panic!("expected a reference response"),
    }
}

#[test]
fn parses_short_and_long_software() {
    let text = "[entity.w.software]\na = \"1.0\"\nb = { version = \"2.0\", note = \"n\" }\n";
    let data = parse::parse_data_file(text).unwrap();
    let sw = &data.entity[0].1.software;
    assert_eq!(sw.len(), 2);
    match &sw[0].1 {
        parse::Software::Short(v) => assert_eq!(v, "1.0"),
        _ => panic!("expected the short form"),
    }
    match &sw[1].1 {
        parse::Software::Long { version, note, .. } => {
            assert_eq!(version, "2.0");
            assert_eq!(note.as_deref(), Some("n"));
        }
        _ => panic!("expected the long form"),
    }
}

#[test]
fn parses_multiple_responses_with_codes() {
    let text = "[[api]]\nrequest = \"r\"\nresponse = [{ http-code = 200 }, { http-code = 404 }]\n";
    let data = parse::parse_data_file(text).unwrap();
    match &data.api[0].response {
        parse::Response::Multiple(rs) => {
            assert_eq!(rs.len(), 2);
            assert_eq!(rs[0].http_code, Some(200));
            assert_eq!(rs[1].http_code, Some(404));
        }
        _ => panic!("expected a list of responses"),
    }
}

#[test]
fn rejects_invalid_syntax() {
    assert!(parse::parse_data_file("= nonsense").is_err());
}

#[test]
fn rejects_unknown_entity_field() {
    assert!(parse::parse_data_file("[entity.x]\nbogus = \"y\"\n").is_err());
}

#[test]
fn rejects_unknown_top_level_section() {
    assert!(parse::parse_data_file("[other]\n").is_err());
}

#[test]
fn rejects_software_without_version() {
    let text = "[entity.x.software]\nsw = { docs = \"d\" }\n";
    assert!(parse::parse_data_file(text).is_err());
}

#[test]
fn rejects_api_without_request() {
    assert!(parse::parse_data_file("[[api]]\nsoftware = {}\n").is_err());
}

#[test]
fn rejects_bad_http_code() {
    let text = "[[api]]\nrequest = \"r\"\nresponse = { http-code = \"ok\" }\n";
    assert!(parse::parse_data_file(text).is_err());
    let text2 = "[[api]]\nrequest = \"r\"\nresponse = { http-code = -1 }\n";
    assert!(parse::parse_data_file(text2).is_err());
}

#[test]
fn attribute_accepts_entity_link_and_software() {
    let text = "[entity.w.attributes]\nfield = { entity = \"other\", sw = \"1.0\" }\n";
    let data = parse::parse_data_file(text).unwrap();
    let attrs = &data.entity[0].1.attributes;
    assert_eq!(attrs.len(), 1);
    assert_eq!(attrs[0].0, "field");
    assert_eq!(attrs[0].1.entity.as_deref(), Some("other"));
    assert_eq!(attrs[0].1.software.len(), 1);
    assert_eq!(attrs[0].1.software[0].0, "sw");
}

#[test]
fn parses_registry_in_document_order() {
    let text = "[b]\nname = \"B\"\ndocs = \"db\"\n[a]\nname = \"A\"\ndocs = \"da\"\n";
    let reg = parse::parse_software_file(text).unwrap();
    assert_eq!(reg.len(), 2);
    assert_eq!(reg[0].0, "b");
    assert_eq!(reg[0].1.name, "B");
    assert_eq!(reg[1].0, "a");
    assert_eq!(reg[1].1.docs, "da");
}

#[test]
fn rejects_registry_entry_without_docs() {
    assert!(parse::parse_software_file("[a]\nname = \"A\"\n").is_err());
}

#[test]
fn rejects_registry_entry_with_unknown_field() {
    assert!(parse::parse_software_file("[a]\nname = \"A\"\ndocs = \"d\"\nurl = \"u\"\n").is_err());
}

#[test]
fn file_stem_and_drop_ext() {
    assert_eq!(paths::file_stem("data/sub/thing.toml"), "thing");
    assert_eq!(paths::file_stem("thing.toml"), "thing");
    assert_eq!(paths::file_stem("data/noext"), "noext");
    assert_eq!(paths::drop_ext("data/sub/thing.toml"), "data/sub/thing");
    assert_eq!(paths::drop_ext("data/noext"), "data/noext");
}
