use apibook::collect;
use apibook::model;
use apibook::pages;
use apibook::parse;
use apibook::validate;

fn registry(text: &str) -> Vec<model::SoftwareDef> {
    model::registry_from(parse::parse_software_file(text).unwrap())
}

fn files(list: &[(&str, &str)]) -> Vec<(String, String)> {
    list.iter().map(|(p, t)| (p.to_string(), t.to_string())).collect()
}

#[test]
fn validation_detects_missing_software() {
    let reg = registry("[v1]\nname = \"V1\"\ndocs = \"d\"\n");
    let fs = files(&[("data/things.toml", "[entity.thing.software]\nv2 = \"1.0\"\n")]);
    let c = collect::collect(&fs, "/").unwrap();
    let err = validate::validate_collected(&c, &reg).unwrap_err();
    assert_eq!(err.missing, "v2");
    let msg = err.message();
    assert!(msg.contains("v2"));
    assert!(msg.contains("thing"));
}

#[test]
fn validation_accepts_declared_software() {
    let reg = registry("[v1]\nname = \"V1\"\ndocs = \"d\"\n");
    let fs = files(&[("data/things.toml", "[entity.thing.software]\nv1 = \"1.0\"\n")]);
    let c = collect::collect(&fs, "/").unwrap();
    assert!(validate::validate_collected(&c, &reg).is_ok());
}

#[test]
fn validation_error_message_wording() {
    let err = validate::ValidationError {
        missing: "v2".to_string(),
        context: Some("thing".to_string()),
        field: "attr".to_string(),
    };
    assert_eq!(err.message(), "Software 'v2' not found for 'thing.attr' in software.toml");
    let err2 = validate::ValidationError {
        missing: "v2".to_string(),
        context: None,
        field: "thing".to_string(),
    };
    assert_eq!(err2.message(), "Software 'v2' not found for 'thing' in software.toml");
}

#[test]
fn duplicate_entity_key_last_file_wins() {
    let fs = files(&[
        ("data/a.toml", "[entity.user]\nname = \"From A\"\n"),
        ("data/b.toml", "[entity.user]\nname = \"From B\"\n"),
    ]);
    let c = collect::collect(&fs, "/").unwrap();
    assert_eq!(c.entities.len(), 1);
    assert_eq!(c.entities[0].0, "user");
    assert_eq!(c.entities[0].1.name, "From B");
}

#[test]
fn entities_sorted_regardless_of_file_order() {
    let fs = files(&[
        ("data/z.toml", "[entity.zebra]\n"),
        ("data/a.toml", "[entity.aardvark]\n[entity.mole]\n"),
    ]);
    let c = collect::collect(&fs, "/").unwrap();
    let keys: Vec<&str> = c.entities.iter().map(|p| p.0.as_str()).collect();
    assert_eq!(keys, vec!["aardvark", "mole", "zebra"]);
}

#[test]
fn api_groups_sorted_by_path() {
    let fs = files(&[
        ("data/z.toml", "[[api]]\nrequest = \"rz\"\n"),
        ("data/a.toml", "[[api]]\nrequest = \"ra\"\n"),
    ]);
    let c = collect::collect(&fs, "/").unwrap();
    let keys: Vec<&str> = c.apis.iter().map(|p| p.0.as_str()).collect();
    assert_eq!(keys, vec!["data/a", "data/z"]);
}

#[test]
fn registry_file_skipped() {
    let fs = files(&[
        ("data/software.toml", "this is not even parsed"),
        ("data/a.toml", "[entity.a]\n"),
    ]);
    let c = collect::collect(&fs, "/").unwrap();
    assert_eq!(c.entities.len(), 1);
    assert_eq!(c.apis.len(), 1);
    assert_eq!(c.apis[0].0, "data/a");
}

#[test]
fn collect_fails_on_bad_file() {
    let fs = files(&[("data/a.toml", "= broken")]);
    assert!(collect::collect(&fs, "/").is_err());
}

#[test]
fn end_to_end_one_entity_one_api() {
    let reg = registry("[sw]\nname = \"Core\"\ndocs = \"core docs\"\n");
    let text = "[entity.widget.software]\nsw = \"1.0\"\n[[api]]\nrequest = \"get_widget\"\nresponse = \"widget\"\n";
    let fs = files(&[("data/widgets.toml", text)]);
    let c = collect::collect(&fs, "/").unwrap();
    assert!(validate::validate_collected(&c, &reg).is_ok());

    assert_eq!(c.entities.len(), 1);
    let (key, widget) = &c.entities[0];
    assert_eq!(key, "widget");
    assert_eq!(widget.name, "Widget");
    assert_eq!(widget.path, "/api-entities/widget");
    assert_eq!(widget.software.len(), 1);
    assert_eq!(widget.software[0].0, "sw");
    assert_eq!(widget.software[0].1.version, "1.0");

    assert_eq!(c.apis.len(), 1);
    assert_eq!(c.apis[0].0, "data/widgets");
    let apis = &c.apis[0].1;
    assert_eq!(apis.len(), 1);
    assert_eq!(apis[0].request, "get_widget");
    assert_eq!(apis[0].responses.len(), 1);
    match &apis[0].responses[0] {
        model::Response::Reference { value, array } => {
            assert_eq!(value, "widget");
            assert!(!*array);
        }
        _ => panic!("expected a reference response"),
    }

    let ap = pages::api_page_plan(c.apis[0].0.as_str());
    assert_eq!(ap.title, "widgets");
    assert_eq!(ap.display_title, "widgets");
    assert_eq!(ap.path, "api-methods/widgets");
    assert!(ap.parents.is_empty());

    let ep = pages::entity_page_plan(widget.name.as_str(), key.as_str());
    assert_eq!(ep.title, "Widget");
    assert_eq!(ep.path, "api-entities/widget");
    assert_eq!(ep.parents, vec!["Api Entities".to_string()]);
}

#[test]
fn nested_api_group_page_is_indented() {
    let p = pages::api_page_plan("data/sub/thing");
    assert_eq!(p.title, "thing");
    assert_eq!(p.display_title, "&emsp;thing");
    assert_eq!(p.path, "api-methods/sub/thing");
    assert_eq!(p.parents, vec!["sub".to_string()]);
}
