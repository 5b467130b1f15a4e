use nh_validation::json::Json;
use nh_validation::planets::default_star_system;

#[test]
fn parse_reads_an_object() {
    let doc = Json::parse("{\"a\": 1}").unwrap();
    assert!(doc.is_object());
    assert!(matches!(doc.get("a"), Some(Json::Number(n)) if n == "1"));
    assert!(doc.get("b").is_none());
}

#[test]
fn parse_refuses_what_is_not_json() {
    assert!(Json::parse("{\"a\": ").is_none());
    assert!(Json::parse("").is_none());
}

#[test]
fn parse_keeps_every_kind_of_value() {
    let doc = Json::parse("[null, true, 2.5, \"x\", [], {}]").unwrap();
    let items = doc.as_array().unwrap();
    assert_eq!(items.len(), 6);
    assert!(matches!(items[0], Json::Null));
    assert_eq!(items[1].as_bool(), Some(true));
    assert!(matches!(&items[2], Json::Number(n) if n == "2.5"));
    assert_eq!(items[3].as_str().map(|s| s.as_str()), Some("x"));
    assert_eq!(items[4].as_array().map(|a| a.len()), Some(0));
    assert!(items[5].is_object());
    assert_eq!(items[5].as_object().map(|m| m.len()), Some(0));
    assert!(!items[4].is_object());
    assert!(items[0].as_str().is_none());
    assert!(items[3].as_bool().is_none());
    assert!(items[3].as_array().is_none());
    assert!(items[4].as_object().is_none());
}

#[test]
fn get_finds_members_of_objects_only() {
    let doc = Json::parse("{\"b\": {\"c\": \"deep\"}, \"a\": [1]}").unwrap();
    let inner = doc.get("b").unwrap();
    assert_eq!(inner.get("c").unwrap().as_str().unwrap(), "deep");
    assert!(doc.get("a").unwrap().get("0").is_none());
    assert!(doc.get("c").is_none());
}

#[test]
fn a_repeated_key_keeps_its_last_value() {
    let doc = Json::parse("{\"a\": 1, \"a\": 2}").unwrap();
    assert_eq!(doc.as_object().unwrap().len(), 1);
    assert!(matches!(doc.get("a"), Some(Json::Number(n)) if n == "2"));
}

#[test]
fn collect_texts_takes_strings_under_the_key() {
    let doc = Json::parse(
        "{\"Props\": {\"dialogue\": [{\"xmlFile\": \"a.xml\"}, 3, {\"xmlFile\": 4}, {\"other\": \"x\"}, {\"xmlFile\": \"b.xml\"}]}}",
    )
    .unwrap();
    assert_eq!(doc.collect_listed_texts("Props", "dialogue", "xmlFile"), vec!["a.xml", "b.xml"]);
    assert!(doc.collect_listed_texts("Props", "remotes", "xmlFile").is_empty());
    assert!(doc.collect_listed_texts("ShipLog", "dialogue", "xmlFile").is_empty());
    let items = doc.get("Props").unwrap().get("dialogue").unwrap().as_array().unwrap();
    assert_eq!(Json::collect_texts(items, "other"), vec!["x"]);
}

#[test]
fn default_star_system_is_the_solar_system() {
    assert_eq!(default_star_system(), "SolarSystem");
}
