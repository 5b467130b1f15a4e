use nh_validation::diagnostics::{NumberOrString, Position, Range};
use nh_validation::json::Json;
use nh_validation::utils::error_codes::{
    get_error_code, CONFIG_FILE_PATH_NOT_FOUND, ERROR_SOURCE, SHIPLOG_DUPLICATE_ID,
    SHIPLOG_MISSING_CURIOSITY, SHIPLOG_MISSING_SOURCE_ID,
};
use nh_validation::utils::{
    find_paths_with_x_prop, json_path_to_json_pos_path, json_pos_range_to_diag_range,
    walk_reaches_depth, xml_range_to_diag_range, JsonPosition, JsonRange, PathType,
};
use nh_validation::xml::TextPos;

#[test]
fn error_codes_are_stable() {
    assert_eq!(ERROR_SOURCE, "New Horizons");
    assert_eq!(SHIPLOG_DUPLICATE_ID, "nh.shiplog.duplicate_ids");
    assert_eq!(SHIPLOG_MISSING_CURIOSITY, "nh.shiplog.missing_curiosity");
    assert_eq!(SHIPLOG_MISSING_SOURCE_ID, "nh.shiplog.invalid_source_id");
    assert_eq!(CONFIG_FILE_PATH_NOT_FOUND, "nh.config.file_path_invalid");
    assert_eq!(
        get_error_code("nh.x"),
        Some(NumberOrString::String("nh.x".to_string()))
    );
}

#[test]
fn xml_places_count_from_one() {
    let range = xml_range_to_diag_range(TextPos { row: 3, col: 5 }, TextPos { row: 3, col: 27 });
    assert_eq!(
        range,
        Range {
            start: Position { line: 2, character: 4 },
            end: Position { line: 2, character: 26 }
        }
    );
    let first = xml_range_to_diag_range(TextPos { row: 1, col: 1 }, TextPos { row: 1, col: 1 });
    assert_eq!(first.start, Position { line: 0, character: 0 });
}

#[test]
fn json_places_are_kept() {
    let range = json_pos_range_to_diag_range(JsonRange {
        start: JsonPosition { line: 4, char: 9, idx: 77 },
        end: JsonPosition { line: 5, char: 0, idx: 90 },
    });
    assert_eq!(
        range,
        Range {
            start: Position { line: 4, character: 9 },
            end: Position { line: 5, character: 0 }
        }
    );
}

#[test]
fn json_places_beyond_32_bits_are_cut() {
    let range = json_pos_range_to_diag_range(JsonRange {
        start: JsonPosition { line: 4_294_967_296 + 7, char: 4_294_967_295, idx: 0 },
        end: JsonPosition { line: 0, char: 8_589_934_592, idx: 0 },
    });
    assert_eq!(range.start, Position { line: 7, character: 4_294_967_295 });
    assert_eq!(range.end, Position { line: 0, character: 0 });
}

#[test]
fn paths_become_steps() {
    assert_eq!(
        json_path_to_json_pos_path("/Props/details/*/path"),
        vec![
            PathType::Object("Props".to_string()),
            PathType::Object("details".to_string()),
            PathType::Wildcard,
            PathType::Object("path".to_string()),
        ]
    );
    assert_eq!(json_path_to_json_pos_path(""), Vec::<PathType>::new());
    assert_eq!(json_path_to_json_pos_path("ignored/a"), vec![PathType::Object("a".to_string())]);
    assert_eq!(json_path_to_json_pos_path("/"), vec![PathType::Object(String::new())]);
}

const SCHEMA: &str = "{\
\"type\": \"object\",\
\"properties\": {\
  \"name\": {\"type\": \"string\"},\
  \"icon\": {\"type\": \"string\", \"x-file-path\": true},\
  \"plain\": {\"type\": \"string\", \"x-file-path\": false},\
  \"Props\": {\"$ref\": \"#/definitions/PropModule\"},\
  \"list\": {\"type\": \"array\", \"items\": {\"type\": \"string\", \"x-file-path\": true}}\
},\
\"definitions\": {\
  \"PropModule\": {\"type\": \"object\", \"properties\": {\
    \"details\": {\"type\": \"array\", \"items\": {\"$ref\": \"#/definitions/Detail\"}}}},\
  \"Detail\": {\"type\": \"object\", \"properties\": {\
    \"assetBundle\": {\"type\": \"string\", \"x-file-path\": true},\
    \"count\": {\"type\": \"integer\", \"x-file-path\": true}}},\
  \"Loop\": {\"type\": \"object\", \"properties\": {\"again\": {\"$ref\": \"#/definitions/Loop\"}}}\
}}";

#[test]
fn schema_paths_are_found() {
    let schema = Json::parse(SCHEMA).unwrap();
    assert_eq!(
        find_paths_with_x_prop("x-file-path", "", &schema, &schema, 64),
        vec!["/Props/details/*/assetBundle", "/icon", "/list/*"]
    );
    assert_eq!(
        find_paths_with_x_prop("x-other", "", &schema, &schema, 64),
        Vec::<String>::new()
    );
}

#[test]
fn schema_paths_stop_at_the_depth() {
    let schema = Json::parse(SCHEMA).unwrap();
    assert_eq!(
        find_paths_with_x_prop("x-file-path", "", &schema, &schema, 0),
        Vec::<String>::new()
    );
    assert_eq!(
        find_paths_with_x_prop("x-file-path", "", &schema, &schema, 1),
        Vec::<String>::new()
    );
    assert_eq!(find_paths_with_x_prop("x-file-path", "", &schema, &schema, 2), vec!["/icon"]);
    assert_eq!(
        find_paths_with_x_prop("x-file-path", "", &schema, &schema, 3),
        vec!["/icon", "/list/*"]
    );
    let looping = schema.get("definitions").unwrap().get("Loop").unwrap();
    assert_eq!(
        find_paths_with_x_prop("x-file-path", "/start", &schema, looping, 64),
        Vec::<String>::new()
    );
}

#[test]
fn a_marked_string_gives_its_own_path() {
    let node = Json::parse("{\"type\": \"string\", \"x-file-path\": true}").unwrap();
    assert_eq!(find_paths_with_x_prop("x-file-path", "/here", &node, &node, 1), vec!["/here"]);
    let unmarked = Json::parse("{\"type\": \"string\", \"x-file-path\": \"true\"}").unwrap();
    assert!(find_paths_with_x_prop("x-file-path", "/here", &unmarked, &unmarked, 1).is_empty());
    let untyped = Json::parse("{\"x-file-path\": true}").unwrap();
    assert!(find_paths_with_x_prop("x-file-path", "/here", &untyped, &untyped, 1).is_empty());
}

#[test]
fn the_walk_says_when_it_is_cut() {
    let schema = Json::parse(SCHEMA).unwrap();
    // the deepest marked string stands five nodes deep
    assert!(walk_reaches_depth(&schema, &schema, 0));
    assert!(walk_reaches_depth(&schema, &schema, 3));
    assert!(walk_reaches_depth(&schema, &schema, 4));
    assert!(!walk_reaches_depth(&schema, &schema, 5));
    assert!(!walk_reaches_depth(&schema, &schema, 64));
    assert_eq!(
        find_paths_with_x_prop("x-file-path", "", &schema, &schema, 5),
        find_paths_with_x_prop("x-file-path", "", &schema, &schema, 64)
    );
    let looping = schema.get("definitions").unwrap().get("Loop").unwrap();
    assert!(walk_reaches_depth(&schema, looping, 64));
    let leaf = Json::parse("{\"type\": \"string\"}").unwrap();
    assert!(!walk_reaches_depth(&leaf, &leaf, 1));
    assert!(walk_reaches_depth(&leaf, &leaf, 0));
}
