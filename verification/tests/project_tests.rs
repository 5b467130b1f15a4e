use nh_validation::diagnostics::DocumentId;
use nh_validation::project::discovery::{
    gather_references, read_references, system_name_of, ReferenceKind,
};
use nh_validation::json::Json;
use nh_validation::project::{FileCategory, Project, ProjectFile};

fn sample_project() -> Project {
    let mut project = Project::new();
    project.track(FileCategory::Planet, "file:///p/planets/a.json".to_string(), "{}".to_string());
    project.track(FileCategory::System, "file:///p/systems/s.json".to_string(), "{}".to_string());
    project.track(FileCategory::ShipLog, "file:///p/logs/a.xml".to_string(), "<a/>".to_string());
    project.track(FileCategory::Dialogue, "file:///p/d/a.xml".to_string(), "<d/>".to_string());
    project.track(FileCategory::Text, "file:///p/t/a.xml".to_string(), "<t/>".to_string());
    project
}

#[test]
fn track_puts_files_at_version_zero() {
    let project = sample_project();
    assert_eq!(project.planet_files.len(), 1);
    assert_eq!(project.planet_files[0].id, DocumentId::new("file:///p/planets/a.json".to_string(), 0));
    assert_eq!(project.text_files[0].contents, "<t/>");
}

#[test]
fn iter_all_goes_category_by_category() {
    let project = sample_project();
    let uris: Vec<&str> = project.iter_all().iter().map(|f| f.id.uri.as_str()).collect();
    assert_eq!(
        uris,
        vec![
            "file:///p/planets/a.json",
            "file:///p/systems/s.json",
            "file:///p/logs/a.xml",
            "file:///p/d/a.xml",
            "file:///p/t/a.xml",
        ]
    );
    assert!(Project::new().iter_all().is_empty());
}

#[test]
fn open_file_replaces_a_file_at_a_lower_version() {
    let mut project = sample_project();
    project.open_file(DocumentId::new("file:///p/logs/a.xml".to_string(), 2), "<b/>");
    assert_eq!(project.ship_log_files[0].id.version, 2);
    assert_eq!(project.ship_log_files[0].contents, "<b/>");
    // the same version again changes nothing
    project.open_file(DocumentId::new("file:///p/logs/a.xml".to_string(), 2), "<c/>");
    assert_eq!(project.ship_log_files[0].contents, "<b/>");
    // a lower version changes nothing
    project.open_file(DocumentId::new("file:///p/logs/a.xml".to_string(), 1), "<c/>");
    assert_eq!(project.ship_log_files[0].contents, "<b/>");
    project.open_file(DocumentId::new("file:///p/logs/a.xml".to_string(), 3), "<d/>");
    assert_eq!(project.ship_log_files[0].id.version, 3);
    assert_eq!(project.ship_log_files[0].contents, "<d/>");
    assert_eq!(project.planet_files[0].contents, "{}");
}

#[test]
fn open_file_of_an_unknown_document_changes_nothing() {
    let mut project = sample_project();
    project.open_file(DocumentId::new("file:///p/logs/unknown.xml".to_string(), 5), "<x/>");
    assert_eq!(project.iter_all().len(), 5);
    assert!(project.iter_all().iter().all(|f| f.id.version == 0));
    assert_eq!(project.ship_log_files[0].contents, "<a/>");
}

#[test]
fn check_file_add_takes_the_first_older_file() {
    let mut files = vec![
        ProjectFile::new("u".to_string(), 4, "old4".to_string()),
        ProjectFile::new("u".to_string(), 1, "old1".to_string()),
        ProjectFile::new("v".to_string(), 0, "other".to_string()),
    ];
    let id = DocumentId::new("u".to_string(), 3);
    assert!(Project::check_file_add(&mut files, &id, "new"));
    assert_eq!(files[0].contents, "old4");
    assert_eq!(files[1].contents, "new");
    assert_eq!(files[1].id.version, 3);
    assert!(!Project::check_file_add(&mut files, &id, "newer"));
    assert!(!Project::check_file_add(&mut files, &DocumentId::new("w".to_string(), 9), "x"));
}

#[test]
fn close_file_goes_back_to_disk() {
    let mut project = sample_project();
    project.open_file(DocumentId::new("file:///p/systems/s.json".to_string(), 7), "{\"x\":1}");
    assert!(project.is_tracked("file:///p/systems/s.json"));
    project.close_file("file:///p/systems/s.json", Some("{\"disk\":true}".to_string()));
    assert_eq!(project.system_files[0].id.version, 0);
    assert_eq!(project.system_files[0].contents, "{\"disk\":true}");
}

#[test]
fn close_file_keeps_the_text_when_the_read_failed() {
    let mut project = sample_project();
    project.open_file(DocumentId::new("file:///p/d/a.xml".to_string(), 7), "<edited/>");
    project.close_file("file:///p/d/a.xml", None);
    assert_eq!(project.dialogue_files[0].id.version, 0);
    assert_eq!(project.dialogue_files[0].contents, "<edited/>");
    assert!(!project.is_tracked("file:///nowhere"));
    project.close_file("file:///nowhere", Some("x".to_string()));
    assert_eq!(project.iter_all().len(), 5);
}

#[test]
fn check_file_remove_takes_the_first_file_of_the_uri() {
    let mut files = vec![
        ProjectFile::new("v".to_string(), 2, "other".to_string()),
        ProjectFile::new("u".to_string(), 4, "first".to_string()),
        ProjectFile::new("u".to_string(), 5, "second".to_string()),
    ];
    assert!(Project::check_file_remove(&mut files, "u", Some("disk".to_string())));
    assert_eq!(files[1].id.version, 0);
    assert_eq!(files[1].contents, "disk");
    assert_eq!(files[2].id.version, 5);
    assert_eq!(files[0].id.version, 2);
    assert!(!Project::check_file_remove(&mut files, "w", None));
}

#[test]
fn get_relative_strips_the_root() {
    let file = ProjectFile::new("file:///proj/planets/my%20log.xml".to_string(), 0, String::new());
    assert_eq!(file.get_relative("/proj").as_deref(), Some("planets/my log.xml"));
    assert_eq!(file.get_relative("/other"), None);
    let odd = ProjectFile::new("not a uri".to_string(), 0, String::new());
    assert_eq!(odd.get_relative("/proj"), None);
    assert_eq!(ProjectFile::dummy().id.version, 0);
}

#[test]
fn planets_name_their_documents() {
    let planet = "{\"ShipLog\": {\"xmlFile\": \"planets/log.xml\"}, \"Props\": {\
\"dialogue\": [{\"xmlFile\": \"d/one.xml\"}, {\"xmlFile\": \"d/two.xml\"}],\
\"translatorText\": [{\"xmlFile\": \"t/one.xml\"}],\
\"remotes\": [{\"whiteboard/nomaiText/xmlFile\": \"r/one.xml\"}, {\"whiteboard\": {\"nomaiText\": {\"xmlFile\": \"r/nested.xml\"}}}]}}";
    let mut project = Project::new();
    project.track(FileCategory::Planet, "file:///p/planets/a.json".to_string(), planet.to_string());
    project.track(FileCategory::Planet, "file:///p/planets/bad.json".to_string(), "{".to_string());
    project.track(
        FileCategory::Planet,
        "file:///p/planets/b.json".to_string(),
        "{\"ShipLog\": {\"xmlFile\": \"planets/b.xml\"}, \"Props\": {\"translatorText\": [{\"xmlFile\": \"t/two.xml\"}]}}".to_string(),
    );
    assert_eq!(project.find_ship_logs(), vec!["planets/log.xml", "planets/b.xml"]);
    assert_eq!(project.find_dialogue(), vec!["d/one.xml", "d/two.xml"]);
    assert_eq!(project.find_text(), vec!["t/one.xml", "t/two.xml", "r/one.xml"]);
    assert_eq!(
        gather_references(&project.planet_files, ReferenceKind::Remote),
        vec!["r/one.xml"]
    );
    let json = Json::parse("{\"ShipLog\": {\"xmlFile\": 3}}").unwrap();
    assert!(read_references(&json, ReferenceKind::ShipLog).is_empty());
    assert!(read_references(&Json::parse("[]").unwrap(), ReferenceKind::ShipLog).is_empty());
}

#[test]
fn systems_are_named_by_their_files() {
    let mut project = Project::new();
    project.track(FileCategory::System, "file:///p/systems/SolarSystem.json".to_string(), "{}".to_string());
    project.track(FileCategory::System, "file:///p/systems/deep/Other.json".to_string(), "{}".to_string());
    assert_eq!(project.find_all_systems(), vec!["SolarSystem", "Other"]);
    assert_eq!(system_name_of("file:///p/systems/plain"), "plain");
    assert_eq!(system_name_of("a.json"), "a");
    assert_eq!(system_name_of(".json"), "");
    assert_eq!(system_name_of("json"), "json");
    assert_eq!(system_name_of("x/"), "");
}

#[test]
fn a_default_project_is_empty() {
    let project = Project::default();
    assert!(project.iter_all().is_empty());
    assert!(project.files_with_diagnostics.is_empty());
    assert_eq!(project.root_path, "");
}

#[test]
fn track_takes_a_uri_once_in_a_category() {
    let mut project = Project::new();
    project.track(FileCategory::ShipLog, "file:///p/log.xml".to_string(), "<first/>".to_string());
    project.track(FileCategory::ShipLog, "file:///p/other.xml".to_string(), "<other/>".to_string());
    project.track(FileCategory::ShipLog, "file:///p/log.xml".to_string(), "<second/>".to_string());
    assert_eq!(project.ship_log_files.len(), 2);
    assert_eq!(project.ship_log_files[0].id.uri, "file:///p/log.xml");
    assert_eq!(project.ship_log_files[0].contents, "<first/>");
    assert_eq!(project.ship_log_files[1].id.uri, "file:///p/other.xml");
    // another category may hold the same URI
    project.track(FileCategory::Text, "file:///p/log.xml".to_string(), "<text/>".to_string());
    assert_eq!(project.text_files.len(), 1);
    assert_eq!(project.iter_all().len(), 3);
}

#[test]
fn a_document_named_by_two_planets_is_tracked_once() {
    let planet = "{\"ShipLog\": {\"xmlFile\": \"planets/shared.xml\"}}";
    let mut project = Project::new();
    project.track(FileCategory::Planet, "file:///p/planets/a.json".to_string(), planet.to_string());
    project.track(FileCategory::Planet, "file:///p/planets/b.json".to_string(), planet.to_string());
    assert_eq!(project.find_ship_logs(), vec!["planets/shared.xml", "planets/shared.xml"]);
    for _ in project.find_ship_logs() {
        project.track(
            FileCategory::ShipLog,
            "file:///p/planets/shared.xml".to_string(),
            "<AstroObjectEntry/>".to_string(),
        );
    }
    assert_eq!(project.ship_log_files.len(), 1);
}
