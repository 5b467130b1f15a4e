use nh_validation::diagnostics::{
    Diagnostic, DiagnosticSeverity, DocumentId, NumberOrString, Position, Range,
};
use nh_validation::file_paths::{FilePathValidator, PathReference};
use nh_validation::main_validator::{MainValidator, RegisteredValidator};
use nh_validation::project::{FileCategory, Project};
use nh_validation::ship_log::baseline::Baseline;
use nh_validation::ship_log::validator::ShipLogValidator;
use nh_validation::utils::{JsonPosition, JsonRange};
use nh_validation::validation::{
    emit_diagnostics, internal_emit, ErrorSet, PublishDiagnostics, Validator,
};

fn diagnostic(message: &str) -> Diagnostic {
    Diagnostic {
        range: Range {
            start: Position { line: 1, character: 2 },
            end: Position { line: 1, character: 5 },
        },
        severity: Some(DiagnosticSeverity::Error),
        code: Some(NumberOrString::String("code".to_string())),
        source: Some("New Horizons".to_string()),
        message: message.to_string(),
    }
}

fn finding(uri: &str, version: i32, message: &str) -> (DocumentId, Diagnostic) {
    (DocumentId::new(uri.to_string(), version), diagnostic(message))
}

fn messages(emission: &PublishDiagnostics) -> Vec<&str> {
    emission.diagnostics.iter().map(|d| d.message.as_str()).collect()
}

const DUPLICATES: &str = "<AstroObjectEntry><ID>P</ID><Entry><ID>A</ID></Entry><Entry><ID>A</ID></Entry></AstroObjectEntry>";
const CLEAN: &str = "<AstroObjectEntry><ID>P</ID><Entry><ID>A</ID></Entry><Entry><ID>B</ID></Entry></AstroObjectEntry>";

fn ship_log_project(log: &str) -> Project {
    let mut project = Project::new();
    project.root_path = "/p".to_string();
    project.track(FileCategory::Planet, "file:///p/planets/a.json".to_string(), "{}".to_string());
    project.track(FileCategory::System, "file:///p/systems/s.json".to_string(), "{}".to_string());
    project.track(FileCategory::ShipLog, "file:///p/planets/a.xml".to_string(), log.to_string());
    project
}

#[test]
fn internal_emit_takes_uri_and_version_of_the_last() {
    let buffer: ErrorSet = vec![finding("file:///a", 1, "one"), finding("file:///a", 2, "two")];
    let emission = internal_emit(&buffer);
    assert_eq!(emission.uri, "file:///a");
    assert_eq!(emission.version, Some(2));
    assert_eq!(messages(&emission), vec!["one", "two"]);
    assert_eq!(emission.diagnostics[0], diagnostic("one"));
}

#[test]
fn emit_diagnostics_groups_by_document() {
    let errors: ErrorSet = vec![
        finding("file:///b", 3, "b1"),
        finding("file:///a", 1, "a1"),
        finding("file:///c", 0, "c1"),
        finding("file:///a", 1, "a2"),
        finding("file:///b", 3, "b2"),
    ];
    let emissions = emit_diagnostics(&errors);
    assert_eq!(emissions.len(), 3);
    assert_eq!(emissions[0].uri, "file:///a");
    assert_eq!(emissions[0].version, Some(1));
    assert_eq!(messages(&emissions[0]), vec!["a1", "a2"]);
    assert_eq!(emissions[1].uri, "file:///b");
    assert_eq!(emissions[1].version, Some(3));
    assert_eq!(messages(&emissions[1]), vec!["b1", "b2"]);
    assert_eq!(emissions[2].uri, "file:///c");
    assert_eq!(emissions[2].version, Some(0));
    assert_eq!(messages(&emissions[2]), vec!["c1"]);
    assert!(emit_diagnostics(&Vec::new()).is_empty());
}

#[test]
fn publish_all_records_each_document_of_the_findings_once() {
    let mut project = ship_log_project(CLEAN);
    project.files_with_diagnostics = vec![DocumentId::new("file:///old".to_string(), 9)];
    let errors: ErrorSet = vec![
        finding("file:///a", 1, "a1"),
        finding("file:///a", 1, "a2"),
        finding("file:///b", 3, "b1"),
        finding("file:///a", 1, "a3"),
        finding("file:///c", 0, "c1"),
        finding("file:///b", 3, "b2"),
    ];
    let emissions = MainValidator::publish_all(&errors, &mut project);
    assert_eq!(emissions.len(), 3);
    assert_eq!(
        project.files_with_diagnostics,
        vec![
            DocumentId::new("file:///a".to_string(), 1),
            DocumentId::new("file:///b".to_string(), 3),
            DocumentId::new("file:///c".to_string(), 0),
        ]
    );
    assert_eq!(project.iter_all().len(), 3);
    let none = MainValidator::publish_all(&Vec::new(), &mut project);
    assert!(none.is_empty());
    assert!(project.files_with_diagnostics.is_empty());
}

#[test]
fn ids_repeated_across_documents_leave_each_document_once() {
    // an entry id stands in both documents, and a fact id twice in the first
    let first = "<AstroObjectEntry><ID>P</ID><Entry><ID>A</ID>\
<ExploreFact><ID>F</ID></ExploreFact><ExploreFact><ID>F</ID></ExploreFact></Entry></AstroObjectEntry>";
    let second = "<AstroObjectEntry><ID>Q</ID><Entry><ID>A</ID></Entry></AstroObjectEntry>";
    let mut project = ship_log_project(first);
    project.track(FileCategory::ShipLog, "file:///p/planets/b.xml".to_string(), second.to_string());
    let validator = MainValidator::new();
    let emissions = validator.force_validate(&mut project);
    assert_eq!(emissions.len(), 2);
    assert_eq!(
        project.files_with_diagnostics,
        vec![
            DocumentId::new("file:///p/planets/a.xml".to_string(), 0),
            DocumentId::new("file:///p/planets/b.xml".to_string(), 0),
        ]
    );
}

#[test]
fn publish_change_clears_files_without_findings() {
    let mut project = ship_log_project(CLEAN);
    project.files_with_diagnostics = vec![
        DocumentId::new("file:///p/planets/a.xml".to_string(), 4),
        DocumentId::new("file:///p/planets/a.json".to_string(), 2),
        DocumentId::new("file:///p/systems/s.json".to_string(), 1),
    ];
    let errors: ErrorSet = vec![finding("file:///p/planets/a.json", 2, "still bad")];
    let changed = vec![
        "file:///p/systems/s.json".to_string(),
        "file:///p/planets/a.json".to_string(),
    ];
    let emissions = MainValidator::publish_change(&errors, &changed, &mut project);
    assert_eq!(
        emissions,
        vec![
            PublishDiagnostics {
                uri: "file:///p/planets/a.json".to_string(),
                version: Some(2),
                diagnostics: vec![diagnostic("still bad")],
            },
            PublishDiagnostics {
                uri: "file:///p/systems/s.json".to_string(),
                version: Some(1),
                diagnostics: vec![],
            },
            PublishDiagnostics {
                uri: "file:///p/planets/a.xml".to_string(),
                version: Some(4),
                diagnostics: vec![],
            },
        ]
    );
    // the changed file without findings is let go; the unchanged one and the
    // one with findings stay
    assert_eq!(
        project.files_with_diagnostics,
        vec![
            DocumentId::new("file:///p/planets/a.xml".to_string(), 4),
            DocumentId::new("file:///p/planets/a.json".to_string(), 2),
        ]
    );
}

#[test]
fn a_file_never_reported_is_cleared_without_version() {
    let mut project = ship_log_project(CLEAN);
    let emissions = MainValidator::publish_change(&Vec::new(), &Vec::new(), &mut project);
    assert_eq!(emissions.len(), 3);
    assert!(emissions.iter().all(|e| e.version.is_none() && e.diagnostics.is_empty()));
}

#[test]
fn force_validate_reports_the_ship_log() {
    let validator = MainValidator::new();
    assert_eq!(validator.validators.len(), 2);
    let mut project = ship_log_project(DUPLICATES);
    let emissions = validator.force_validate(&mut project);
    assert_eq!(emissions.len(), 1);
    assert_eq!(emissions[0].uri, "file:///p/planets/a.xml");
    assert_eq!(emissions[0].version, Some(0));
    assert_eq!(
        messages(&emissions[0]),
        vec!["Duplicate Entry ID: `A`", "Duplicate Entry ID: `A`"]
    );
    assert_eq!(
        project.files_with_diagnostics,
        vec![DocumentId::new("file:///p/planets/a.xml".to_string(), 0)]
    );
    // a second run on the unchanged project gives the same
    let again = validator.force_validate(&mut project);
    assert_eq!(again, emissions);
}

#[test]
fn a_fixed_file_is_cleared_on_change() {
    let validator = MainValidator::new();
    let mut project = ship_log_project(DUPLICATES);
    validator.force_validate(&mut project);

    project.open_file(DocumentId::new("file:///p/planets/a.xml".to_string(), 1), CLEAN);
    let emissions = validator.on_change(vec!["file:///p/planets/a.xml".to_string()], &mut project);
    let cleared: Vec<&PublishDiagnostics> =
        emissions.iter().filter(|e| e.uri == "file:///p/planets/a.xml").collect();
    assert_eq!(cleared.len(), 1);
    assert!(cleared[0].diagnostics.is_empty());
    assert_eq!(cleared[0].version, Some(0));
    assert_eq!(emissions.len(), 3);
    assert!(project.files_with_diagnostics.is_empty());
}

#[test]
fn a_change_elsewhere_still_clears_a_file_that_became_clean() {
    // the ship log refers to a curiosity; declaring it in the system config
    // makes the finding go away though the ship log itself did not change
    let log = "<AstroObjectEntry><ID>P</ID><Entry><ID>A</ID><Curiosity>ROCK</Curiosity></Entry></AstroObjectEntry>";
    let validator = MainValidator::new();
    let mut project = ship_log_project(log);
    let first = validator.force_validate(&mut project);
    assert_eq!(first.len(), 1);
    assert_eq!(
        messages(&first[0]),
        vec!["Unknown Curiosity: `ROCK`. Please define it in a system config"]
    );

    project.open_file(
        DocumentId::new("file:///p/systems/s.json".to_string(), 1),
        "{\"curiosities\": [{\"id\": \"ROCK\"}]}",
    );
    let emissions = validator.on_change(vec!["file:///p/systems/s.json".to_string()], &mut project);
    let for_log: Vec<&PublishDiagnostics> =
        emissions.iter().filter(|e| e.uri == "file:///p/planets/a.xml").collect();
    assert_eq!(for_log.len(), 1);
    assert!(for_log[0].diagnostics.is_empty());
    assert_eq!(for_log[0].version, Some(0));
    // the ship log was not among the changed files, so it stays in the list
    assert_eq!(
        project.files_with_diagnostics,
        vec![DocumentId::new("file:///p/planets/a.xml".to_string(), 0)]
    );
}

#[test]
fn the_ship_log_validator_is_concerned_by_logs_and_systems() {
    let validator = ShipLogValidator::prepare();
    let project = ship_log_project(CLEAN);
    assert!(validator.should_invalidate(&vec!["file:///p/planets/a.xml".to_string()], &project));
    assert!(validator.should_invalidate(
        &vec!["file:///x".to_string(), "file:///p/systems/s.json".to_string()],
        &project
    ));
    assert!(!validator.should_invalidate(&vec!["file:///p/planets/a.json".to_string()], &project));
    assert!(!validator.should_invalidate(&Vec::new(), &project));
    let paths = FilePathValidator::prepare();
    assert!(paths.should_invalidate(&Vec::new(), &project));
}

#[test]
fn collect_runs_only_the_concerned_validators() {
    let mut validator = MainValidator::new();
    let reference = PathReference {
        config: DocumentId::new("file:///p/planets/a.json".to_string(), 0),
        file_path: "planets/missing.png".to_string(),
        range: JsonRange {
            start: JsonPosition { line: 3, char: 4, idx: 40 },
            end: JsonPosition { line: 3, char: 25, idx: 61 },
        },
        exists: false,
    };
    match &mut validator.validators[1] {
        RegisteredValidator::FilePath(paths) => paths.references.push(reference),
        RegisteredValidator::ShipLog(_) => unreachable!(),
    }
    let project = ship_log_project(DUPLICATES);
    let all = validator.collect(None, &project);
    assert_eq!(all.len(), 3);
    assert_eq!(all[2].1.message, "File path planets/missing.png not found");
    let some = validator.collect(Some(&vec!["file:///p/planets/a.json".to_string()]), &project);
    assert_eq!(some.len(), 1);
    assert_eq!(some[0].1.message, "File path planets/missing.png not found");
}

#[test]
fn missing_file_paths_are_reported() {
    let mut validator = FilePathValidator::prepare();
    let range = JsonRange {
        start: JsonPosition { line: 3, char: 4, idx: 40 },
        end: JsonPosition { line: 3, char: 25, idx: 61 },
    };
    validator.references = vec![
        PathReference {
            config: DocumentId::new("file:///p/planets/a.json".to_string(), 2),
            file_path: "planets/there.png".to_string(),
            range,
            exists: true,
        },
        PathReference {
            config: DocumentId::new("file:///p/planets/a.json".to_string(), 2),
            file_path: "planets/missing.png".to_string(),
            range,
            exists: false,
        },
    ];
    let errors = validator.validate(&Project::new());
    assert_eq!(errors.len(), 1);
    assert_eq!(errors[0].0, DocumentId::new("file:///p/planets/a.json".to_string(), 2));
    assert_eq!(errors[0].1.message, "File path planets/missing.png not found");
    assert_eq!(errors[0].1.range.start, Position { line: 3, character: 4 });
    assert_eq!(errors[0].1.range.end, Position { line: 3, character: 25 });
    assert_eq!(
        errors[0].1.code,
        Some(NumberOrString::String("nh.config.file_path_invalid".to_string()))
    );
    assert_eq!(errors[0].1.severity, Some(DiagnosticSeverity::Error));
}

#[test]
fn schema_paths_are_taken_from_the_schema_text() {
    let mut files = vec!["/already".to_string()];
    let whole = FilePathValidator::prepare_from_schema(
        "{\"type\": \"object\", \"properties\": {\"icon\": {\"type\": \"string\", \"x-file-path\": true}}}",
        &mut files,
    );
    assert!(whole);
    assert_eq!(files, vec!["/already", "/icon"]);
    assert!(FilePathValidator::prepare_from_schema("not json", &mut files));
    assert_eq!(files.len(), 2);
}

#[test]
fn a_schema_without_end_is_cut() {
    let mut files = vec![];
    let whole = FilePathValidator::prepare_from_schema(
        "{\"type\": \"object\", \"properties\": {\"icon\": {\"type\": \"string\", \"x-file-path\": true}, \"again\": {\"$ref\": \"#/definitions/Loop\"}}, \"definitions\": {\"Loop\": {\"type\": \"array\", \"items\": {\"$ref\": \"#/definitions/Loop\"}}}}",
        &mut files,
    );
    assert!(!whole);
    assert_eq!(files, vec!["/icon"]);
}

#[test]
fn the_ship_log_validator_uses_its_baseline() {
    let mut validator = ShipLogValidator::prepare();
    validator.baseline = Baseline {
        entry_ids: vec!["A".to_string()],
        fact_ids: vec![],
        entries: vec![],
    };
    let project = ship_log_project(CLEAN);
    let errors = validator.validate(&project);
    assert_eq!(errors.len(), 1);
    assert_eq!(errors[0].1.message, "Entry ID `A` is taken by the base-game");
}
