use nh_validation::diagnostics::{DiagnosticSeverity, NumberOrString, Position};
use nh_validation::project::{Project, ProjectFile};
use nh_validation::ship_log::baseline::Baseline;
use nh_validation::validation::ErrorSet;
use nh_validation::ship_log::{ShipLogContext, ShipLogFile};

const TEST_SHIP_LOG: &str = r#"<?xml version="1.0" encoding="utf-8"?>
<AstroObjectEntry xmlns:xsi="http://www.w3.org/2001/XMLSchema-instance" xsi:noNamespaceSchemaLocation="https://raw.githubusercontent.com/Outer-Wilds-New-Horizons/new-horizons/main/NewHorizons/Schemas/shiplog_schema.xsd">
    <ID>EXAMPLE_PLANET</ID>
    <Entry>
        <ID>EXAMPLE_ENTRY</ID>
        <Name>Example Planet</Name>
        <Curiosity>EXAMPLE_ENTRY</Curiosity>
        <IsCuriosity/>
        <IgnoreMoreToExplore/>
        <AltPhotoCondition>EXAMPLE_EXPLORE_FACT</AltPhotoCondition>

        <RumorFact>
            <ID>EXAMPLE_RUMOR_FACT</ID>
            <RumorName>Cool Rock</RumorName>
            <Text>Someone told you about a cool rock</Text>
        </RumorFact>

        <ExploreFact>
            <ID>EXAMPLE_EXPLORE_FACT</ID>
            <Text>You found a cool rock</Text>
            <AltText>
                <Text>If the condition is met, this shows instead</Text>
                <Condition>EXAMPLE_EXPLORE_FACT_2</Condition>
            </AltText>
        </ExploreFact>

        <ExploreFact>
            <ID>EXAMPLE_EXPLORE_FACT_2</ID>
            <Text>You looked at the rock more closely</Text>
        </ExploreFact>

        <!-- Entries can hold entries -->
        <Entry>
            <ID>EXAMPLE_CHILD_ENTRY</ID>
            <Name>Example Child</Name>
            <Curiosity>EXAMPLE_ENTRY</Curiosity>

            <RumorFact>
                <ID>EXAMPLE_CHILD_RUMOR_FACT</ID>
                <SourceID>EXAMPLE_ENTRY</SourceID>
                <RumorName>Cool Pebble</RumorName>
                <Text>The rock has a pebble next to it</Text>
            </RumorFact>
        </Entry>
    </Entry>
    <Entry>
        <ID>EXAMPLE_OTHER_ENTRY</ID>
        <Name>Example Other</Name>
        <ExploreFact>
            <ID>EXAMPLE_OTHER_EXPLORE_FACT</ID>
            <Text>Another place</Text>
        </ExploreFact>
    </Entry>
</AstroObjectEntry>
"#;

const DUPLICATE_IDS: &str = r#"<?xml version="1.0" encoding="utf-8"?>
<AstroObjectEntry xmlns:xsi="http://www.w3.org/2001/XMLSchema-instance" xsi:noNamespaceSchemaLocation="https://raw.githubusercontent.com/Outer-Wilds-New-Horizons/new-horizons/main/NewHorizons/Schemas/shiplog_schema.xsd">
    <ID>EXAMPLE_PLANET</ID>
    <Entry>
        <ID>EXAMPLE_ENTRY</ID>
        <Name>Example Planet</Name>
        <Curiosity>EXAMPLE_ENTRY</Curiosity>
        <IsCuriosity/>
        <RumorFact>
            <ID>EXAMPLE_RUMOR_FACT</ID>
            <RumorName>Cool Rock</RumorName>
            <Text>Someone told you about a cool rock</Text>
        </RumorFact>
        <ExploreFact>
            <ID>EXAMPLE_EXPLORE_FACT</ID>
            <Text>You found a cool rock</Text>
        </ExploreFact>
    </Entry>
    <Entry>
        <ID>EXAMPLE_ENTRY</ID>
        <Name>Example Planet Again</Name>
        <RumorFact>
            <ID>EXAMPLE_RUMOR_FACT</ID>
            <RumorName>Cool Rock</RumorName>
            <Text>Someone told you about the rock again</Text>
        </RumorFact>
        <ExploreFact>
            <ID>EXAMPLE_EXPLORE_FACT</ID>
            <Text>You found the rock again</Text>
        </ExploreFact>
    </Entry>
    <Entry>
        <ID>EXAMPLE_OTHER_ENTRY</ID>
        <Name>Example Other</Name>
    </Entry>
</AstroObjectEntry>
"#;

const MISSING_CURIOSITY: &str = r#"<?xml version="1.0" encoding="utf-8"?>
<AstroObjectEntry xmlns:xsi="http://www.w3.org/2001/XMLSchema-instance" xsi:noNamespaceSchemaLocation="https://raw.githubusercontent.com/Outer-Wilds-New-Horizons/new-horizons/main/NewHorizons/Schemas/shiplog_schema.xsd">
    <ID>EXAMPLE_PLANET</ID>
    <Entry>
        <ID>EXAMPLE_ENTRY</ID>
        <Name>Example Planet</Name>
        <Curiosity>COOL_ROCK</Curiosity>
        <ExploreFact>
            <ID>EXAMPLE_EXPLORE_FACT</ID>
            <Text>You found a cool rock</Text>
        </ExploreFact>
    </Entry>
</AstroObjectEntry>
"#;

const MISSING_SOURCE_ID: &str = r#"<?xml version="1.0" encoding="utf-8"?>
<AstroObjectEntry xmlns:xsi="http://www.w3.org/2001/XMLSchema-instance" xsi:noNamespaceSchemaLocation="https://raw.githubusercontent.com/Outer-Wilds-New-Horizons/new-horizons/main/NewHorizons/Schemas/shiplog_schema.xsd">
    <ID>EXAMPLE_PLANET</ID>
    <Entry>
        <ID>EXAMPLE_ENTRY</ID>
        <Name>Example Planet</Name>
        <Curiosity>EXAMPLE_ENTRY</Curiosity>
        <IsCuriosity/>
        <RumorFact>
            <ID>EXAMPLE_RUMOR_FACT</ID>
            <SourceID>GABAGOOL</SourceID>
            <RumorName>Cool Rock</RumorName>
            <Text>Someone told you about a cool rock</Text>
        </RumorFact>
    </Entry>
</AstroObjectEntry>
"#;

fn get_test_file() -> Vec<ProjectFile> {
    let new_file = ProjectFile::new(
        "file://test_system.json".to_string(),
        0,
        "{\"curiosities\":[{\"id\":\"EXAMPLE_ENTRY\"}]}".to_string(),
    );
    vec![new_file]
}

fn get_test_project() -> Project {
    let mut project = Project::new();
    project.system_files = get_test_file();
    project
}

fn get_test_baseline() -> Baseline {
    Baseline {
        entry_ids: vec!["TH_VILLAGE".to_string(), "TH_ZERO_G_CAVE".to_string()],
        fact_ids: vec!["TH_VILLAGE_X1".to_string()],
        entries: vec![],
    }
}

fn count_messages(errors: &ErrorSet, message: &str) -> usize {
    errors.iter().filter(|e| e.1.message == message).count()
}

#[test]
fn test_parse_example() {
    let mut ctx = ShipLogContext::new();

    let test_file = ShipLogFile::new("file://test_file.xml".to_string(), 0);
    let pf = ProjectFile::dummy();
    ctx.parse(&test_file, &pf, ".", TEST_SHIP_LOG).unwrap();

    assert_eq!(ctx.astro_object_ids.len(), 1);
    assert_eq!(ctx.astro_object_ids[0].value, "EXAMPLE_PLANET");
    assert_eq!(
        ctx.astro_object_ids[0].range.start,
        Position {
            line: 2,
            character: 4
        }
    );

    assert_eq!(ctx.entry_ids.len(), 3);
    assert_eq!(ctx.entry_ids[0].value, "EXAMPLE_ENTRY");
    assert_eq!(ctx.entry_ids[1].value, "EXAMPLE_CHILD_ENTRY");
    assert_eq!(
        ctx.entry_ids[1].range.start,
        Position {
            line: 33,
            character: 12
        }
    );
}

#[test]
fn test_validate_duplicates() {
    let mut ctx = ShipLogContext::new();

    let test_file = ShipLogFile::new("file://test_file.xml".to_string(), 0);

    let pf = ProjectFile::dummy();
    ctx.parse(&test_file, &pf, ".", DUPLICATE_IDS).unwrap();

    let errors = ctx.validate(&get_test_project(), &get_test_baseline());

    assert_eq!(errors.len(), 6);
    assert_eq!(
        count_messages(&errors, "Duplicate Entry ID: `EXAMPLE_ENTRY`"),
        2
    );
    assert_eq!(
        count_messages(&errors, "Duplicate Fact ID: `EXAMPLE_EXPLORE_FACT`"),
        2
    );
    assert_eq!(
        count_messages(&errors, "Duplicate Fact ID: `EXAMPLE_RUMOR_FACT`"),
        2
    );
}

#[test]
fn test_validate_missing_curiosity() {
    let mut ctx = ShipLogContext::new();

    let test_file = ShipLogFile::new("file://test_file.xml".to_string(), 0);

    let pf = ProjectFile::dummy();
    ctx.parse(&test_file, &pf, ".", MISSING_CURIOSITY).unwrap();

    let errors = ctx.validate(&get_test_project(), &get_test_baseline());

    assert_eq!(errors.len(), 1);
    assert_eq!(
        errors[0].1.message,
        "Unknown Curiosity: `COOL_ROCK`. Please define it in a system config"
    );
}

#[test]
fn test_validate_missing_source_id() {
    let mut ctx = ShipLogContext::new();

    let test_file = ShipLogFile::new("file://test_file.xml".to_string(), 0);

    let pf = ProjectFile::dummy();
    ctx.parse(&test_file, &pf, ".", MISSING_SOURCE_ID).unwrap();

    let errors = ctx.validate(&get_test_project(), &get_test_baseline());

    assert_eq!(errors.len(), 1);
    assert_eq!(errors[0].1.message, "Unknown Entry: `GABAGOOL`");
}

#[test]
fn duplicate_findings_stand_at_their_own_places() {
    let mut ctx = ShipLogContext::new();
    let test_file = ShipLogFile::new("file://test_file.xml".to_string(), 3);
    ctx.parse(&test_file, &ProjectFile::dummy(), ".", DUPLICATE_IDS).unwrap();

    let mut errors: ErrorSet = vec![];
    ctx.validate_id_set_duplicates(&mut errors, "Entry", &ctx.entry_ids);

    assert_eq!(errors.len(), 2);
    assert_eq!(errors[0].0, test_file);
    assert_eq!(errors[0].1.range, ctx.entry_ids[0].range);
    assert_eq!(errors[1].1.range, ctx.entry_ids[1].range);
    assert_eq!(errors[0].1.range.start, Position { line: 4, character: 8 });
    assert_eq!(errors[0].1.range.end, Position { line: 4, character: 30 });
    assert_eq!(errors[1].1.range.start, Position { line: 19, character: 8 });
    assert_eq!(errors[0].1.severity, Some(DiagnosticSeverity::Error));
    assert_eq!(
        errors[0].1.code,
        Some(NumberOrString::String("nh.shiplog.duplicate_ids".to_string()))
    );
    assert_eq!(errors[0].1.source.as_deref(), Some("New Horizons"));
}

#[test]
fn duplicates_come_by_value() {
    let xml = "<AstroObjectEntry><Entry><ID>B</ID></Entry><Entry><ID>A</ID></Entry>\
<Entry><ID>C</ID></Entry><Entry><ID>B</ID></Entry><Entry><ID>A</ID></Entry>\
<Entry><ID>A</ID></Entry></AstroObjectEntry>";
    let mut ctx = ShipLogContext::new();
    let test_file = ShipLogFile::new("file://test_file.xml".to_string(), 0);
    ctx.parse(&test_file, &ProjectFile::dummy(), ".", xml).unwrap();

    let mut errors: ErrorSet = vec![];
    ctx.validate_id_set_duplicates(&mut errors, "Entry", &ctx.entry_ids);
    let messages: Vec<&str> = errors.iter().map(|e| e.1.message.as_str()).collect();
    assert_eq!(
        messages,
        vec![
            "Duplicate Entry ID: `A`",
            "Duplicate Entry ID: `A`",
            "Duplicate Entry ID: `A`",
            "Duplicate Entry ID: `B`",
            "Duplicate Entry ID: `B`",
        ]
    );
    // among equal values, in the order of the document
    assert!(errors[0].1.range.start.character < errors[1].1.range.start.character);
    assert!(errors[1].1.range.start.character < errors[2].1.range.start.character);
    assert!(errors[3].1.range.start.character < errors[4].1.range.start.character);
}

#[test]
fn reserved_ids_are_flagged_even_when_unique() {
    let xml = "<AstroObjectEntry><ID>P</ID><Entry><ID>TH_VILLAGE</ID>\
<ExploreFact><ID>TH_VILLAGE_X1</ID></ExploreFact></Entry></AstroObjectEntry>";
    let mut ctx = ShipLogContext::new();
    let test_file = ShipLogFile::new("file://test_file.xml".to_string(), 0);
    ctx.parse(&test_file, &ProjectFile::dummy(), ".", xml).unwrap();

    let errors = ctx.validate(&get_test_project(), &get_test_baseline());
    assert_eq!(errors.len(), 2);
    assert_eq!(errors[0].1.message, "Entry ID `TH_VILLAGE` is taken by the base-game");
    assert_eq!(errors[1].1.message, "Fact ID `TH_VILLAGE_X1` is taken by the base-game");
    assert_eq!(
        errors[0].1.code,
        Some(NumberOrString::String("nh.shiplog.vanilla_id".to_string()))
    );
}

#[test]
fn sources_resolve_against_entries_and_base_game() {
    let xml = "<AstroObjectEntry><ID>P</ID><Entry><ID>MINE</ID>\
<RumorFact><ID>F1</ID><SourceID>MINE</SourceID></RumorFact>\
<RumorFact><ID>F2</ID><SourceID>TH_ZERO_G_CAVE</SourceID></RumorFact>\
<RumorFact><ID>F3</ID><SourceID>NOWHERE</SourceID></RumorFact>\
</Entry></AstroObjectEntry>";
    let mut ctx = ShipLogContext::new();
    let test_file = ShipLogFile::new("file://test_file.xml".to_string(), 0);
    ctx.parse(&test_file, &ProjectFile::dummy(), ".", xml).unwrap();
    assert_eq!(ctx.source_id_references.len(), 3);

    let errors = ctx.validate(&get_test_project(), &get_test_baseline());
    assert_eq!(errors.len(), 1);
    assert_eq!(errors[0].1.message, "Unknown Entry: `NOWHERE`");
    assert_eq!(
        errors[0].1.code,
        Some(NumberOrString::String("nh.shiplog.invalid_source_id".to_string()))
    );
}

#[test]
fn declared_and_built_in_curiosities_are_known() {
    let xml = "<AstroObjectEntry><ID>P</ID>\
<Entry><ID>A</ID><Curiosity>SECOND</Curiosity></Entry>\
<Entry><ID>B</ID><Curiosity>QuantumMoon</Curiosity></Entry>\
<Entry><ID>C</ID><Curiosity>second</Curiosity></Entry>\
</AstroObjectEntry>";
    let mut ctx = ShipLogContext::new();
    let test_file = ShipLogFile::new("file://test_file.xml".to_string(), 0);
    ctx.parse(&test_file, &ProjectFile::dummy(), ".", xml).unwrap();

    let mut project = Project::new();
    project.system_files = vec![
        ProjectFile::new("file:///a.json".to_string(), 0, "not json".to_string()),
        ProjectFile::new(
            "file:///b.json".to_string(),
            0,
            "{\"curiosities\":[{\"id\":\"FIRST\"},{\"id\":7},{\"name\":\"x\"},{\"id\":\"SECOND\"}]}"
                .to_string(),
        ),
    ];
    let errors = ctx.validate(&project, &get_test_baseline());
    assert_eq!(errors.len(), 1);
    assert_eq!(
        errors[0].1.message,
        "Unknown Curiosity: `second`. Please define it in a system config"
    );
    assert_eq!(
        errors[0].1.code,
        Some(NumberOrString::String("nh.shiplog.missing_curiosity".to_string()))
    );
}

#[test]
fn validate_twice_gives_the_same_findings() {
    let mut ctx = ShipLogContext::new();
    let test_file = ShipLogFile::new("file://test_file.xml".to_string(), 0);
    ctx.parse(&test_file, &ProjectFile::dummy(), ".", DUPLICATE_IDS).unwrap();
    let project = get_test_project();
    let baseline = get_test_baseline();
    let first = ctx.validate(&project, &baseline);
    let second = ctx.validate(&project, &baseline);
    assert_eq!(first, second);
    assert_eq!(second.len(), 6);
}

#[test]
fn parse_keeps_the_context_on_bad_xml() {
    let mut ctx = ShipLogContext::new();
    let test_file = ShipLogFile::new("file://test_file.xml".to_string(), 0);
    let result = ctx.parse(&test_file, &ProjectFile::dummy(), ".", "<AstroObjectEntry><ID>X</ID>");
    assert!(result.is_err());
    assert!(ctx.astro_object_ids.is_empty());
    assert!(ctx.entry_ids.is_empty());
}

#[test]
fn entries_are_built_with_parents_and_defaults() {
    let mut ctx = ShipLogContext::new();
    let test_file = ShipLogFile::new("file://test_file.xml".to_string(), 0);
    ctx.parse(&test_file, &ProjectFile::dummy(), ".", TEST_SHIP_LOG).unwrap();

    assert_eq!(ctx.entries.keys, vec!["EXAMPLE_CHILD_ENTRY", "EXAMPLE_ENTRY", "EXAMPLE_OTHER_ENTRY"]);
    let child = ctx.entries.get("EXAMPLE_CHILD_ENTRY").unwrap();
    assert_eq!(child.parent.as_deref(), Some("EXAMPLE_ENTRY"));
    assert_eq!(child.astro_object, "EXAMPLE_PLANET");
    assert_eq!(child.name, "Example Child");
    assert_eq!(child.sources, vec!["EXAMPLE_ENTRY"]);
    assert_eq!(child.curiosity.as_deref(), Some("EXAMPLE_ENTRY"));
    assert!(!child.is_curiosity);
    let top = ctx.entries.get("EXAMPLE_ENTRY").unwrap();
    assert_eq!(top.parent, None);
    assert!(top.is_curiosity);
    assert_eq!(top.position, None);

    assert_eq!(ctx.fact_ids.len(), 5);
    assert_eq!(ctx.fact_ids[0].value, "EXAMPLE_RUMOR_FACT");
    assert_eq!(ctx.fact_ids[3].value, "EXAMPLE_CHILD_RUMOR_FACT");
    assert_eq!(ctx.curiosity_references.len(), 2);
    assert_eq!(ctx.source_id_references.len(), 1);
}

#[test]
fn an_entry_without_name_is_unnamed_and_one_without_id_is_dropped() {
    let xml = "<AstroObjectEntry><ID>P</ID><Entry><ID>A</ID></Entry>\
<Entry><Name>No id</Name><Entry><ID>INNER</ID></Entry></Entry></AstroObjectEntry>";
    let mut ctx = ShipLogContext::new();
    let test_file = ShipLogFile::new("file://test_file.xml".to_string(), 0);
    ctx.parse(&test_file, &ProjectFile::dummy(), ".", xml).unwrap();
    assert_eq!(ctx.entries.keys, vec!["A", "INNER"]);
    assert_eq!(ctx.entries.get("A").unwrap().name, "UNNAMED");
    assert_eq!(ctx.entries.get("INNER").unwrap().parent.as_deref(), Some(""));
}

#[test]
fn a_nested_entry_has_the_id_of_the_entry_that_holds_it() {
    // the nested entry stands before the id of the entry that holds it
    let xml = "<AstroObjectEntry><ID>PLANET</ID>\
<Entry><Entry><ID>C</ID><Entry><ID>D</ID></Entry></Entry><ID>P</ID></Entry>\
<Entry><ID>Q</ID><Entry><ID>R</ID></Entry></Entry></AstroObjectEntry>";
    let mut ctx = ShipLogContext::new();
    let test_file = ShipLogFile::new("file://test_file.xml".to_string(), 0);
    ctx.parse(&test_file, &ProjectFile::dummy(), ".", xml).unwrap();
    assert_eq!(ctx.entries.get("C").unwrap().parent.as_deref(), Some("P"));
    assert_eq!(ctx.entries.get("D").unwrap().parent.as_deref(), Some("C"));
    assert_eq!(ctx.entries.get("P").unwrap().parent, None);
    assert_eq!(ctx.entries.get("R").unwrap().parent.as_deref(), Some("Q"));
    assert_eq!(ctx.entries.get("Q").unwrap().parent, None);
    for id in ["C", "D", "P", "Q", "R"] {
        assert_eq!(ctx.entries.get(id).unwrap().astro_object, "PLANET");
    }
    // the entries that an entry holds are kept before it
    assert_eq!(ctx.entries.keys, vec!["D", "C", "P", "R", "Q"]);
    let declared: Vec<&str> = ctx.entry_ids.iter().map(|i| i.value.as_str()).collect();
    assert_eq!(declared, vec!["C", "D", "P", "Q", "R"]);
}

#[test]
fn entries_belong_to_the_astro_object_wherever_its_id_stands() {
    let xml = "<AstroObjectEntry><Entry><ID>BEFORE</ID></Entry><ID>PLANET</ID>\
<Entry><ID>BEHIND</ID></Entry></AstroObjectEntry>";
    let mut ctx = ShipLogContext::new();
    let test_file = ShipLogFile::new("file://test_file.xml".to_string(), 0);
    ctx.parse(&test_file, &ProjectFile::dummy(), ".", xml).unwrap();
    assert_eq!(ctx.entries.get("BEFORE").unwrap().astro_object, "PLANET");
    assert_eq!(ctx.entries.get("BEHIND").unwrap().astro_object, "PLANET");
    assert_eq!(ctx.astro_object_ids.len(), 1);
}

#[test]
fn an_entry_is_kept_under_the_id_that_it_declares_last() {
    let xml = "<AstroObjectEntry><ID>FIRST</ID><ID>LAST</ID>\
<Entry><ID>E1</ID><Entry><ID>IN</ID></Entry><ID>E2</ID></Entry></AstroObjectEntry>";
    let mut ctx = ShipLogContext::new();
    let test_file = ShipLogFile::new("file://test_file.xml".to_string(), 0);
    ctx.parse_document(
        &test_file,
        Some("planets/log.xml"),
        &nh_validation::xml::XmlDocument::parse(xml).unwrap(),
    );
    assert_eq!(ctx.entries.keys, vec!["IN", "E2"]);
    assert_eq!(ctx.entries.get("IN").unwrap().parent.as_deref(), Some("E2"));
    assert_eq!(ctx.entries.get("E2").unwrap().astro_object, "LAST");
    assert_eq!(ctx.relative_to_astro_object.get("planets/log.xml").unwrap(), "LAST");
    assert_eq!(ctx.astro_object_ids.len(), 2);
    assert_eq!(ctx.entry_ids.len(), 3);
}

#[test]
fn an_entry_id_that_the_base_game_has_too() {
    let xml = "<AstroObjectEntry><ID>PLANET</ID>\
<Entry><ID>TH_VILLAGE</ID><Name>Mine</Name></Entry><Entry><ID>OWN</ID></Entry></AstroObjectEntry>";
    let mut project = Project::new();
    project.track(
        nh_validation::project::FileCategory::ShipLog,
        "file:///p/planets/a.xml".to_string(),
        xml.to_string(),
    );
    let baseline = Baseline {
        entry_ids: vec!["TH_VILLAGE".to_string()],
        fact_ids: vec![],
        entries: vec![nh_validation::ship_log::ShipLogEntry {
            id: "TH_VILLAGE".to_string(),
            astro_object: "TIMBER_HEARTH".to_string(),
            position: None,
            name: "Village".to_string(),
            parent: None,
            is_curiosity: false,
            sources: vec![],
            curiosity: None,
        }],
    };
    let ctx = ShipLogContext::from_parts(&project, &vec![None], &vec![], &vec![], &baseline);
    // the id is flagged, once, at the place of the project's entry
    let errors = ctx.validate(&project, &baseline);
    assert_eq!(errors.len(), 1);
    assert_eq!(errors[0].1.message, "Entry ID `TH_VILLAGE` is taken by the base-game");
    assert_eq!(errors[0].0.uri, "file:///p/planets/a.xml");
    assert_eq!(errors[0].1.range, ctx.entry_ids[0].range);
    // under the id stays the entry of the project
    assert_eq!(ctx.entries.keys, vec!["TH_VILLAGE", "OWN"]);
    assert_eq!(ctx.entries.get("TH_VILLAGE").unwrap().name, "Mine");
    assert_eq!(ctx.entries.get("TH_VILLAGE").unwrap().astro_object, "PLANET");
    assert_eq!(ctx.entries.get("OWN").unwrap().astro_object, "PLANET");
}

#[test]
fn the_base_game_adds_the_entries_that_the_project_lacks() {
    let xml = "<AstroObjectEntry><ID>PLANET</ID><Entry><ID>OWN</ID></Entry></AstroObjectEntry>";
    let mut project = Project::new();
    project.track(
        nh_validation::project::FileCategory::ShipLog,
        "file:///p/planets/a.xml".to_string(),
        xml.to_string(),
    );
    let base = |id: &str, name: &str| nh_validation::ship_log::ShipLogEntry {
        id: id.to_string(),
        astro_object: "TIMBER_HEARTH".to_string(),
        position: None,
        name: name.to_string(),
        parent: None,
        is_curiosity: false,
        sources: vec![],
        curiosity: None,
    };
    let baseline = Baseline {
        entry_ids: vec![],
        fact_ids: vec![],
        entries: vec![base("TH_VILLAGE", "Village"), base("OWN", "Theirs"), base("TH_VILLAGE", "Again")],
    };
    let ctx = ShipLogContext::from_parts(&project, &vec![None], &vec![], &vec![], &baseline);
    assert_eq!(ctx.entries.keys, vec!["OWN", "TH_VILLAGE"]);
    assert_eq!(ctx.entries.get("OWN").unwrap().astro_object, "PLANET");
    assert_eq!(ctx.entries.get("OWN").unwrap().name, "UNNAMED");
    assert_eq!(ctx.entries.get("TH_VILLAGE").unwrap().name, "Village");
}

#[test]
fn the_order_of_declaration_does_not_change_the_findings() {
    let xml = "<AstroObjectEntry><ID>P</ID>\
<Entry><ID>A</ID><Curiosity>ONE</Curiosity></Entry>\
<Entry><ID>B</ID><Curiosity>MISSING</Curiosity></Entry>\
<Entry><ID>C</ID><Curiosity>THREE</Curiosity></Entry>\
</AstroObjectEntry>";
    let mut ctx = ShipLogContext::new();
    let test_file = ShipLogFile::new("file://test_file.xml".to_string(), 0);
    ctx.parse(&test_file, &ProjectFile::dummy(), ".", xml).unwrap();

    let system = |uri: &str, ids: &[&str]| {
        let items: Vec<String> = ids.iter().map(|id| format!("{{\"id\":\"{}\"}}", id)).collect();
        ProjectFile::new(uri.to_string(), 0, format!("{{\"curiosities\":[{}]}}", items.join(",")))
    };
    let mut first = Project::new();
    first.system_files =
        vec![system("file:///a.json", &["ONE", "TWO"]), system("file:///b.json", &["THREE"])];
    let mut second = Project::new();
    second.system_files =
        vec![system("file:///b.json", &["THREE"]), system("file:///a.json", &["TWO", "ONE"])];

    let baseline = get_test_baseline();
    let one = ctx.validate(&first, &baseline);
    let two = ctx.validate(&second, &baseline);
    assert_eq!(one, two);
    assert_eq!(one.len(), 1);
    assert_eq!(
        one[0].1.message,
        "Unknown Curiosity: `MISSING`. Please define it in a system config"
    );
}
