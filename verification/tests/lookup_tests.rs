use nh_validation::planets::{Planet, ShipLogModule};
use nh_validation::project::{FileCategory, Project};
use nh_validation::ship_log::baseline::{is_known_curiosity, is_vanilla_astro_object, Baseline};
use nh_validation::ship_log::{ShipLogContext, ShipLogEntry, ShipLogFile};
use nh_validation::systems::{EntryPos, MVector2, StarSystem};
use nh_validation::xml::{TextPos, XmlDocument, XmlNode};

fn planet(name: &str, system: &str, xml_file: Option<&str>) -> Planet {
    Planet {
        name: name.to_string(),
        starSystem: system.to_string(),
        ShipLog: Some(ShipLogModule { xml_file: xml_file.map(|s| s.to_string()) }),
    }
}

fn entry(id: &str, astro_object: &str) -> ShipLogEntry {
    ShipLogEntry {
        id: id.to_string(),
        astro_object: astro_object.to_string(),
        position: None,
        name: id.to_string(),
        parent: None,
        is_curiosity: false,
        sources: vec![],
        curiosity: None,
    }
}

fn log(astro_object: &str, entries: &[&str]) -> String {
    let mut text = format!("<AstroObjectEntry><ID>{}</ID>", astro_object);
    for id in entries {
        text.push_str(&format!("<Entry><ID>{}</ID></Entry>", id));
    }
    text.push_str("</AstroObjectEntry>");
    text
}

fn sample_project() -> Project {
    let mut project = Project::new();
    project.root_path = "/p".to_string();
    project.track(FileCategory::ShipLog, "file:///p/planets/a.xml".to_string(), log("PLANET_A", &["A1", "A2"]));
    project.track(FileCategory::ShipLog, "file:///p/planets/broken.xml".to_string(), "<oops".to_string());
    project.track(FileCategory::ShipLog, "file:///p/planets/b.xml".to_string(), log("PLANET_B", &["B1"]));
    project
}

fn sample_baseline() -> Baseline {
    Baseline {
        entry_ids: vec!["TH_VILLAGE".to_string()],
        fact_ids: vec![],
        entries: vec![entry("TH_VILLAGE", "TIMBER_HEARTH"), entry("A2", "TIMBER_MOON")],
    }
}

#[test]
fn parse_planet_lists_ship_logs_by_system() {
    let mut ctx = ShipLogContext::new();
    ctx.parse_planet(&planet("A", "Sys", Some("planets/a.xml")));
    ctx.parse_planet(&planet("B", "Other", Some("planets/b.xml")));
    ctx.parse_planet(&planet("C", "Sys", Some("planets/c.xml")));
    ctx.parse_planet(&planet("D", "Sys", None));
    ctx.parse_planet(&Planet { name: "E".to_string(), starSystem: "Empty".to_string(), ShipLog: None });
    assert_eq!(ctx.system_to_relative_path.keys, vec!["Sys", "Other"]);
    assert_eq!(
        ctx.system_to_relative_path.get("Sys").unwrap(),
        &vec!["planets/a.xml".to_string(), "planets/c.xml".to_string()]
    );
    assert_eq!(ctx.system_to_relative_path.get("Other").unwrap(), &vec!["planets/b.xml".to_string()]);
    assert!(ctx.system_to_relative_path.get("Empty").is_none());
}

#[test]
fn parse_system_positions_keeps_the_last_position() {
    let mut ctx = ShipLogContext::new();
    let system = StarSystem {
        entry_positions: Some(vec![
            EntryPos { id: "A".to_string(), position: MVector2 { x: 1, y: 2 } },
            EntryPos { id: "B".to_string(), position: MVector2 { x: 3, y: 4 } },
            EntryPos { id: "A".to_string(), position: MVector2 { x: 5, y: 6 } },
        ]),
    };
    ctx.parse_system_positions(&system);
    ctx.parse_system_positions(&StarSystem { entry_positions: None });
    assert_eq!(ctx.position_map.get("A"), Some(&MVector2 { x: 5, y: 6 }));
    assert_eq!(ctx.position_map.get("B"), Some(&MVector2 { x: 3, y: 4 }));
    assert_eq!(ctx.position_map.len(), 2);
}

#[test]
fn entries_take_their_position_from_the_systems() {
    // 1.5 and -2.0 as the bits of 32-bit floats
    let position = MVector2 { x: 1.5f32.to_bits(), y: (-2.0f32).to_bits() };
    let systems = vec![StarSystem {
        entry_positions: Some(vec![EntryPos { id: "A1".to_string(), position }]),
    }];
    let project = sample_project();
    let paths = vec![None, None, None];
    let ctx = ShipLogContext::from_parts(&project, &paths, &systems, &vec![], &sample_baseline());
    assert_eq!(ctx.entries.get("A1").unwrap().position, Some(position));
    assert_eq!(f32::from_bits(ctx.entries.get("A1").unwrap().position.unwrap().x), 1.5);
    assert_eq!(ctx.entries.get("B1").unwrap().position, None);
}

#[test]
fn from_parts_merges_files_and_base_game() {
    let project = sample_project();
    let paths = vec![Some("planets/a.xml".to_string()), None, Some("planets/b.xml".to_string())];
    let planets = vec![planet("A", "Sys", Some("planets/a.xml"))];
    let ctx = ShipLogContext::from_parts(&project, &paths, &vec![], &planets, &sample_baseline());
    assert_eq!(ctx.astro_object_ids.len(), 2);
    assert_eq!(ctx.entry_ids.len(), 3);
    assert_eq!(ctx.entries.keys, vec!["A1", "A2", "B1", "TH_VILLAGE"]);
    // the entry of the project stays where the base game has one of its id
    assert_eq!(ctx.entries.get("A2").unwrap().astro_object, "PLANET_A");
    assert_eq!(ctx.relative_to_astro_object.get("planets/a.xml").unwrap(), "PLANET_A");
    assert_eq!(ctx.relative_to_astro_object.get("planets/b.xml").unwrap(), "PLANET_B");
    assert_eq!(ctx.astro_object_ids[1].source_file, ShipLogFile::new("file:///p/planets/b.xml".to_string(), 0));
}

#[test]
fn from_project_finds_the_paths_itself() {
    let project = sample_project();
    let ctx = ShipLogContext::from_project(&project, &vec![], &vec![], &sample_baseline());
    assert_eq!(ctx.entry_ids.len(), 3);
    assert_eq!(ctx.relative_to_astro_object.get("planets/a.xml").unwrap(), "PLANET_A");
}

#[test]
fn entries_for_an_unknown_system_are_absent() {
    let project = sample_project();
    let ctx = ShipLogContext::from_project(&project, &vec![], &vec![], &sample_baseline());
    assert!(ctx.get_entries_for_system("UnknownSystem").is_none());
    assert!(ShipLogContext::new().get_entries_for_system("UnknownSystem").is_none());
}

#[test]
fn entries_for_a_system_are_those_of_its_astro_objects() {
    let project = sample_project();
    let paths = vec![Some("planets/a.xml".to_string()), None, Some("planets/b.xml".to_string())];
    let planets = vec![
        planet("A", "Sys", Some("planets/a.xml")),
        planet("Lost", "Sys", Some("planets/nowhere.xml")),
        planet("B", "Other", Some("planets/b.xml")),
    ];
    let ctx = ShipLogContext::from_parts(&project, &paths, &vec![], &planets, &sample_baseline());
    let ids = |system: &str| -> Vec<String> {
        ctx.get_entries_for_system(system).unwrap().iter().map(|e| e.id.clone()).collect()
    };
    assert_eq!(ids("Sys"), vec!["A1", "A2", "TH_VILLAGE"]);
    assert_eq!(ids("Other"), vec!["B1", "TH_VILLAGE"]);
}

#[test]
fn base_game_names_are_known() {
    assert!(is_vanilla_astro_object("SUN_STATION"));
    assert!(is_vanilla_astro_object("INVISIBLE_PLANET"));
    assert!(is_vanilla_astro_object("COMET"));
    assert!(!is_vanilla_astro_object("comet"));
    assert!(!is_vanilla_astro_object(""));
    assert!(is_known_curiosity("None"));
    assert!(is_known_curiosity("InvisiblePlanet"));
    assert!(is_known_curiosity("TimeLoop"));
    assert!(!is_known_curiosity("TIME_LOOP"));
}

#[test]
fn a_document_written_by_hand_is_walked_like_a_parsed_one() {
    let node = |parent: Option<usize>, name: &str, text: Option<&str>, col: u32| XmlNode {
        parent,
        element: !name.is_empty(),
        name: name.to_string(),
        text: text.map(|t| t.to_string()),
        start: TextPos { row: 1, col },
        end: TextPos { row: 1, col: col + 1 },
    };
    let doc = XmlDocument {
        nodes: vec![
            node(None, "", None, 1),
            node(Some(0), "AstroObjectEntry", None, 1),
            node(Some(1), "ID", Some("HAND"), 3),
            node(Some(2), "", Some("HAND"), 4),
            node(Some(1), "Entry", None, 5),
            node(Some(4), "ID", Some("E"), 6),
            node(Some(4), "ExploreFact", None, 7),
            node(Some(6), "ID", Some("F"), 8),
            node(Some(4), "ID", Some("E2"), 9),
        ],
    };
    let mut ctx = ShipLogContext::new();
    let file = ShipLogFile::new("file:///hand.xml".to_string(), 0);
    ctx.parse_document(&file, Some("hand.xml"), &doc);
    assert_eq!(ctx.astro_object_ids.len(), 1);
    assert_eq!(ctx.astro_object_ids[0].value, "HAND");
    assert_eq!(ctx.astro_object_ids[0].range.start.character, 2);
    let entry_ids: Vec<&str> = ctx.entry_ids.iter().map(|i| i.value.as_str()).collect();
    assert_eq!(entry_ids, vec!["E", "E2"]);
    assert_eq!(ctx.fact_ids[0].value, "F");
    // the identifier declared last names the entry
    assert_eq!(ctx.entries.keys, vec!["E2"]);
    assert_eq!(ctx.entries.get("E2").unwrap().astro_object, "HAND");
    assert_eq!(ctx.relative_to_astro_object.get("hand.xml").unwrap(), "HAND");
}

#[test]
fn defaults_hold_nothing() {
    let ctx = ShipLogContext::default();
    assert!(ctx.entry_ids.is_empty());
    assert_eq!(ctx.entries.len(), 0);
    let empty = ShipLogEntry::default();
    assert_eq!(empty.id, "");
    assert_eq!(empty.parent, None);
    assert!(empty.sources.is_empty());
    let copy = entry("A", "B").duplicate();
    assert_eq!(copy.id, "A");
    assert_eq!(copy.astro_object, "B");
}
