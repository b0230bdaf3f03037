use architectury_versions::architectury::{
    convert_get, map_from_json, ArchitecturyJson, DecodeError, FromJson, GameVersionData,
    LookupError, VersionDefinition, VersionReference,
};
use architectury_versions::json::Json;

fn text(value: &str) -> Json {
    Json::Text(String::from(value))
}

fn object(members: Vec<(&str, Json)>) -> Json {
    Json::Object(members.into_iter().map(|(name, value)| (String::from(name), value)).collect())
}

fn definition(filter: &str, pom: &str) -> Json {
    object(vec![("filter", text(filter)), ("pom", text(pom))])
}

fn game_version(stable: Option<Json>, api: Json) -> Json {
    let mut members = vec![
        ("api", api),
        ("plugin", text("@plugin")),
        ("loom", text("@loom")),
        ("injectables", definition("^1\\.", "https://example.org/injectables.xml")),
    ];
    if let Some(stable) = stable {
        members.push(("stable", stable));
    }
    object(members)
}

fn catalog_document() -> Json {
    object(vec![
        (
            "definitions",
            object(vec![
                ("plugin", definition("^3\\.", "https://example.org/plugin.xml")),
                ("loom", definition(".*", "https://example.org/loom.xml")),
            ]),
        ),
        (
            "versions",
            object(vec![
                ("1.16.5", game_version(None, text("@api-1"))),
                ("1.18.2", game_version(Some(Json::Bool(true)), text("@loom"))),
                ("1.19", game_version(Some(Json::Bool(true)), text("@plugin"))),
            ]),
        ),
    ])
}

fn catalog() -> ArchitecturyJson {
    ArchitecturyJson::from_json(&catalog_document()).unwrap()
}

fn name_of(reference: &VersionReference) -> &str {
    match reference {
        VersionReference::Reference(name) => name,
        VersionReference::Definition(_) => panic!("a definition where a name was written"),
    }
}

#[test]
fn decodes_a_definition() {
    let decoded = VersionDefinition::from_json(&definition("^1\\.", "https://example.org/a.xml")).unwrap();
    assert_eq!(decoded.filter.as_str(), "^1\\.");
    assert_eq!(decoded.pom, "https://example.org/a.xml");
    assert!(decoded.filter.is_match("1.2"));
    assert!(!decoded.filter.is_match("2.1"));
}

#[test]
fn definition_needs_both_strings() {
    assert!(VersionDefinition::from_json(&object(vec![("filter", text(".*"))])).is_err());
    assert!(VersionDefinition::from_json(&object(vec![("pom", text("x"))])).is_err());
    assert!(VersionDefinition::from_json(&object(vec![("filter", Json::Bool(true)), ("pom", text("x"))])).is_err());
    assert!(VersionDefinition::from_json(&object(vec![("filter", text(".*")), ("pom", Json::Number)])).is_err());
    assert!(VersionDefinition::from_json(&text(".*")).is_err());
    assert!(VersionDefinition::from_json(&Json::Null).is_err());
}

#[test]
fn definition_with_a_malformed_filter_is_refused() {
    let refused = VersionDefinition::from_json(&definition("(", "https://example.org/a.xml"));
    assert_eq!(refused.err(), Some(DecodeError));
}

#[test]
fn decodes_a_reference_by_name() {
    let decoded = VersionReference::from_json(&text("@shared")).unwrap();
    assert_eq!(name_of(&decoded), "shared");
    let empty = VersionReference::from_json(&text("@")).unwrap();
    assert_eq!(name_of(&empty), "");
    let twice = VersionReference::from_json(&text("@@x")).unwrap();
    assert_eq!(name_of(&twice), "@x");
}

#[test]
fn decodes_an_inline_definition() {
    let decoded = VersionReference::from_json(&definition("^2", "https://example.org/b.xml")).unwrap();
    match decoded {
        VersionReference::Definition(inline) => {
            assert_eq!(inline.filter.as_str(), "^2");
            assert_eq!(inline.pom, "https://example.org/b.xml");
        }
        VersionReference::Reference(_) => panic!("a name where a definition was written"),
    }
}

#[test]
fn plain_string_is_no_reference() {
    assert_eq!(VersionReference::from_json(&text("shared")).err(), Some(DecodeError));
    assert_eq!(VersionReference::from_json(&text("")).err(), Some(DecodeError));
    assert_eq!(VersionReference::from_json(&text("x@y")).err(), Some(DecodeError));
}

#[test]
fn other_shapes_are_no_reference() {
    assert!(VersionReference::from_json(&Json::Null).is_err());
    assert!(VersionReference::from_json(&Json::Bool(true)).is_err());
    assert!(VersionReference::from_json(&Json::Number).is_err());
    assert!(VersionReference::from_json(&Json::Array(vec![text("@x")])).is_err());
    assert!(VersionReference::from_json(&object(vec![])).is_err());
}

#[test]
fn decodes_a_game_version() {
    let decoded = GameVersionData::from_json(&game_version(Some(Json::Bool(true)), text("@api"))).unwrap();
    assert!(decoded.stable);
    assert_eq!(name_of(&decoded.api), "api");
    assert_eq!(name_of(&decoded.plugin), "plugin");
    assert_eq!(name_of(&decoded.loom), "loom");
    assert!(matches!(decoded.injectables, VersionReference::Definition(_)));
}

#[test]
fn stable_defaults_to_false() {
    assert!(!GameVersionData::from_json(&game_version(None, text("@api"))).unwrap().stable);
    assert!(!GameVersionData::from_json(&game_version(Some(Json::Bool(false)), text("@api"))).unwrap().stable);
}

#[test]
fn stable_of_another_shape_is_refused() {
    for mark in [text("yes"), text("true"), Json::Null, Json::Number, Json::Array(vec![]), object(vec![])] {
        let refused = GameVersionData::from_json(&game_version(Some(mark), text("@api")));
        assert_eq!(refused.err(), Some(DecodeError));
    }
    let document = object(vec![
        ("definitions", object(vec![])),
        ("versions", object(vec![("1.19", game_version(Some(text("yes")), text("@api")))])),
    ]);
    assert_eq!(ArchitecturyJson::from_json(&document).err(), Some(DecodeError));
}

#[test]
fn game_version_needs_every_slot() {
    for missing in ["api", "plugin", "loom", "injectables"] {
        let members: Vec<(&str, Json)> = ["api", "plugin", "loom", "injectables"]
            .into_iter()
            .filter(|slot| *slot != missing)
            .map(|slot| (slot, text("@shared")))
            .collect();
        assert_eq!(GameVersionData::from_json(&object(members)).err(), Some(DecodeError));
    }
    assert!(GameVersionData::from_json(&game_version(None, text("api"))).is_err());
    assert!(GameVersionData::from_json(&text("@x")).is_err());
}

#[test]
fn decodes_a_catalog_in_document_order() {
    let decoded = catalog();
    let definitions: Vec<&str> = decoded.definitions.iter().map(|(name, _)| name.as_str()).collect();
    assert_eq!(definitions, vec!["plugin", "loom"]);
    let versions: Vec<&str> = decoded.versions.iter().map(|(key, _)| key.as_str()).collect();
    assert_eq!(versions, vec!["1.16.5", "1.18.2", "1.19"]);
    assert_eq!(decoded.definitions[0].1.pom, "https://example.org/plugin.xml");
    assert_eq!(name_of(&decoded.versions[0].1.api), "api-1");
}

#[test]
fn catalog_needs_definitions() {
    let document = object(vec![("versions", object(vec![]))]);
    assert_eq!(ArchitecturyJson::from_json(&document).err(), Some(DecodeError));
}

#[test]
fn catalog_needs_versions() {
    let document = object(vec![("definitions", object(vec![]))]);
    assert_eq!(ArchitecturyJson::from_json(&document).err(), Some(DecodeError));
}

#[test]
fn catalog_parts_must_be_objects() {
    let document = object(vec![("definitions", Json::Array(vec![])), ("versions", object(vec![]))]);
    assert!(ArchitecturyJson::from_json(&document).is_err());
    let document = object(vec![("definitions", object(vec![])), ("versions", text("none"))]);
    assert!(ArchitecturyJson::from_json(&document).is_err());
    assert!(ArchitecturyJson::from_json(&Json::Array(vec![])).is_err());
}

#[test]
fn one_bad_member_fails_the_catalog() {
    let document = object(vec![
        ("definitions", object(vec![("good", definition(".*", "a")), ("bad", definition("[", "b"))])),
        ("versions", object(vec![])),
    ]);
    assert!(ArchitecturyJson::from_json(&document).is_err());
    let document = object(vec![
        ("definitions", object(vec![])),
        ("versions", object(vec![("1.19", game_version(None, text("plain")))])),
    ]);
    assert!(ArchitecturyJson::from_json(&document).is_err());
}

#[test]
fn empty_catalog_decodes() {
    let document = object(vec![("definitions", object(vec![])), ("versions", object(vec![]))]);
    let decoded = ArchitecturyJson::from_json(&document).unwrap();
    assert!(decoded.definitions.is_empty());
    assert!(decoded.versions.is_empty());
    assert_eq!(decoded.stable().err(), Some(LookupError::NoStableVersion));
}

#[test]
fn map_from_json_decodes_all_or_none() {
    let members = vec![(String::from("a"), text("@x")), (String::from("b"), text("@y"))];
    let decoded = map_from_json::<VersionReference>(&members).unwrap();
    assert_eq!(decoded.len(), 2);
    assert_eq!(decoded[0].0, "a");
    assert_eq!(name_of(&decoded[0].1), "x");
    assert_eq!(decoded[1].0, "b");
    assert_eq!(name_of(&decoded[1].1), "y");
    let members = vec![(String::from("a"), text("@x")), (String::from("b"), text("y"))];
    assert!(map_from_json::<VersionReference>(&members).is_err());
}

#[test]
fn convert_get_decodes_a_member() {
    let document = object(vec![("slot", text("@x"))]);
    assert_eq!(name_of(&convert_get::<VersionReference>(&document, "slot").unwrap()), "x");
    assert!(convert_get::<VersionReference>(&document, "other").is_err());
    assert!(convert_get::<VersionReference>(&text("@x"), "slot").is_err());
}

#[test]
fn stable_is_the_first_marked_version() {
    let decoded = catalog();
    let stable = decoded.stable().unwrap();
    assert!(std::ptr::eq(stable, &decoded.versions[1].1));
    assert_eq!(name_of(&stable.api), "loom");
}

#[test]
fn no_stable_version_is_an_error() {
    let document = object(vec![
        ("definitions", object(vec![])),
        ("versions", object(vec![("1.16.5", game_version(None, text("@a")))])),
    ]);
    let decoded = ArchitecturyJson::from_json(&document).unwrap();
    assert_eq!(decoded.stable().err(), Some(LookupError::NoStableVersion));
    assert_eq!(decoded.version_or_stable(None).err(), Some(LookupError::NoStableVersion));
    assert_eq!(decoded.version_or_stable(Some("1.17")).err(), Some(LookupError::NoStableVersion));
    assert!(decoded.version_or_stable(Some("1.16.5")).is_ok());
}

#[test]
fn version_is_found_by_its_key() {
    let decoded = catalog();
    assert!(std::ptr::eq(decoded.version("1.19").unwrap(), &decoded.versions[2].1));
    assert!(decoded.version("1.20").is_none());
    assert!(decoded.version("").is_none());
}

#[test]
fn version_or_stable_falls_back_to_stable() {
    let decoded = catalog();
    assert!(std::ptr::eq(decoded.version_or_stable(Some("1.16.5")).unwrap(), &decoded.versions[0].1));
    assert!(std::ptr::eq(decoded.version_or_stable(Some("1.20")).unwrap(), &decoded.versions[1].1));
    assert!(std::ptr::eq(decoded.version_or_stable(None).unwrap(), &decoded.versions[1].1));
}

#[test]
fn resolves_a_name_to_the_shared_definition() {
    let decoded = catalog();
    let reference = VersionReference::Reference(String::from("loom"));
    let resolved = decoded.resolve(&reference).unwrap();
    assert!(std::ptr::eq(resolved, &decoded.definitions[1].1));
    assert_eq!(resolved.pom, "https://example.org/loom.xml");
    assert!(std::ptr::eq(decoded.definition(&reference).unwrap(), &decoded.definitions[1].1));
}

#[test]
fn unknown_name_resolves_to_nothing() {
    let decoded = catalog();
    let reference = VersionReference::Reference(String::from("api-1"));
    assert!(decoded.resolve(&reference).is_none());
    assert_eq!(decoded.definition(&reference).err(), Some(LookupError::UnknownReference));
    assert!(decoded.resolve(&VersionReference::Reference(String::new())).is_none());
}

#[test]
fn inline_definition_resolves_to_itself() {
    let inline = VersionReference::from_json(&definition("^2", "https://example.org/b.xml")).unwrap();
    let own = match &inline {
        VersionReference::Definition(own) => own,
        VersionReference::Reference(_) => panic!("a name where a definition was written"),
    };
    let full = catalog();
    assert!(std::ptr::eq(full.resolve(&inline).unwrap(), own));
    assert!(std::ptr::eq(full.definition(&inline).unwrap(), own));
    let empty = ArchitecturyJson { definitions: Vec::new(), versions: Vec::new() };
    assert!(std::ptr::eq(empty.resolve(&inline).unwrap(), own));
}

#[test]
fn later_member_takes_the_place_of_an_earlier_one() {
    let document = object(vec![
        (
            "definitions",
            object(vec![
                ("twice", definition("^1", "first")),
                ("once", definition("^3", "other")),
                ("twice", definition("^2", "second")),
            ]),
        ),
        ("versions", object(vec![])),
    ]);
    let decoded = ArchitecturyJson::from_json(&document).unwrap();
    let names: Vec<&str> = decoded.definitions.iter().map(|(name, _)| name.as_str()).collect();
    assert_eq!(names, vec!["twice", "once"]);
    let reference = VersionReference::Reference(String::from("twice"));
    assert_eq!(decoded.resolve(&reference).unwrap().pom, "second");
    assert_eq!(decoded.resolve(&reference).unwrap().filter.as_str(), "^2");
}

#[test]
fn member_that_is_replaced_must_decode_too() {
    let members = vec![(String::from("a"), text("x")), (String::from("a"), text("@y"))];
    assert!(map_from_json::<VersionReference>(&members).is_err());
}

#[test]
fn lookup_takes_the_first_entry_of_a_name() {
    let first = VersionDefinition::from_json(&definition("^1", "first")).unwrap();
    let second = VersionDefinition::from_json(&definition("^2", "second")).unwrap();
    let built = ArchitecturyJson {
        definitions: vec![(String::from("twice"), first), (String::from("twice"), second)],
        versions: Vec::new(),
    };
    let reference = VersionReference::Reference(String::from("twice"));
    assert_eq!(built.resolve(&reference).unwrap().pom, "first");
}
