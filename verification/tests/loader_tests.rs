use aethellib::loader::error::LoaderErrorKind;
use aethellib::loader::loader_person::PersonLoader;
use aethellib::loader::loader_weapon::WeaponLoader;
use aethellib::loader::{load_str, parse_aethel_doc, parse_target, Target};

const PERSON_TEST_DATA: &str = r#"
[header]
name = "person test set"
target = "person"
desc = "minimal person name primitives"
author = "aethellib"
version = "0.1"

[name]
first = ["al", "ra", "jo", "el"]
middle = ["an", "is", "or"]
last = ["ton", "ric", "den", "vale"]
"#;

const WEAPON_TEST_DATA: &str = r#"
[header]
name = "weapon test set"
target = "weapon"
version = "0.1"

[name]
prefix = ["Iron", "Storm", "Ash"]
suffix = ["of Dawn", "of the Vale"]
primitives = ["ka", "lor", "vin", "esh"]

[type]
type = ["longsword", "axe", "spear"]

[qualities]
rarity = ["common", "rare"]
condition = ["worn", "pristine"]

[lore]
creators = ["a blind smith", "the river folk"]
deeds = ["to guard the vale", "for a forgotten king"]
quirks = ["it hums at dusk", "it is always cold"]
templates = ["forged by {creator} {deed}. {quirk}"]

[visuals]
materials = ["steel", "bronze"]
colours = ["grey", "gold"]
accents = ["wrapped in leather", "set with garnets"]
features = ["etched with runes", "notched from battle"]
templates = ["made of {material}, {accent}, {colour}, {feature}"]
"#;

#[test]
fn test_person_loader_deserializes_data_sections() {
    let loaded = PersonLoader::from_file("data/person_test_data.toml", Ok(PERSON_TEST_DATA.to_string())).unwrap();

    assert_eq!(loaded.header.target, Target::Person);
    assert!(!loaded.data.name.unwrap().first.unwrap().is_empty());
}

#[test]
fn test_person_loader_allows_missing_body_sections() {
    let content = r#"
[header]
name = "partial person set"
target = "person"
"#;

    let loaded = parse_aethel_doc::<PersonLoader>("partial.toml", content);

    assert!(loaded.is_ok());

    let loaded = loaded.unwrap();
    assert!(loaded.data.name.is_none());
}

#[test]
fn test_person_loader_allows_missing_fields_in_existing_section() {
    let content = r#"
[header]
name = "partial person fields"
target = "person"

[name]
first = ["al"]
"#;

    let loaded = parse_aethel_doc::<PersonLoader>("partial.toml", content);

    assert!(loaded.is_ok());

    let loaded = loaded.unwrap();
    let name = loaded.data.name.unwrap();
    assert_eq!(name.first.unwrap(), vec!["al".to_string()]);
    assert!(name.middle.is_none());
    assert!(name.last.is_none());
}

#[test]
fn test_weapon_loader_deserializes_data_sections() {
    let loaded = WeaponLoader::from_file("data/weapon_test_data.toml", Ok(WEAPON_TEST_DATA.to_string())).unwrap();

    assert_eq!(loaded.header.target, Target::Weapon);
    assert!(!loaded.data.name.unwrap().prefix.unwrap().is_empty());
    assert!(!loaded.data.weapon_type.unwrap().types.unwrap().is_empty());
    assert!(!loaded.data.lore.unwrap().templates.unwrap().is_empty());
    assert!(!loaded.data.visuals.unwrap().templates.unwrap().is_empty());
}

#[test]
fn test_weapon_loader_allows_missing_body_sections() {
    let content = r#"
[header]
name = "partial weapon set"
target = "weapon"
"#;

    let loaded = parse_aethel_doc::<WeaponLoader>("partial.toml", content);

    assert!(loaded.is_ok());

    let loaded = loaded.unwrap();
    assert!(loaded.data.name.is_none());
    assert!(loaded.data.weapon_type.is_none());
    assert!(loaded.data.qualities.is_none());
    assert!(loaded.data.lore.is_none());
    assert!(loaded.data.visuals.is_none());
}

#[test]
fn test_weapon_loader_allows_missing_fields_in_existing_section() {
    let content = r#"
[header]
name = "partial fields"
target = "weapon"

[name]
prefix = ["iron"]
"#;

    let loaded = parse_aethel_doc::<WeaponLoader>("partial.toml", content);

    assert!(loaded.is_ok());

    let loaded = loaded.unwrap();
    let name = loaded.data.name.unwrap();
    assert_eq!(name.prefix.unwrap(), vec!["iron".to_string()]);
    assert!(name.suffix.is_none());
    assert!(name.primitives.is_none());
}

// ─── further cases ───────────────────────────────────────────────────────────

#[test]
fn loader_reports_read_parse_and_mismatch_errors() {
    let err = WeaponLoader::from_file("gone.toml", Err("no such file".to_string())).unwrap_err();
    assert_eq!(err.kind(), LoaderErrorKind::Read);
    assert_eq!(err.to_string(), "unable to read toml file 'gone.toml': no such file");

    let err = WeaponLoader::from_file("bad.toml", Ok("not valid toml = [".to_string())).unwrap_err();
    assert_eq!(err.kind(), LoaderErrorKind::Parse);

    let err = WeaponLoader::from_file("p.toml", Ok("[header]\nname = \"wrong target\"\ntarget = \"person\"\n".to_string())).unwrap_err();
    assert_eq!(err.kind(), LoaderErrorKind::TargetMismatch);
    assert_eq!(err.to_string(), "target mismatch: expected 'weapon', got 'person'");
}

#[test]
fn loader_rejects_unknown_targets_and_bad_fields() {
    let err = load_str::<PersonLoader>("x.toml", "[header]\nname = \"x\"\ntarget = \"dragon\"\n").unwrap_err();
    assert_eq!(
        err.to_string(),
        "unable to parse toml file 'x.toml': unknown variant `dragon`, expected one of `person`, `weapon`, `unsupported`"
    );
    let err = load_str::<PersonLoader>("x.toml", "[header]\ntarget = \"person\"\n").unwrap_err();
    assert_eq!(err.to_string(), "unable to parse toml file 'x.toml': missing field `name`");
    let err = load_str::<PersonLoader>("x.toml", "[header]\nname = \"x\"\ntarget = \"person\"\n[name]\nfirst = [\"a\", 2]\n").unwrap_err();
    assert_eq!(err.to_string(), "unable to parse toml file 'x.toml': invalid type for field `first`");
    let err = load_str::<PersonLoader>("x.toml", "[name]\nfirst = [\"a\"]\n").unwrap_err();
    assert_eq!(err.to_string(), "unable to parse toml file 'x.toml': missing field `header`");
    let err = load_str::<WeaponLoader>("x.toml", "lore = 3\n[header]\nname = \"x\"\ntarget = \"weapon\"\n").unwrap_err();
    assert_eq!(err.to_string(), "unable to parse toml file 'x.toml': invalid type for field `lore`");
}

#[test]
fn header_keeps_optional_metadata() {
    let loaded = load_str::<PersonLoader>("p.toml", PERSON_TEST_DATA).unwrap();
    assert_eq!(loaded.header.name, "person test set");
    assert_eq!(loaded.header.desc.as_deref(), Some("minimal person name primitives"));
    assert_eq!(loaded.header.author.as_deref(), Some("aethellib"));
    assert_eq!(loaded.header.version.as_deref(), Some("0.1"));
    let name = loaded.data.name.unwrap();
    assert_eq!(name.last.unwrap(), vec!["ton", "ric", "den", "vale"]);
}

#[test]
fn targets_parse_and_print() {
    assert_eq!(parse_target("weapon"), Some(Target::Weapon));
    assert_eq!(parse_target("person"), Some(Target::Person));
    assert_eq!(parse_target("unsupported"), Some(Target::Unsupported));
    assert_eq!(parse_target("Weapon"), None);
    assert_eq!(Target::Weapon.as_str(), "weapon");
    assert_eq!(Target::Person.label(), "Person");
}
