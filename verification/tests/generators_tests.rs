use aethellib::generators::generator_person::PersonGenerator;
use aethellib::generators::generator_weapon::{GeneratedWeapon, WeaponGenerator};
use aethellib::generators::{extend_unique_source_refs, push_unique_source_ref, GeneratedField, Generator, SourceRef};
use aethellib::loader::loader_weapon::{
    WeaponLoader, WeaponLoreSection, WeaponNameSection, WeaponQualitiesSection, WeaponTypeSection, WeaponVisualSection,
};
use aethellib::loader::{AthelDocHeader, Target};
use aethellib::merge::SourceAethelDoc;
use rand::rngs::StdRng;
use rand::SeedableRng;

const PERSON_TEST_DATA: &str = r#"
[header]
name = "person test set"
target = "person"

[name]
first = ["al", "ra", "jo", "el"]
middle = ["an", "is", "or"]
last = ["ton", "ric", "den", "vale"]
"#;

const WEAPON_TEST_DATA: &str = r#"
[header]
name = "weapon test set"
target = "weapon"

[name]
prefix = ["Iron", "Storm", "Ash"]
suffix = ["of Dawn", "of the Vale"]
primitives = ["ka", "lor", "vin", "esh"]

[type]
type = ["longsword", "axe", "spear"]

[qualities]
rarity = ["common", "rare"]
condition = ["worn", "pristine"]

[lore]
creators = ["a blind smith", "the river folk"]
deeds = ["to guard the vale", "for a forgotten king"]
quirks = ["it hums at dusk", "it is always cold"]
templates = ["forged by {creator} {deed}. {quirk}"]

[visuals]
materials = ["steel", "bronze"]
colours = ["grey", "gold"]
accents = ["wrapped in leather", "set with garnets"]
features = ["etched with runes", "notched from battle"]
templates = ["made of {material}, {accent}, {colour}, {feature}"]
"#;

fn test_source_doc(source_id: &str, name: &str, data: WeaponLoader) -> SourceAethelDoc<WeaponLoader> {
    SourceAethelDoc {
        source_id: source_id.to_string(),
        source_hash: format!("hash-{source_id}"),
        source_path: format!("{source_id}.toml"),
        header: AthelDocHeader { name: name.to_string(), target: Target::Weapon, desc: None, author: None, version: None },
        data,
    }
}

#[test]
fn test_generate_person_name_from_file() {
    let generator = PersonGenerator::from_file("data/person_test_data.toml", Ok(PERSON_TEST_DATA.to_string())).unwrap();
    let generated = generator.generate_with_rng(&mut StdRng::seed_from_u64(7));

    assert!(!generated.name.value.is_empty());
    assert!(generated.name.value.split_whitespace().count() >= 2);
}

#[test]
fn generator_person_test_generate_with_rng_is_deterministic_for_same_seed() {
    let generator = PersonGenerator::from_file("data/person_test_data.toml", Ok(PERSON_TEST_DATA.to_string())).unwrap();

    let mut rng_a = StdRng::seed_from_u64(99);
    let mut rng_b = StdRng::seed_from_u64(99);

    let generated_a = generator.generate_with_rng(&mut rng_a);
    let generated_b = generator.generate_with_rng(&mut rng_b);

    assert_eq!(generated_a.name.value, generated_b.name.value);
    assert_eq!(generated_a.name.source_refs, generated_b.name.source_refs);
}

#[test]
fn test_dbg_random_weapon() {
    let generator = WeaponGenerator::from_file("data/weapon_test_data.toml", Ok(WEAPON_TEST_DATA.to_string())).unwrap();
    let generated = generator.generate_with_rng(&mut StdRng::seed_from_u64(3));

    assert!(!generated.name.value.is_empty());
}

#[test]
fn test_generated_weapon_display_looks_nice() {
    let generated = GeneratedWeapon {
        name: GeneratedField { value: "Steel Longsword of Dawn".to_string(), source_refs: Vec::new() },
        weapon_type: Some(GeneratedField { value: "longsword".to_string(), source_refs: Vec::new() }),
        rarity: Some(GeneratedField { value: "rare".to_string(), source_refs: Vec::new() }),
        condition: Some(GeneratedField { value: "pristine".to_string(), source_refs: Vec::new() }),
        lore: Some(GeneratedField { value: "forged by old masters".to_string(), source_refs: Vec::new() }),
        visuals: Some(GeneratedField { value: "silver blade with blue accents".to_string(), source_refs: Vec::new() }),
    };

    let output = generated.to_string();

    assert!(output.contains("generated weapon"));
    assert!(output.contains("name      : Steel Longsword of Dawn"));
    assert!(output.contains("type      : longsword"));
    assert!(output.contains("rarity    : rare"));
    assert!(output.contains("condition : pristine"));
    assert!(output.contains("lore      : forged by old masters"));
    assert!(output.contains("visuals   : silver blade with blue accents"));
}

#[test]
fn generator_weapon_test_generate_with_rng_is_deterministic_for_same_seed() {
    let generator = WeaponGenerator::from_file("data/weapon_test_data.toml", Ok(WEAPON_TEST_DATA.to_string())).unwrap();

    let mut rng_a = StdRng::seed_from_u64(42);
    let mut rng_b = StdRng::seed_from_u64(42);

    let generated_a = generator.generate_with_rng(&mut rng_a);
    let generated_b = generator.generate_with_rng(&mut rng_b);

    assert_eq!(generated_a.name.value, generated_b.name.value);
    assert_eq!(generated_a.name.source_refs, generated_b.name.source_refs);
    assert_eq!(generated_a.weapon_type.as_ref().map(|field| &field.value), generated_b.weapon_type.as_ref().map(|field| &field.value));
    assert_eq!(generated_a.rarity.as_ref().map(|field| &field.value), generated_b.rarity.as_ref().map(|field| &field.value));
    assert_eq!(generated_a.condition.as_ref().map(|field| &field.value), generated_b.condition.as_ref().map(|field| &field.value));
    assert_eq!(generated_a.lore.as_ref().map(|field| &field.value), generated_b.lore.as_ref().map(|field| &field.value));
    assert_eq!(generated_a.visuals.as_ref().map(|field| &field.value), generated_b.visuals.as_ref().map(|field| &field.value));
}

#[test]
fn test_rarity_retains_all_sources_after_dedup() {
    let doc_a = test_source_doc(
        "source-a",
        "set-a",
        WeaponLoader {
            name: None,
            weapon_type: None,
            qualities: Some(WeaponQualitiesSection { rarity: Some(vec!["Rare".to_string()]), condition: None }),
            lore: None,
            visuals: None,
        },
    );

    let doc_b = test_source_doc(
        "source-b",
        "set-b",
        WeaponLoader {
            name: None,
            weapon_type: None,
            qualities: Some(WeaponQualitiesSection { rarity: Some(vec!["Rare".to_string()]), condition: None }),
            lore: None,
            visuals: None,
        },
    );

    let generator = WeaponGenerator::from_documents(vec![doc_a, doc_b]);
    let generated = generator.generate_with_rng(&mut StdRng::seed_from_u64(11));

    let rarity = generated.rarity.unwrap();
    assert_eq!(rarity.value, "Rare");
    assert_eq!(rarity.source_refs.len(), 2);
}

#[test]
fn test_lore_contains_template_and_token_sources() {
    let doc = test_source_doc(
        "source-lore",
        "lore-set",
        WeaponLoader {
            name: Some(WeaponNameSection {
                prefix: Some(vec!["Iron".to_string()]),
                suffix: None,
                primitives: Some(vec!["ka".to_string()]),
            }),
            weapon_type: Some(WeaponTypeSection { types: Some(vec!["longsword".to_string()]) }),
            qualities: Some(WeaponQualitiesSection {
                rarity: Some(vec!["Rare".to_string()]),
                condition: Some(vec!["Pristine".to_string()]),
            }),
            lore: Some(WeaponLoreSection {
                creators: Some(vec!["a blind smith".to_string()]),
                deeds: Some(vec!["to guard the vale".to_string()]),
                quirks: Some(vec!["it sings softly".to_string()]),
                templates: Some(vec!["forged by {creator} {deed}. {quirk}".to_string()]),
            }),
            visuals: Some(WeaponVisualSection {
                materials: Some(vec!["steel".to_string()]),
                colours: Some(vec!["grey".to_string()]),
                accents: Some(vec!["in leather".to_string()]),
                features: Some(vec!["etched with runes".to_string()]),
                templates: Some(vec!["made of {material}, {accent}, {colour}, {feature}".to_string()]),
            }),
        },
    );

    let generator = WeaponGenerator::from_documents(vec![doc]);
    let generated = generator.generate_with_rng(&mut StdRng::seed_from_u64(5));

    let lore = generated.lore.unwrap();

    assert!(lore.source_refs.iter().any(|source| source.section == "lore" && source.field == "templates"));
    assert!(lore.source_refs.iter().any(|source| source.section == "lore" && source.field == "creators"));
    assert!(lore.source_refs.iter().any(|source| source.section == "lore" && source.field == "deeds"));
    assert!(lore.source_refs.iter().any(|source| source.section == "lore" && source.field == "quirks"));

    assert_eq!(lore.value, "forged by a blind smith to guard the vale. it sings softly");
    assert_eq!(lore.source_refs.len(), 4);
    let visuals = generated.visuals.unwrap();
    assert_eq!(visuals.value, "made of steel, in leather, grey, etched with runes");
    let name = generated.name;
    assert!(name.value == "Iron Kakaka" || name.value == "Iron Kakakaka" || name.value == "Iron Kakakakaka");
    assert_eq!(name.source_refs.len(), 2);
}

#[test]
fn test_generate_without_name_section_uses_weapon_fallback() {
    let doc = test_source_doc(
        "source-no-name",
        "no-name-set",
        WeaponLoader {
            name: None,
            weapon_type: Some(WeaponTypeSection { types: Some(vec!["longsword".to_string()]) }),
            qualities: Some(WeaponQualitiesSection {
                rarity: Some(vec!["Rare".to_string()]),
                condition: Some(vec!["Pristine".to_string()]),
            }),
            lore: None,
            visuals: None,
        },
    );

    let generator = WeaponGenerator::from_documents(vec![doc]);
    let generated = generator.generate_with_rng(&mut StdRng::seed_from_u64(1));

    assert_eq!(generated.name.value, "weapon");
    assert!(generated.name.source_refs.is_empty());
}

// ─── further cases ───────────────────────────────────────────────────────────

#[test]
fn display_falls_back_for_absent_fields() {
    let generated = GeneratedWeapon {
        name: GeneratedField { value: "weapon".to_string(), source_refs: Vec::new() },
        weapon_type: None,
        rarity: None,
        condition: None,
        lore: None,
        visuals: None,
    };
    assert_eq!(
        generated.to_string(),
        "generated weapon\n----------------\nname      : weapon\ntype      : unknown\nrarity    : unspecified\ncondition : unspecified\nlore      : none\nvisuals   : none"
    );
}

#[test]
fn empty_corpus_gives_fallbacks_everywhere() {
    let doc = test_source_doc(
        "empty",
        "empty-set",
        WeaponLoader { name: None, weapon_type: None, qualities: None, lore: None, visuals: None },
    );
    let generated = WeaponGenerator::from_documents(vec![doc]).generate_with_rng(&mut StdRng::seed_from_u64(9));
    assert_eq!(generated.name.value, "weapon");
    assert!(generated.weapon_type.is_none());
    assert!(generated.rarity.is_none());
    assert!(generated.condition.is_none());
    assert!(generated.lore.is_none());
    assert!(generated.visuals.is_none());
}

#[test]
fn person_names_draw_from_their_pools() {
    let generator = PersonGenerator::from_file("p.toml", Ok(PERSON_TEST_DATA.to_string())).unwrap();
    for seed in 0..20u64 {
        let generated = generator.generate_with_rng(&mut StdRng::seed_from_u64(seed));
        let parts: Vec<&str> = generated.name.value.split(' ').collect();
        assert_eq!(parts.len(), 3);
        assert!(parts.iter().all(|p| p.chars().next().unwrap().is_ascii_uppercase()));
        assert!(!generated.name.source_refs.is_empty());
        assert!(generated.name.source_refs.iter().all(|r| r.section == "name"));
    }
    let empty = PersonGenerator::from_file("p.toml", Ok("[header]\nname = \"e\"\ntarget = \"person\"\n".to_string())).unwrap();
    let generated = empty.generate_with_rng(&mut StdRng::seed_from_u64(1));
    assert_eq!(generated.name.value, "nam less");
    assert!(generated.name.source_refs.is_empty());
    let err = PersonGenerator::from_file("gone.toml", Err("missing".to_string())).err().unwrap();
    assert_eq!(err.to_string(), "unable to read toml file 'gone.toml': missing");
}

#[test]
fn unique_refs_are_not_repeated() {
    let r = SourceRef { source_id: "a".to_string(), source_name: "n".to_string(), section: "s".to_string(), field: "f".to_string() };
    let q = SourceRef { source_id: "b".to_string(), ..r.clone() };
    let mut refs = Vec::new();
    push_unique_source_ref(&mut refs, r.clone());
    push_unique_source_ref(&mut refs, r.clone());
    assert_eq!(refs.len(), 1);
    extend_unique_source_refs(&mut refs, &[q.clone(), r.clone(), q.clone()]);
    assert_eq!(refs, vec![r.clone(), q]);
    assert!(r.matches("s", "f"));
    assert!(!r.matches("s", "g"));
}
