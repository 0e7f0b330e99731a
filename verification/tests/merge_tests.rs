use aethellib::corpus::PendingSource;
use aethellib::loader::loader_person::PersonLoader;
use aethellib::loader::loader_weapon::WeaponLoader;
use aethellib::loader::Target;
use aethellib::merge::merge_weapon::merge_weapon_sources;
use aethellib::merge::{
    build_corpus_from_paths, build_corpus_from_sources, merge_from_files, merge_person_files, merge_weapon_files,
    MergeError, MergedAethelDoc,
};
use aethellib::merger::error::MergerError;
use aethellib::merger::merger_options::{MergeOptions, MergerOptionError};
use aethellib::merger::{merge_files, merge_sources, MergeSourceInput};

const PERSON_TEST_DATA: &str = r#"
[header]
name = "person test set"
target = "person"
version = "0.1"

[name]
first = ["al", "ra", "jo", "el"]
middle = ["an", "is", "or"]
last = ["ton", "ric", "den", "vale"]
"#;

const WEAPON_TEST_DATA: &str = r#"
[header]
name = "weapon test set"
target = "weapon"
version = "0.1"

[name]
prefix = ["Iron", "Storm", "Ash"]
suffix = ["of Dawn", "of the Vale"]
primitives = ["ka", "lor", "vin", "esh"]

[type]
type = ["longsword", "axe", "spear"]

[lore]
templates = ["forged by {creator} {deed}. {quirk}"]

[visuals]
templates = ["made of {material}, {accent}, {colour}, {feature}"]
"#;

const WEAPON_MERGE_PART_1: &str = r#"
[header]
name = "weapon merge fixture part 1"
target = "weapon"
version = "1.0"

[name]
prefix = ["Iron", "Storm"]
primitives = ["ka", "lor"]
"#;

const WEAPON_MERGE_PART_2: &str = r#"
[header]
name = "weapon merge fixture part 2"
target = "weapon"
version = "1.0"

[name]
prefix = ["Iron", "Ash"]
suffix = ["of Dawn"]

[type]
type = ["longsword", "axe"]
"#;

const WEAPON_MERGE_PART_3: &str = r#"
[header]
name = "weapon merge fixture part 3"
target = "weapon"

[type]
type = ["axe", "spear"]

[qualities]
rarity = ["rare", "common"]
condition = ["worn"]
"#;

const WEAPON_MERGE_PART_4: &str = r#"
[header]
name = "weapon merge fixture part 4"
target = "weapon"

[lore]
creators = ["a blind smith"]
templates = ["forged by {creator}"]

[visuals]
materials = ["steel"]
templates = ["made of {material}"]
"#;

fn file(path: &str, raw: &str) -> PendingSource {
    PendingSource::Str { name: path.to_string(), raw: raw.to_string() }
}

fn merge_parts() -> Vec<PendingSource> {
    vec![
        file("data/weapon_merge_part_1.toml", WEAPON_MERGE_PART_1),
        file("data/weapon_merge_part_2.toml", WEAPON_MERGE_PART_2),
        file("data/weapon_merge_part_3.toml", WEAPON_MERGE_PART_3),
        file("data/weapon_merge_part_4.toml", WEAPON_MERGE_PART_4),
    ]
}

#[test]
fn test_weapon_loader_merges_split_fixtures_and_deduplicates_values() {
    let paths = merge_parts();

    let merged_docs = merge_from_files(&paths).unwrap();
    assert_eq!(merged_docs.len(), 1);
    let loaded = match &merged_docs[0] {
        MergedAethelDoc::Weapon(loaded) => loaded,
        _ => panic!("expected weapon corpus"),
    };

    assert_eq!(loaded.target, Target::Weapon);
    assert_eq!(loaded.documents.len(), 4);
    assert_eq!(loaded.documents[0].header.name, "weapon merge fixture part 1");
    assert_eq!(loaded.documents[1].header.name, "weapon merge fixture part 2");
    assert_eq!(loaded.documents[2].header.name, "weapon merge fixture part 3");
    assert_eq!(loaded.documents[3].header.name, "weapon merge fixture part 4");

    assert!(loaded.documents.iter().all(|document| document.header.target == Target::Weapon));
}

#[test]
fn test_merge_requires_at_least_one_file() {
    let err = merge_from_files(&[]).unwrap_err();
    assert!(matches!(err, MergeError::InvalidInput(_)));
}

#[test]
fn test_merge_groups_files_by_target() {
    let paths = merge_parts();

    let merged = merge_from_files(&paths).unwrap();

    assert_eq!(merged.len(), 1);
    assert_eq!(merged[0].target(), Target::Weapon);

    match &merged[0] {
        MergedAethelDoc::Weapon(doc) => {
            assert_eq!(doc.documents.len(), 4);
            assert!(doc.documents.iter().all(|source| source.header.target == Target::Weapon));
        }
        _ => panic!("expected weapon corpus"),
    }
}

#[test]
fn test_merge_groups_mixed_targets_in_first_seen_order() {
    let paths = [file("data/person_test_data.toml", PERSON_TEST_DATA), file("data/weapon_test_data.toml", WEAPON_TEST_DATA)];

    let merged = merge_from_files(&paths).unwrap();

    assert_eq!(merged.len(), 2);
    assert_eq!(merged[0].target(), Target::Person);
    assert_eq!(merged[1].target(), Target::Weapon);

    let person = merged[0].as_person().unwrap();
    let weapon = merged[1].as_weapon().unwrap();

    assert_eq!(person.documents.len(), 1);
    assert_eq!(weapon.documents.len(), 1);
}

#[test]
fn test_merge_allows_different_versions_between_sources() {
    let a = file(
        "aethellib_version_a.toml",
        r#"
[header]
name = "vendor weapon set"
target = "weapon"
version = "1.0"

[name]
prefix = ["Iron"]
"#,
    );
    let b = file(
        "aethellib_version_b.toml",
        r#"
[header]
name = "vendor weapon set"
target = "weapon"
version = "1.1"

[name]
suffix = ["of Dawn"]
"#,
    );

    let merged = merge_from_files(&[a, b]).unwrap();
    match &merged[0] {
        MergedAethelDoc::Weapon(doc) => {
            assert_eq!(doc.documents.len(), 2);
            assert_eq!(doc.documents[0].header.version.as_deref(), Some("1.0"));
            assert_eq!(doc.documents[1].header.version.as_deref(), Some("1.1"));
        }
        _ => panic!("expected weapon corpus"),
    }
}

#[test]
fn test_merge_assigns_unique_source_ids_for_identical_content() {
    let content = r#"
[header]
name = "same content"
target = "weapon"

[name]
prefix = ["Iron"]
"#;
    let merged = merge_from_files(&[file("aethellib_identical_a.toml", content), file("aethellib_identical_b.toml", content)]).unwrap();

    match &merged[0] {
        MergedAethelDoc::Weapon(doc) => {
            assert_eq!(doc.documents.len(), 2);
            assert_ne!(doc.documents[0].source_id, doc.documents[1].source_id);
            assert_eq!(doc.documents[0].source_hash, doc.documents[1].source_hash);
        }
        _ => panic!("expected weapon corpus"),
    }
}

#[test]
fn test_merge_reports_unsupported_target() {
    let content = r#"
[header]
name = "unsupported set"
target = "unsupported"
"#;
    let result = merge_from_files(&[file("aethellib_unsupported_target_test.toml", content)]);

    assert!(matches!(result, Err(MergeError::UnsupportedTarget(Target::Unsupported))));
}

#[test]
fn test_build_corpus_from_sources_matches_build_corpus_from_paths() {
    let paths = merge_parts();

    let from_paths = build_corpus_from_paths::<WeaponLoader>(&paths).unwrap();

    let loaded_sources: Vec<(String, String)> = vec![
        ("data/weapon_merge_part_1.toml".to_string(), WEAPON_MERGE_PART_1.to_string()),
        ("data/weapon_merge_part_2.toml".to_string(), WEAPON_MERGE_PART_2.to_string()),
        ("data/weapon_merge_part_3.toml".to_string(), WEAPON_MERGE_PART_3.to_string()),
        ("data/weapon_merge_part_4.toml".to_string(), WEAPON_MERGE_PART_4.to_string()),
    ];

    let source_inputs: Vec<MergeSourceInput<'_>> =
        loaded_sources.iter().map(|(path, raw)| MergeSourceInput { path: path.as_str(), raw: raw.as_str() }).collect();

    let from_sources = build_corpus_from_sources::<WeaponLoader>(&source_inputs).unwrap();

    assert_eq!(from_paths.target, from_sources.target);
    assert_eq!(from_paths.documents.len(), from_sources.documents.len());

    for (left, right) in from_paths.documents.iter().zip(from_sources.documents.iter()) {
        assert_eq!(left.source_id, right.source_id);
        assert_eq!(left.source_hash, right.source_hash);
        assert_eq!(left.source_path, right.source_path);
        assert_eq!(left.header.name, right.header.name);
        assert_eq!(left.header.target, right.header.target);
        assert_eq!(left.header.version, right.header.version);
    }
}

#[test]
fn test_merge_weapon_sources_matches_merge_weapon_files() {
    let paths = merge_parts();
    let from_files = merge_weapon_files(&paths).unwrap();

    let loaded_sources: Vec<(String, String)> = vec![
        ("data/weapon_merge_part_1.toml".to_string(), WEAPON_MERGE_PART_1.to_string()),
        ("data/weapon_merge_part_2.toml".to_string(), WEAPON_MERGE_PART_2.to_string()),
        ("data/weapon_merge_part_3.toml".to_string(), WEAPON_MERGE_PART_3.to_string()),
        ("data/weapon_merge_part_4.toml".to_string(), WEAPON_MERGE_PART_4.to_string()),
    ];
    let source_inputs: Vec<MergeSourceInput<'_>> =
        loaded_sources.iter().map(|(path, raw)| MergeSourceInput { path: path.as_str(), raw: raw.as_str() }).collect();

    let from_sources = merge_weapon_sources(&source_inputs).unwrap();

    assert_eq!(from_files.target, from_sources.target);
    assert_eq!(from_files.documents.len(), from_sources.documents.len());

    for (left, right) in from_files.documents.iter().zip(from_sources.documents.iter()) {
        assert_eq!(left.source_id, right.source_id);
        assert_eq!(left.source_hash, right.source_hash);
        assert_eq!(left.source_path, right.source_path);
        assert_eq!(left.header.name, right.header.name);
        assert_eq!(left.header.target, right.header.target);
        assert_eq!(left.header.version, right.header.version);
    }
}

#[test]
fn test_merged_aethel_doc_accessors_return_weapon_variant() {
    let paths = merge_parts();

    let merged_docs = merge_from_files(&paths).unwrap();
    let weapon_ref = merged_docs[0].as_weapon();
    assert!(weapon_ref.is_some());
    assert_eq!(weapon_ref.unwrap().target, Target::Weapon);

    let owned = merged_docs.into_iter().next().unwrap().into_weapon();
    assert!(owned.is_some());
    assert_eq!(owned.unwrap().target, Target::Weapon);
}

#[test]
fn test_merged_aethel_doc_accessors_return_person_variant() {
    let paths = [file("data/person_test_data.toml", PERSON_TEST_DATA)];

    let merged_docs = merge_from_files(&paths).unwrap();
    let person_ref = merged_docs[0].as_person();
    assert!(person_ref.is_some());
    assert_eq!(person_ref.unwrap().target, Target::Person);

    let owned = merged_docs.into_iter().next().unwrap().into_person();
    assert!(owned.is_some());
    assert_eq!(owned.unwrap().target, Target::Person);
}

#[test]
fn test_build_person_corpus_from_sources_matches_build_corpus_from_paths() {
    let paths = [file("data/person_test_data.toml", PERSON_TEST_DATA)];

    let from_paths = build_corpus_from_paths::<PersonLoader>(&paths).unwrap();

    let source_inputs = [MergeSourceInput { path: "data/person_test_data.toml", raw: PERSON_TEST_DATA }];

    let from_sources = build_corpus_from_sources::<PersonLoader>(&source_inputs).unwrap();

    assert_eq!(from_paths.target, from_sources.target);
    assert_eq!(from_paths.documents.len(), from_sources.documents.len());
    assert_eq!(from_paths.documents[0].source_id, from_sources.documents[0].source_id);
    assert_eq!(from_paths.documents[0].source_hash, from_sources.documents[0].source_hash);
    assert_eq!(from_paths.documents[0].source_path, from_sources.documents[0].source_path);
    assert_eq!(from_paths.documents[0].header.name, from_sources.documents[0].header.name);
    assert_eq!(from_paths.documents[0].header.target, from_sources.documents[0].header.target);
}

#[test]
fn test_display_for_invalid_input() {
    let error = MergerError::InvalidInput("bad input".to_string());
    assert_eq!(error.to_string(), "bad input");
}

#[test]
fn test_loader_conversion_wraps_loader_error() {
    let loader_error = aethellib::loader::LoaderError::TargetMismatch { expected: "weapon".to_string(), found: "person".to_string() };
    let wrapped = MergerError::from_loader(loader_error);

    assert!(matches!(wrapped, MergerError::Loader(_)));
}

#[test]
fn test_option_conversion_wraps_option_error() {
    let option_error = MergerOptionError::IdenticalNameAllowed { header: "same set".to_string() };
    let wrapped = MergerError::from_option(option_error);

    assert!(matches!(wrapped, MergerError::MergerOption(_)));
}

// ─── further cases ───────────────────────────────────────────────────────────

#[test]
fn merge_reads_every_file_before_parsing() {
    let files = vec![file("bad.toml", "not toml = ["), PendingSource::Unreadable { path: "gone.toml".to_string(), message: "missing".to_string() }];
    let err = merge_weapon_files(&files).unwrap_err();
    assert_eq!(err.to_string(), "unable to read toml file 'gone.toml': missing");
    let err = merge_from_files(&files).unwrap_err();
    assert!(err.to_string().starts_with("unable to parse toml file 'bad.toml': "));
}

#[test]
fn typed_merge_rejects_the_other_target() {
    let err = merge_person_files(&[file("w.toml", WEAPON_TEST_DATA)]).unwrap_err();
    assert_eq!(err.to_string(), "target mismatch: expected 'person', got 'weapon'");
    let err = MergeError::UnsupportedTarget(Target::Unsupported);
    assert_eq!(err.to_string(), "unsupported merge target: Unsupported");
}

#[test]
fn merger_options_refuse_repeated_names() {
    let a = file("a.toml", WEAPON_MERGE_PART_1);
    let b = file("b.toml", WEAPON_MERGE_PART_1);
    let files = vec![a, b];
    let ok = merge_files::<WeaponLoader>(&files, None).unwrap();
    assert_eq!(ok.documents.len(), 2);
    assert_eq!(ok.documents[1].source_id, format!("{}:2", ok.documents[0].source_hash));
    let err = merge_files::<WeaponLoader>(&files, Some(MergeOptions { identical_title_allowed: false })).unwrap_err();
    assert_eq!(
        err.to_string(),
        "duplicate header.title 'weapon merge fixture part 1' is not allowed when identical_names_allowed is false"
    );
    let err = merge_sources::<WeaponLoader>(&[], None).unwrap_err();
    assert_eq!(err.to_string(), "at least one path is required for merge");
}

#[test]
fn merge_and_merger_key_hashes_differently() {
    let from_merge = merge_weapon_files(&[file("a.toml", WEAPON_MERGE_PART_1)]).unwrap();
    let from_merger = merge_files::<WeaponLoader>(&[file("a.toml", WEAPON_MERGE_PART_1)], None).unwrap();
    assert_ne!(from_merge.documents[0].source_hash, from_merger.documents[0].source_hash);
    assert_eq!(from_merge.documents[0].source_hash.len(), 64);
    assert!(from_merge.find_source(&from_merge.documents[0].source_id).is_some());
    assert!(from_merge.find_source("missing").is_none());
}
