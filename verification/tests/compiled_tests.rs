use aethellib::corpus::PendingSource;
use aethellib::generator::utils::{generated_field_builder, sample_generated_field};
use aethellib::generator::{Generation, GenerationError, GeneratedField};
use aethellib::generators::generator_weapon::WeaponSlot;
use aethellib::loader::loader_weapon::WeaponLoader;
use aethellib::loader::{load_str, AethelDoc, Target};
use aethellib::merge::AethelCorpus;
use aethellib::merger::error::MergerError;
use aethellib::merger::utils::cast_aethel_docs_to_sources;
use aethellib::merger::{merge_files, merge_files_with_validator, MergeValidator};
use rand::rngs::StdRng;
use rand::SeedableRng;

const SET_A: &str = r#"
[header]
name = "set a"
target = "weapon"

[qualities]
rarity = ["Rare", "Common"]
"#;

const SET_B: &str = r#"
[header]
name = "set b"
target = "weapon"

[qualities]
rarity = ["Rare"]
"#;

fn corpus() -> AethelCorpus<WeaponLoader> {
    let files = vec![
        PendingSource::Str { name: "a.toml".to_string(), raw: SET_A.to_string() },
        PendingSource::Str { name: "b.toml".to_string(), raw: SET_B.to_string() },
    ];
    merge_files::<WeaponLoader>(&files, None).unwrap()
}

#[test]
fn builder_keeps_every_value_and_its_sources() {
    let corpus = corpus();
    let candidates = generated_field_builder(&corpus, "qualities", "rarity", WeaponSlot::Rarity);
    assert_eq!(candidates.values, vec!["Rare", "Common", "Rare"]);
    let refs = candidates.provenance.refs_for("Rare");
    assert_eq!(refs.len(), 2);
    assert_eq!(refs[0].source_name, "set a");
    assert_eq!(refs[1].source_name, "set b");
    assert_eq!(candidates.provenance.refs_for("Common").len(), 1);
}

#[test]
fn sampling_attaches_candidates_and_regenerates() {
    let corpus = corpus();
    let candidates = generated_field_builder(&corpus, "qualities", "rarity", WeaponSlot::Rarity);
    let mut rng = StdRng::seed_from_u64(4);
    let field = candidates.sample("rarity", &mut rng).unwrap();
    assert!(field.is_compiled());
    assert!(field.value() == "Rare" || field.value() == "Common");
    let again = field.regenerate_with_rng(&mut rng).unwrap();
    assert!(again.is_compiled());
    let mut in_place = again.clone();
    in_place.regenerate_in_place_with_rng(&mut rng).unwrap();
    assert!(in_place.value() == "Rare" || in_place.value() == "Common");

    let empty = generated_field_builder(&corpus, "lore", "templates", WeaponSlot::LoreTemplates);
    let err = empty.sample("lore", &mut rng).unwrap_err();
    assert_eq!(err, GenerationError::EmptyCandidates { field: "lore".to_string() });
    let err = sample_generated_field(&empty.values, &empty.provenance, &mut rng).unwrap_err();
    assert_eq!(err.to_string(), "no candidates are available for field 'unknown'");

    let pending: GeneratedField<String> = GeneratedField::pending("x".to_string());
    assert_eq!(pending.regenerate_with_rng(&mut rng).unwrap_err(), GenerationError::NotCompiled);
}

#[test]
fn source_paths_follow_the_field_ids() {
    let corpus = corpus();
    let candidates = generated_field_builder(&corpus, "qualities", "rarity", WeaponSlot::Rarity);
    let refs = candidates.provenance.refs_for("Rare").to_vec();
    let field = GeneratedField::with_refs("Rare".to_string(), refs);
    assert_eq!(field.source_paths_in(&corpus), vec!["a.toml", "b.toml"]);
}

#[test]
fn source_paths_come_in_corpus_order() {
    let corpus = corpus();
    let candidates = generated_field_builder(&corpus, "qualities", "rarity", WeaponSlot::Rarity);
    let mut refs = candidates.provenance.refs_for("Rare").to_vec();
    refs.reverse();
    let field = GeneratedField::with_refs("Rare".to_string(), refs);
    assert_eq!(field.source_paths_in(&corpus), vec!["a.toml", "b.toml"]);
}

#[test]
fn cast_documents_hash_their_rendering() {
    let a: AethelDoc<WeaponLoader> = load_str("a.toml", SET_A).unwrap();
    let b: AethelDoc<WeaponLoader> = load_str("b.toml", SET_A).unwrap();
    let sources = cast_aethel_docs_to_sources(vec![a, b], vec![Ok("same".to_string()), Ok("same".to_string())]).unwrap();
    assert_eq!(sources[0].source_path, "<aetheldoc:0>");
    assert_eq!(sources[1].source_path, "<aetheldoc:1>");
    assert_eq!(sources[0].source_hash, sources[1].source_hash);
    assert_eq!(sources[1].source_id, format!("{}:2", sources[0].source_hash));

    let c: AethelDoc<WeaponLoader> = load_str("c.toml", SET_B).unwrap();
    let err = cast_aethel_docs_to_sources(vec![c], vec![Err("boom".to_string())]).unwrap_err();
    assert_eq!(err.to_string(), "unable to serialise aethel document for source hashing at '<aetheldoc:0>': boom");

    let mut d: AethelDoc<WeaponLoader> = load_str("d.toml", SET_B).unwrap();
    d.header.target = Target::Person;
    let err = cast_aethel_docs_to_sources(vec![d], vec![Ok(String::new())]).unwrap_err();
    assert_eq!(err.to_string(), "target mismatch: expected 'weapon', got 'person'");
}

struct RejectB;

impl MergeValidator<WeaponLoader> for RejectB {
    fn validate(&self, document: &AethelDoc<WeaponLoader>, source_path: &str) -> Result<(), MergerError> {
        if source_path == "b.toml" {
            Err(MergerError::InvalidInput(format!("rejected {}", document.header.name)))
        } else {
            Ok(())
        }
    }
}

#[test]
fn merge_validators_can_reject() {
    let files = vec![
        PendingSource::Str { name: "a.toml".to_string(), raw: SET_A.to_string() },
        PendingSource::Str { name: "b.toml".to_string(), raw: SET_B.to_string() },
    ];
    let err = merge_files_with_validator::<WeaponLoader, RejectB>(&files, None, &RejectB).unwrap_err();
    assert_eq!(err.to_string(), "rejected set b");
    let ok = merge_files_with_validator::<WeaponLoader, RejectB>(&files[..1], None, &RejectB).unwrap();
    assert_eq!(ok.documents.len(), 1);
}

struct Record {
    asked: std::cell::RefCell<Vec<String>>,
}

impl MergeValidator<WeaponLoader> for Record {
    fn validate(&self, _document: &AethelDoc<WeaponLoader>, source_path: &str) -> Result<(), MergerError> {
        self.asked.borrow_mut().push(source_path.to_string());
        Ok(())
    }
}

#[test]
fn merge_validator_is_asked_once_per_document_in_order() {
    let files = vec![
        PendingSource::Str { name: "a.toml".to_string(), raw: SET_A.to_string() },
        PendingSource::Str { name: "b.toml".to_string(), raw: SET_B.to_string() },
    ];
    let hook = Record { asked: std::cell::RefCell::new(Vec::new()) };
    let ok = merge_files_with_validator::<WeaponLoader, Record>(&files, None, &hook).unwrap();
    assert_eq!(ok.documents.len(), 2);
    assert_eq!(*hook.asked.borrow(), vec!["a.toml".to_string(), "b.toml".to_string()]);
}

struct Count {
    documents: usize,
}

impl Generation for Count {
    type Loader = WeaponLoader;
    type CompiledState = ();

    fn compile(corpus: AethelCorpus<WeaponLoader>) -> Result<Self, GenerationError> {
        Ok(Count { documents: corpus.documents.len() })
    }
}

#[test]
fn generation_compiles_from_files() {
    let files = vec![PendingSource::Str { name: "a.toml".to_string(), raw: SET_A.to_string() }];
    let g = Count::from_files(&files).ok().unwrap();
    assert_eq!(g.documents, 1);
    let err = Count::from_files(&[]).err().unwrap();
    assert_eq!(
        err,
        GenerationError::BuilderDefinition {
            field: "corpus".to_string(),
            reason: "at least one path is required for merge".to_string()
        }
    );
}
