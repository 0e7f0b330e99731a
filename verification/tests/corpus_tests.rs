use aethellib::corpus::error::{CorpusLoaderError, CorpusLoaderErrorKind};
use aethellib::corpus::utils::{canonicalize_raw, hash_source_content, make_unique_source_id, CorpusLoaderOptions, LoadValidator};
use aethellib::corpus::types::Document;
use aethellib::corpus::{Corpus, PendingSource};
use aethellib::loader::error::{LoaderError, LoaderErrorKind};
use aethellib::loader::{load_files, LoadOptions};

const PERSON_TOML: &str = r#"
[header]
title = "person test set"
target = "person"
desc = "minimal person name primitives"
author = "aethellib"
version = "0.1"
schema = "01"

[name]
outputs = ["name"]
rules = [
    { for = "name", rule = "scramble", sample_count = [1, 3], from = ["first", "middle", "last"] },
]

first = ["al", "ra", "jo", "el"]
middle = ["an", "is", "or"]
last = ["ton", "ric", "den", "vale"]
"#;

#[test]
fn hash_is_stable_across_line_ending_variants() {
    let unix = "person\nfoo = \"bar\"";
    let windows = "person\r\nfoo = \"bar\"";
    assert_eq!(hash_source_content("person", unix), hash_source_content("person", windows));
}

#[test]
fn make_unique_source_id_suffixes_duplicates() {
    let mut seen = Vec::new();
    let id1 = make_unique_source_id("abc", &mut seen);
    let id2 = make_unique_source_id("abc", &mut seen);
    let id3 = make_unique_source_id("abc", &mut seen);
    let id4 = make_unique_source_id("xyz", &mut seen);
    assert_eq!(id1, "abc");
    assert_eq!(id2, "abc:2");
    assert_eq!(id3, "abc:3");
    assert_eq!(id4, "xyz");
}

#[test]
fn error_test_display_formats_target_mismatch() {
    let error = CorpusLoaderError::TargetMismatch { expected: "weapon".to_string(), found: "person".to_string() };
    assert_eq!(error.to_string(), "target mismatch: expected 'weapon', got 'person'");
    assert_eq!(error.kind(), CorpusLoaderErrorKind::TargetMismatch);
}

#[test]
fn error_test_read_for_path_includes_path_in_message() {
    let error = CorpusLoaderError::read_for_path(
        "custom-file.toml",
        std::io::Error::new(std::io::ErrorKind::NotFound, "missing").to_string(),
    );
    assert!(error.to_string().contains("custom-file.toml"));
    assert!(matches!(error, CorpusLoaderError::ReadError { path: Some(_), .. }));
    assert_eq!(error.kind(), CorpusLoaderErrorKind::Read);
}

#[test]
fn error_test_option_violation_kind() {
    let error = CorpusLoaderError::OptionViolation("some constraint".to_string());
    assert_eq!(error.to_string(), "some constraint");
    assert_eq!(error.kind(), CorpusLoaderErrorKind::OptionViolation);
}

#[test]
fn error_test_invalid_input_kind() {
    let error = CorpusLoaderError::InvalidInput("bad input".to_string());
    assert_eq!(error.to_string(), "bad input");
    assert_eq!(error.kind(), CorpusLoaderErrorKind::InvalidInput);
}

#[test]
fn pooled_values_lookup_keeps_same_field_names_separate_per_section() {
    let doc1 = r#"
[header]
title = "doc one"
target = "weapon"

[name]
first = ["ash", "birch"]

[aliases]
first = ["ember"]
"#;

    let doc2 = r#"
[header]
title = "doc two"
target = "weapon"

[name]
first = ["cedar"]
"#;

    let corpus = Corpus::builder("weapon").add_str("doc-1", doc1).add_str("doc-2", doc2).build().expect("corpus should build");

    let name_first = corpus.pooled_values_for_field_section("first", "name").expect("name.first pool should exist");
    let aliases_first = corpus.pooled_values_for_field_section("first", "aliases").expect("aliases.first pool should exist");

    assert_eq!(name_first.len(), 3);
    assert_eq!(aliases_first.len(), 1);
    assert!(name_first.iter().all(|value| value.provenance.iter().all(|p| p.section == "name")));
    assert!(aliases_first.iter().all(|value| value.provenance.iter().all(|p| p.section == "aliases")));
}

#[test]
fn pooled_values_lookup_returns_none_for_missing_section_field_pair() {
    let raw = r#"
[header]
title = "doc one"
target = "person"

[name]
first = ["al"]
"#;

    let corpus = Corpus::builder("person").add_str("doc-1", raw).build().expect("corpus should build");

    assert!(corpus.pooled_values_for_field_section("last", "name").is_none());
    assert!(corpus.pooled_values_for_field_section("first", "aliases").is_none());
}

#[test]
fn corpus_builder_assembles_multiple_str_sources() {
    let corpus = Corpus::builder("person").add_str("first", PERSON_TOML).add_str("second", PERSON_TOML).build().expect("should build");

    assert_eq!(corpus.target(), "person");
    assert_eq!(corpus.documents.len(), 2);
    assert_eq!(corpus.documents[0].source_id, corpus.documents[0].source_hash);
    assert!(corpus.documents[1].source_id.contains(':'));
}

#[test]
fn corpus_builder_rejects_empty_sources() {
    let err = Corpus::builder("person").build().expect_err("should fail");
    assert_eq!(err.kind(), LoaderErrorKind::InvalidInput);
}

#[test]
fn load_options_identical_title_rejected_when_disabled() {
    let opts = LoadOptions { identical_title_allowed: false, skip_source_with_target_mismatch: false };
    let err = Corpus::builder("person")
        .with_options(opts)
        .add_str("a", PERSON_TOML)
        .add_str("b", PERSON_TOML)
        .build()
        .expect_err("should fail");
    assert_eq!(err.kind(), LoaderErrorKind::OptionViolation);
}

struct RejectAll;

impl LoadValidator for RejectAll {
    fn validate(&self, _doc: &Document) -> Result<(), LoaderError> {
        Err(LoaderError::InvalidInput("rejected".to_string()))
    }
}

#[test]
fn load_validator_can_reject_documents() {
    let err = Corpus::builder("person").with_validator(Box::new(RejectAll)).add_str("a", PERSON_TOML).build().expect_err("should fail");
    assert_eq!(err.kind(), LoaderErrorKind::InvalidInput);
}

// ─── further cases ───────────────────────────────────────────────────────────

#[test]
fn validator_error_is_returned_unchanged() {
    let err = Corpus::builder("person").with_validator(Box::new(RejectAll)).add_str("a", PERSON_TOML).build().expect_err("should fail");
    assert_eq!(err.to_string(), "rejected");
}

#[test]
fn target_mismatch_comes_before_the_validator() {
    let err = Corpus::builder("weapon").with_validator(Box::new(RejectAll)).add_str("p", PERSON_TOML).build().expect_err("should fail");
    assert_eq!(err.kind(), LoaderErrorKind::TargetMismatch);
}

#[test]
fn source_hash_is_the_sha256_of_target_and_canonical_text() {
    assert_eq!(
        hash_source_content("person", "foo = \"bar\"  \n\n"),
        "1dc1e1a41b50d00d18faa92ef6cd8acfe34fd7a1014652943b2f48ad7676c3d6"
    );
    assert_eq!(hash_source_content("weapon", "   \r\n "), "9a027dd6b311376b89d7e54ee8c6995e0babb95138cc002aaf6ff54a7de6fb0b");
}

#[test]
fn canonical_text_is_the_same_after_crlf_becomes_lf() {
    let raw = "\r\n a = 1 \r\r\nb = 2\r\n\r\n";
    assert_eq!(canonicalize_raw(&raw.replace("\r\n", "\n")), canonicalize_raw(raw));
    assert_eq!(canonicalize_raw(raw), "a = 1\nb = 2");
}

#[test]
fn canonicalizing_twice_changes_nothing() {
    let once = canonicalize_raw("\n  a = 1   \r\n\t\nb = 2\t\n\n");
    assert_eq!(canonicalize_raw(&once), once);
}

#[test]
fn canonical_text_trims_lines_and_ends() {
    assert_eq!(canonicalize_raw("  a = 1   \r\nb = 2\t\n\n"), "a = 1\nb = 2");
    assert_eq!(canonicalize_raw(""), "");
}

#[test]
fn builder_reports_parse_errors_with_the_source_name() {
    let err = Corpus::builder("person").add_str("broken.toml", "not valid toml = [").build().expect_err("should fail");
    assert_eq!(err.kind(), CorpusLoaderErrorKind::Parse);
    assert!(err.to_string().starts_with("unable to parse toml file 'broken.toml': "));
}

#[test]
fn builder_rejects_a_missing_header() {
    let err = Corpus::builder("person").add_str("n.toml", "[name]\nfirst = [\"a\"]\n").build().expect_err("should fail");
    assert_eq!(err.to_string(), "'n.toml' is missing a [header] table");
    assert_eq!(err.kind(), CorpusLoaderErrorKind::InvalidInput);
}

#[test]
fn builder_rejects_a_header_without_title() {
    let err = Corpus::builder("person").add_str("t.toml", "[header]\ntarget = \"person\"\n").build().expect_err("should fail");
    assert_eq!(err.kind(), CorpusLoaderErrorKind::Parse);
    assert_eq!(err.to_string(), "unable to parse toml file 't.toml': missing field `title`");
}

#[test]
fn builder_rejects_a_non_table_section() {
    let raw = "top = 1\n[header]\ntitle = \"x\"\ntarget = \"person\"\n";
    let err = Corpus::builder("person").add_str("s.toml", raw).build().expect_err("should fail");
    assert_eq!(err.to_string(), "'s.toml': section 'top' must be a TOML table");
}

#[test]
fn builder_reports_target_mismatch_unless_skipping() {
    let err = Corpus::builder("weapon").add_str("p", PERSON_TOML).build().expect_err("should fail");
    assert_eq!(err.to_string(), "target mismatch: expected 'weapon', got 'person'");

    let opts = LoadOptions { identical_title_allowed: true, skip_source_with_target_mismatch: true };
    let weapon = "[header]\ntitle = \"w\"\ntarget = \"weapon\"\n[name]\nprefix = [\"iron\"]\n";
    let corpus = Corpus::builder("weapon").with_options(opts).add_str("p", PERSON_TOML).add_str("w", weapon).build().expect("should build");
    assert_eq!(corpus.documents.len(), 1);
    assert_eq!(corpus.documents[0].source_path, "w");
}

#[test]
fn builder_reports_unreadable_files_in_order() {
    let err = Corpus::builder("person").add_str("a", PERSON_TOML).add_unreadable("gone.toml", "missing").build().expect_err("should fail");
    assert_eq!(err.kind(), CorpusLoaderErrorKind::Read);
    assert_eq!(err.to_string(), "unable to read toml file 'gone.toml': missing");
}

#[test]
fn duplicate_titles_message_names_the_title() {
    let opts = CorpusLoaderOptions { identical_title_allowed: false, skip_source_with_target_mismatch: false };
    let err = Corpus::builder("person").with_options(opts).add_str("a", PERSON_TOML).add_str("b", PERSON_TOML).build().expect_err("should fail");
    assert_eq!(
        err.to_string(),
        "duplicate header.title 'person test set' is not allowed when identical_title_allowed is false"
    );
}

#[test]
fn pools_merge_provenance_of_repeated_values() {
    let corpus = Corpus::builder("person").add_str("first", PERSON_TOML).add_str("second", PERSON_TOML).build().expect("should build");
    let first = corpus.pooled_values_for_field_section("first", "name").expect("pool");
    assert_eq!(first.len(), 4);
    assert_eq!(first[0].value, "al");
    assert_eq!(first[0].provenance.len(), 2);
    assert_eq!(first[0].provenance[0].source_id, corpus.documents[0].source_id);
    assert_eq!(first[0].provenance[1].source_id, corpus.documents[1].source_id);
    assert_eq!(first[0].provenance[0].document_title, "person test set");
    let rules = corpus.pooled_values_for_field_section("rules", "name").expect("rules pool");
    assert!(rules.is_empty());
}

#[test]
fn find_source_and_paths_follow_corpus_order() {
    let corpus = Corpus::builder("person").add_str("first", PERSON_TOML).add_str("second", PERSON_TOML).build().expect("should build");
    assert_eq!(corpus.source_paths(), vec!["first", "second"]);
    let ids = corpus.source_ids();
    assert_eq!(ids.len(), 2);
    assert_eq!(ids[1], format!("{}:2", corpus.documents[0].source_hash));
    assert_eq!(corpus.find_source(ids[1]).expect("found").source_path, "second");
    assert!(corpus.find_source("nope").is_none());
    let section = corpus.documents[0].section("name").expect("name section");
    assert_eq!(section.title, "name");
    assert!(corpus.documents[0].section("missing").is_none());
}

#[test]
fn combine_reassigns_repeated_ids() {
    let a = Corpus::builder("person").add_str("a", PERSON_TOML).build().expect("a");
    let b = Corpus::builder("person").add_str("b", PERSON_TOML).build().expect("b");
    assert_eq!(a.documents[0].source_id, b.documents[0].source_id);
    let c = a.combine(b);
    assert_eq!(c.documents.len(), 2);
    assert_eq!(c.documents[0].source_id, c.documents[0].source_hash);
    assert_eq!(c.documents[1].source_id, format!("{}:2", c.documents[1].source_hash));
    assert_eq!(c.pooled_values_for_field_section("first", "name").expect("pool")[0].provenance.len(), 2);
}

#[test]
fn load_files_matches_the_builder() {
    let files = vec![
        PendingSource::Str { name: "a".to_string(), raw: PERSON_TOML.to_string() },
        PendingSource::Str { name: "b".to_string(), raw: PERSON_TOML.to_string() },
    ];
    let corpus = load_files(&files, "person", None).expect("should load");
    assert_eq!(corpus.documents.len(), 2);
    assert_eq!(corpus.documents[1].source_path, "b");
    let err = load_files(&[], "person", None).expect_err("no files");
    assert_eq!(err.to_string(), "at least one source is required to build a corpus");
}
