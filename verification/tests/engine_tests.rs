use aethellib::corpus::Corpus;
use aethellib::engine::combinators::{fallback, pick, pick_from, weighted_choice, weighted_index};
use aethellib::engine::{AethelError, ComposedValue, Engine, GenerationContext, Rule};
use aethellib::generator::{GenerationError, ProvenanceCandidateIndex, TraceEdge, TraceEdgeKind, TraceGraph, TraceNode, TraceNodeKind};
use aethellib::generator::GeneratedField as CompiledField;
use aethellib::generators::SourceRef;
use rand::rngs::StdRng;
use rand::SeedableRng;

const WEAPON_CORPUS: &str = r#"
[header]
title = "weapon names"
target = "weapon"

[name]
prefix = ["Iron", "Storm"]

[type]
type = ["axe"]
"#;

fn corpus() -> Corpus {
    Corpus::builder("weapon").add_str("w.toml", WEAPON_CORPUS).build().expect("corpus")
}

#[test]
fn merge_appends_text_and_provenance() {
    let c = corpus();
    let pool = c.pooled_values_for_field_section("prefix", "name").unwrap();
    let a = pick_from(pool, 0);
    let b = pick_from(pool, 1);
    assert_eq!(a.value, "Iron");
    assert_eq!(b.value, "Storm");
    let m = a.merge(b);
    assert_eq!(m.value, "IronStorm");
    assert_eq!(m.provenance.len(), 2);
    assert_eq!(pick_from(pool, 5).value, "Storm");
}

#[test]
fn weighted_index_counts_off_the_weights() {
    let ws = vec![60, 18, 12, 7, 3];
    assert_eq!(weighted_index(&ws, 0), Some(0));
    assert_eq!(weighted_index(&ws, 59), Some(0));
    assert_eq!(weighted_index(&ws, 60), Some(1));
    assert_eq!(weighted_index(&ws, 97), Some(4));
    assert_eq!(weighted_index(&ws, 100), Some(0));
    assert_eq!(weighted_index(&vec![0, 0], 5), None);
    assert_eq!(weighted_index(&vec![0, 2, 0], 1), Some(1));
}

#[test]
fn engine_runs_rules_in_order_and_records_results() {
    let c = corpus();
    let ctx = Engine::new(&c, StdRng::seed_from_u64(1))
        .with_rule(Box::new(aethellib::engine::combinators::concat("weapon_name", pick("px", "name".to_string(), "prefix".to_string()), pick("ty", "type".to_string(), "type".to_string()))))
        .with_rule(Box::new(fallback("maybe", pick("bad", "none".to_string(), "none".to_string()), pick("ty2", "type".to_string(), "type".to_string()))))
        .with_rule(Box::new(weighted_choice(
            "element",
            vec![(0, Box::new(pick("a", "name".to_string(), "prefix".to_string())) as Box<dyn Rule>), (5, Box::new(pick("b", "type".to_string(), "type".to_string())))],
        )))
        .generate()
        .expect("generation");
    let name = &ctx.get_previous("weapon_name").unwrap().value;
    assert!(name == "Ironaxe" || name == "Stormaxe");
    assert_eq!(ctx.get_previous("maybe").unwrap().value, "axe");
    assert_eq!(ctx.get_previous("element").unwrap().value, "axe");
    assert!(ctx.get_previous("px").is_none());
}

#[test]
fn engine_stops_at_the_first_error() {
    let c = corpus();
    let err = Engine::new(&c, StdRng::seed_from_u64(1))
        .with_rule(Box::new(pick("x", "nope".to_string(), "field".to_string())))
        .generate()
        .err()
        .unwrap();
    assert_eq!(err.to_string(), "pool not found for section 'nope', field 'field'");
    let err = Engine::new(&c, StdRng::seed_from_u64(1)).with_rule(Box::new(weighted_choice("w", vec![]))).generate().err().unwrap();
    assert_eq!(err.to_string(), "weighted choice has a total weight of 0");
    assert_eq!(AethelError::MissingDependency("k".to_string()).to_string(), "missing dependency in generation context: 'k'");
}

#[test]
fn context_records_replace_earlier_results() {
    let c = corpus();
    let mut ctx = GenerationContext::new(&c);
    assert!(ctx.get_previous("a").is_none());
    ctx.record("a".to_string(), ComposedValue { value: "one".to_string(), provenance: Vec::new() });
    ctx.record("b".to_string(), ComposedValue { value: "two".to_string(), provenance: Vec::new() });
    ctx.record("a".to_string(), ComposedValue { value: "three".to_string(), provenance: Vec::new() });
    assert_eq!(ctx.get_previous("a").unwrap().value, "three");
    assert_eq!(ctx.get_previous("b").unwrap().value, "two");
}

#[test]
fn provenance_index_keeps_first_seen_unique_refs() {
    let r1 = SourceRef { source_id: "a".to_string(), source_name: "A".to_string(), section: "s".to_string(), field: "f".to_string() };
    let r2 = SourceRef { source_id: "b".to_string(), ..r1.clone() };
    let mut index = ProvenanceCandidateIndex::new();
    assert!(!index.contains_value("x"));
    index.insert("x".to_string(), r1.clone());
    index.insert("x".to_string(), r2.clone());
    index.insert("x".to_string(), r1.clone());
    index.insert("y".to_string(), r2.clone());
    assert_eq!(index.refs_for("x"), &[r1.clone(), r2.clone()]);
    assert_eq!(index.refs_for("y"), &[r2.clone()]);
    assert!(index.refs_for("z").is_empty());
    assert!(index.contains_value("y"));
}

#[test]
fn compiled_fields_check_their_trace_root() {
    let node = TraceNode { id: "root".to_string(), kind: TraceNodeKind::Selection, label: "pick".to_string(), source_ref: None };
    let edge = TraceEdge { from: "src".to_string(), to: "root".to_string(), kind: TraceEdgeKind::DerivedFrom };
    let graph = TraceGraph::new(vec![node], vec![edge]);
    assert!(graph.has_node("root"));
    assert!(!graph.has_node("src"));
    assert_eq!(graph.edges().len(), 1);
    let r = SourceRef { source_id: "a".to_string(), source_name: "A".to_string(), section: "s".to_string(), field: "f".to_string() };
    let field = CompiledField::new("v".to_string(), vec![r.clone(), r.clone()], graph.clone(), "root".to_string()).unwrap();
    assert_eq!(field.value(), "v");
    assert_eq!(field.trace_root_id(), "root");
    assert_eq!(field.source_ids(), vec!["a"]);
    assert!(field.has_source_id("a"));
    assert!(!field.is_compiled());
    let err = CompiledField::new("v".to_string(), vec![], graph, "other".to_string()).err().unwrap();
    assert_eq!(err.to_string(), "invalid trace graph: missing root node 'other'");
    assert_eq!(err, GenerationError::InvalidTraceGraph("missing root node 'other'".to_string()));
    let pending = CompiledField::pending(3u8);
    assert_eq!(*pending.value(), 3u8);
    assert!(pending.source_refs().is_empty());
}
