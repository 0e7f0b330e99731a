//! compiled generation: fields that carry their own candidates and
//! provenance, and can draw themselves again.

pub mod utils;

use vstd::prelude::*;

use crate::corpus::{first_index, PendingSource};
use crate::generators::{copy_refs, lemma_push_unique, no_dup_refs, push_unique, push_unique_source_ref, refs_view, RefModel};
use crate::loader::TargetedLoader;
use crate::merge::{docs_view, AethelCorpus, CorpusModel, SourceAethelDoc, SourceDocModel};
use crate::merger::error::{merger_error_message, MergerError};
use crate::merger::merge_files;
use crate::merger::utils::paths_outcome;
use crate::rng::roll_below;
use crate::text::{owned, push_str, str_eq};

pub use crate::generators::SourceRef;
pub use utils::generated_field_builder;

verus! {

#[derive(Debug, Clone, PartialEq, Eq)]
/// generation errors for compile and sampling paths.
pub enum GenerationError {
    /// generation state must be compiled before sampling.
    NotCompiled,
    /// one generated field has no candidates.
    EmptyCandidates { field: String },
    /// trace graph shape failed validation.
    InvalidTraceGraph(String),
    /// field builder definition is invalid.
    BuilderDefinition { field: String, reason: String },
}

/// the abstract value of a [`GenerationError`].
pub enum GenerationErrModel {
    NotCompiled,
    EmptyCandidates { field: Seq<char> },
    InvalidTraceGraph(Seq<char>),
    BuilderDefinition { field: Seq<char>, reason: Seq<char> },
}

impl View for GenerationError {
    type V = GenerationErrModel;

    open spec fn view(&self) -> GenerationErrModel {
        match self {
            GenerationError::NotCompiled => GenerationErrModel::NotCompiled,
            GenerationError::EmptyCandidates { field } => GenerationErrModel::EmptyCandidates { field: field@ },
            GenerationError::InvalidTraceGraph(m) => GenerationErrModel::InvalidTraceGraph(m@),
            GenerationError::BuilderDefinition { field, reason } => GenerationErrModel::BuilderDefinition {
                field: field@,
                reason: reason@,
            },
        }
    }
}

/// the human-readable message of a generation error.
pub open spec fn generation_error_message(e: GenerationErrModel) -> Seq<char> {
    match e {
        GenerationErrModel::NotCompiled => "generation state is not compiled"@,
        GenerationErrModel::EmptyCandidates { field } => "no candidates are available for field '"@ + field + "'"@,
        GenerationErrModel::InvalidTraceGraph(m) => "invalid trace graph: "@ + m,
        GenerationErrModel::BuilderDefinition { field, reason } => "invalid builder definition for field '"@ + field
            + "': "@ + reason,
    }
}

impl GenerationError {
    /// renders the human-readable message of this error.
    pub fn to_string(&self) -> (r: String)
        ensures
            r@ == generation_error_message(self@),
    {
        match self {
            GenerationError::NotCompiled => owned("generation state is not compiled"),
            GenerationError::EmptyCandidates { field } => {
                let mut m = owned("no candidates are available for field '");
                push_str(&mut m, field.as_str());
                push_str(&mut m, "'");
                m
            },
            GenerationError::InvalidTraceGraph(message) => {
                let mut m = owned("invalid trace graph: ");
                push_str(&mut m, message.as_str());
                m
            },
            GenerationError::BuilderDefinition { field, reason } => {
                let mut m = owned("invalid builder definition for field '");
                push_str(&mut m, field.as_str());
                push_str(&mut m, "': ");
                push_str(&mut m, reason.as_str());
                m
            },
        }
    }

    /// the error that a failed corpus merge becomes: a definition error of
    /// the `corpus` field carrying the merge error's message.
    pub fn from_merger(e: &MergerError) -> (r: Self)
        ensures
            r@ == (GenerationErrModel::BuilderDefinition { field: "corpus"@, reason: merger_error_message(e@) }),
    {
        GenerationError::BuilderDefinition { field: owned("corpus"), reason: e.to_string() }
    }
}

/// generic generation contract with shared constructors and compile lifecycle.
pub trait Generation: Sized {
    /// loader payload type used by this generator target.
    type Loader: TargetedLoader;
    /// reusable compiled state owned by implementers.
    type CompiledState;

    /// compiles a generation object from a merged target corpus.
    fn compile(corpus: AethelCorpus<Self::Loader>) -> Result<Self, GenerationError>;

    /// creates a generation object directly from source documents.
    fn from_documents(documents: Vec<SourceAethelDoc<Self::Loader>>) -> (r: Result<Self, GenerationError>)
        ensures
            exists|c: AethelCorpus<Self::Loader>|
                c@ == (CorpusModel { target: <Self::Loader as TargetedLoader>::target_spec(), documents: docs_view(documents@) })
                && call_ensures(Self::compile, (c,), r),
    {
        let corpus = AethelCorpus { target: Self::Loader::target(), documents };
        let ghost given = corpus;
        let compile = Self::compile;
        let r = compile(corpus);
        assert(given@ == (CorpusModel { target: <Self::Loader as TargetedLoader>::target_spec(), documents: docs_view(documents@) }));
        assert(call_ensures(Self::compile, (given,), r));
        r
    }

    /// merges target files (each its text or the error its read gave) and
    /// compiles a generation object from the corpus.
    fn from_files(files: &[PendingSource]) -> (r: Result<Self, GenerationError>)
        ensures
            match paths_outcome::<Self::Loader>(files@.map_values(|p: PendingSource| p@), true) {
                Err(e) => r matches Err(g) && g@ == (GenerationErrModel::BuilderDefinition {
                    field: "corpus"@,
                    reason: merger_error_message(e),
                }),
                Ok(m) => exists|c: AethelCorpus<Self::Loader>| c@ == m && call_ensures(Self::compile, (c,), r),
            },
    {
        match merge_files::<Self::Loader>(files, None) {
            Ok(corpus) => {
                let ghost given = corpus;
                let compile = Self::compile;
                let r = compile(corpus);
                assert(call_ensures(Self::compile, (given,), r));
                r
            },
            Err(e) => Err(GenerationError::from_merger(&e)),
        }
    }
}

#[derive(Debug, Clone, Copy, PartialEq, Eq, Structural)]
/// node kind used in field-level dependency graphs.
pub enum TraceNodeKind {
    Source,
    Selection,
    Transform,
}

#[derive(Debug, Clone, Copy, PartialEq, Eq, Structural)]
/// edge kind used in field-level dependency graphs.
pub enum TraceEdgeKind {
    DerivedFrom,
}

#[derive(Debug, Clone)]
/// one trace node in a generated field graph.
pub struct TraceNode {
    /// stable node id within one graph.
    pub id: String,
    /// semantic node kind.
    pub kind: TraceNodeKind,
    /// human-readable node label.
    pub label: String,
    /// optional source reference for source nodes.
    pub source_ref: Option<SourceRef>,
}

#[derive(Debug, Clone)]
/// one trace edge in a generated field graph.
pub struct TraceEdge {
    /// upstream node id.
    pub from: String,
    /// downstream node id.
    pub to: String,
    /// semantic edge kind.
    pub kind: TraceEdgeKind,
}

#[derive(Debug, Clone)]
/// structured trace graph for one generated field.
pub struct TraceGraph {
    nodes: Vec<TraceNode>,
    edges: Vec<TraceEdge>,
}

impl TraceGraph {
    /// the ids of the graph's nodes, in order.
    pub closed spec fn node_ids(&self) -> Seq<Seq<char>> {
        self.nodes@.map_values(|n: TraceNode| n.id@)
    }

    /// the graph's nodes.
    pub closed spec fn node_seq(&self) -> Seq<TraceNode> {
        self.nodes@
    }

    /// the graph's edges.
    pub closed spec fn edge_seq(&self) -> Seq<TraceEdge> {
        self.edges@
    }

    /// creates a graph from node and edge lists.
    pub fn new(nodes: Vec<TraceNode>, edges: Vec<TraceEdge>) -> (r: Self)
        ensures
            r.node_seq() == nodes@,
            r.edge_seq() == edges@,
            r.node_ids() == nodes@.map_values(|n: TraceNode| n.id@),
    {
        Self { nodes, edges }
    }

    /// a graph with no nodes and no edges.
    pub fn empty() -> (r: Self)
        ensures
            r.node_seq().len() == 0,
            r.edge_seq().len() == 0,
            r.node_ids().len() == 0,
    {
        Self { nodes: Vec::new(), edges: Vec::new() }
    }

    /// returns all nodes.
    pub fn nodes(&self) -> (r: &[TraceNode])
        ensures
            r@ == self.node_seq(),
    {
        self.nodes.as_slice()
    }

    /// returns all edges.
    pub fn edges(&self) -> (r: &[TraceEdge])
        ensures
            r@ == self.edge_seq(),
    {
        self.edges.as_slice()
    }

    /// returns true when a node id exists in the graph.
    pub fn has_node(&self, id: &str) -> (r: bool)
        ensures
            r == self.node_ids().contains(id@),
    {
        let mut i: usize = 0;
        while i < self.nodes.len()
            invariant
                i <= self.nodes@.len(),
                forall|j: int| 0 <= j < i ==> self.nodes@[j].id@ != id@,
            decreases self.nodes@.len() - i,
        {
            if str_eq(self.nodes[i].id.as_str(), id) {
                proof {
                    assert(self.node_ids()[i as int] == id@);
                }
                return true;
            }
            i = i + 1;
        }
        proof {
            if self.node_ids().contains(id@) {
                let k = choose|k: int| 0 <= k < self.node_ids().len() && self.node_ids()[k] == id@;
                assert(self.nodes@[k].id@ == id@);
            }
        }
        false
    }
}

impl Default for TraceGraph {
    fn default() -> (r: Self)
        ensures
            r.node_seq().len() == 0,
            r.edge_seq().len() == 0,
            r.node_ids().len() == 0,
    {
        TraceGraph::empty()
    }
}

// ─── provenance index ────────────────────────────────────────────────────────

#[derive(Debug)]
/// index mapping generated values to all matching provenance references.
pub struct ProvenanceCandidateIndex {
    entries: Vec<(String, Vec<SourceRef>)>,
}

/// the value of a key in an association list (first entry with the key).
pub open spec fn assoc_get(es: Seq<(Seq<char>, Seq<RefModel>)>, k: Seq<char>) -> Option<Seq<RefModel>>
    decreases es.len(),
{
    if es.len() == 0 {
        None
    } else if es[0].0 == k {
        Some(es[0].1)
    } else {
        assoc_get(es.drop_first(), k)
    }
}

/// recorded references: at least one, and none twice.
pub open spec fn refs_ok(o: Option<Seq<RefModel>>) -> bool {
    match o {
        Some(rs) => rs.len() > 0 && no_dup_refs(rs),
        None => true,
    }
}

impl ProvenanceCandidateIndex {
    /// the entries as `(value, references)` pairs.
    pub closed spec fn entries_view(&self) -> Seq<(Seq<char>, Seq<RefModel>)> {
        self.entries@.map_values(|e: (String, Vec<SourceRef>)| (e.0@, refs_view(e.1@)))
    }

    /// the references recorded for `v`, if any.
    pub open spec fn spec_refs_for(&self, v: Seq<char>) -> Option<Seq<RefModel>> {
        assoc_get(self.entries_view(), v)
    }

    /// every recorded value has at least one reference, and none twice.
    #[verifier::type_invariant]
    spec fn refs_wf(&self) -> bool {
        forall|v: Seq<char>| refs_ok(#[trigger] self.spec_refs_for(v))
    }

    /// creates an empty provenance candidate index.
    pub fn new() -> (r: Self)
        ensures
            forall|v: Seq<char>| #[trigger] r.spec_refs_for(v) is None,
    {
        let r = Self { entries: Vec::new() };
        assert(r.entries_view() =~= Seq::<(Seq<char>, Seq<RefModel>)>::empty());
        r
    }

    /// the position of the entry for `v`.
    fn position(&self, v: &str) -> (r: Option<usize>)
        ensures
            match r {
                Some(i) => i < self.entries@.len() && self.entries_view()[i as int].0 == v@
                    && self.spec_refs_for(v@) == Some(self.entries_view()[i as int].1)
                    && forall|j: int| 0 <= j < i ==> self.entries_view()[j].0 != v@,
                None => self.spec_refs_for(v@) is None,
            },
    {
        let ghost es = self.entries_view();
        let mut i: usize = 0;
        proof {
            assert(es.skip(0) =~= es);
        }
        while i < self.entries.len()
            invariant
                i <= self.entries@.len(),
                es == self.entries_view(),
                assoc_get(es, v@) == assoc_get(es.skip(i as int), v@),
                forall|j: int| 0 <= j < i ==> es[j].0 != v@,
            decreases self.entries@.len() - i,
        {
            proof {
                assert(es.skip(i as int)[0] == es[i as int]);
                assert(es.skip(i as int).drop_first() =~= es.skip(i as int + 1));
            }
            if str_eq(self.entries[i].0.as_str(), v) {
                return Some(i);
            }
            i = i + 1;
        }
        None
    }

    /// inserts one value-to-source mapping and keeps first-seen order for refs.
    pub fn insert(&mut self, value: String, source_ref: SourceRef)
        ensures
            final(self).spec_refs_for(value@) == Some(
                match old(self).spec_refs_for(value@) {
                    Some(rs) => push_unique(rs, source_ref@),
                    None => seq![source_ref@],
                },
            ),
            forall|v: Seq<char>| v != value@ ==> #[trigger] final(self).spec_refs_for(v) == old(self).spec_refs_for(v),
    {
        proof {
            use_type_invariant(&*self);
        }
        let ghost before = self.entries_view();
        let pos = self.position(value.as_str());
        let mut entries: Vec<(String, Vec<SourceRef>)> = Vec::new();
        std::mem::swap(&mut entries, &mut self.entries);
        match pos {
            Some(i) => {
                let mut refs = copy_refs(entries[i].1.as_slice());
                push_unique_source_ref(&mut refs, source_ref);
                let ghost nr = refs_view(refs@);
                entries.set(i, (value, refs));
                proof {
                    let after = entries@.map_values(|e: (String, Vec<SourceRef>)| (e.0@, refs_view(e.1@)));
                    assert(after =~= before.update(i as int, (before[i as int].0, nr)));
                    lemma_assoc_update(before, i as int, nr);
                    lemma_push_unique(before[i as int].1, source_ref@);
                    assert forall|v: Seq<char>| refs_ok(#[trigger] assoc_get(after, v)) by {
                        if v != before[i as int].0 {
                            assert(old(self).spec_refs_for(v) == assoc_get(before, v));
                        } else {
                            assert(old(self).spec_refs_for(v) == assoc_get(before, v));
                        }
                    }
                }
                self.entries = entries;
            },
            None => {
                let ghost r = source_ref@;
                let mut refs: Vec<SourceRef> = Vec::new();
                refs.push(source_ref);
                let ghost k = value@;
                entries.push((value, refs));
                proof {
                    let after = entries@.map_values(|e: (String, Vec<SourceRef>)| (e.0@, refs_view(e.1@)));
                    assert(refs_view(refs@) =~= seq![r]);
                    assert(after =~= before.push((k, seq![r])));
                    lemma_assoc_push(before, (k, seq![r]));
                    assert(no_dup_refs(seq![r]));
                    assert forall|v: Seq<char>| refs_ok(#[trigger] assoc_get(after, v)) by {
                        if v != k {
                            assert(old(self).spec_refs_for(v) == assoc_get(before, v));
                        }
                    }
                }
                self.entries = entries;
            },
        }
    }

    /// returns all provenance refs for one candidate value.
    pub fn refs_for(&self, value: &str) -> (r: &[SourceRef])
        ensures
            refs_view(r@) == match self.spec_refs_for(value@) {
                Some(rs) => rs,
                None => Seq::<RefModel>::empty(),
            },
            self.spec_refs_for(value@) is Some <==> refs_view(r@).len() > 0,
            no_dup_refs(refs_view(r@)),
    {
        proof {
            use_type_invariant(self);
        }
        match self.position(value) {
            Some(i) => self.entries[i].1.as_slice(),
            None => {
                let e: &[SourceRef] = &[];
                assert(refs_view(e@) =~= Seq::<RefModel>::empty());
                e
            },
        }
    }

    /// returns true when the index contains at least one mapping for a value.
    pub fn contains_value(&self, value: &str) -> (r: bool)
        ensures
            r == self.spec_refs_for(value@) is Some,
    {
        self.position(value).is_some()
    }
}

impl Clone for ProvenanceCandidateIndex {
    /// a copy with the same entries.
    fn clone(&self) -> (r: Self)
        ensures
            r.entries_view() == self.entries_view(),
    {
        self.duplicate()
    }
}

impl Default for ProvenanceCandidateIndex {
    fn default() -> (r: Self)
        ensures
            forall|v: Seq<char>| #[trigger] r.spec_refs_for(v) is None,
    {
        Self::new()
    }
}

/// a changed value at the first entry of its key changes only that key.
proof fn lemma_assoc_update(es: Seq<(Seq<char>, Seq<RefModel>)>, i: int, nr: Seq<RefModel>)
    requires
        0 <= i < es.len(),
        forall|j: int| 0 <= j < i ==> es[j].0 != es[i].0,
    ensures
        assoc_get(es.update(i, (es[i].0, nr)), es[i].0) == Some(nr),
        forall|v: Seq<char>| v != es[i].0 ==> #[trigger] assoc_get(es.update(i, (es[i].0, nr)), v) == assoc_get(es, v),
    decreases i,
{
    let u = es.update(i, (es[i].0, nr));
    if i == 0 {
        assert(u.drop_first() =~= es.drop_first());
        assert forall|v: Seq<char>| v != es[i].0 implies #[trigger] assoc_get(u, v) == assoc_get(es, v) by {
            assert(u[0].0 == es[0].0);
            assert(assoc_get(u, v) == assoc_get(u.drop_first(), v));
            assert(assoc_get(es, v) == assoc_get(es.drop_first(), v));
        }
    } else {
        assert(u.drop_first() =~= es.drop_first().update(i - 1, (es[i].0, nr)));
        assert(es.drop_first()[i - 1] == es[i]);
        assert forall|j: int| 0 <= j < i - 1 implies (#[trigger] es.drop_first()[j]).0 != es.drop_first()[i - 1].0 by {
            assert(es.drop_first()[j] == es[j + 1]);
        }
        lemma_assoc_update(es.drop_first(), i - 1, nr);
        assert(u[0] == es[0]);
        assert(es[0].0 != es[i].0);
        assert forall|v: Seq<char>| v != es[i].0 implies #[trigger] assoc_get(u, v) == assoc_get(es, v) by {
            assert(u[0] == es[0]);
            if es[0].0 != v {
                assert(assoc_get(u, v) == assoc_get(u.drop_first(), v));
                assert(assoc_get(es, v) == assoc_get(es.drop_first(), v));
                assert(assoc_get(es.drop_first().update(i - 1, (es[i].0, nr)), v) == assoc_get(es.drop_first(), v));
            }
        }
    }
}

/// an entry appended under a new key adds just that key.
proof fn lemma_assoc_push(es: Seq<(Seq<char>, Seq<RefModel>)>, e: (Seq<char>, Seq<RefModel>))
    requires
        assoc_get(es, e.0) is None,
    ensures
        assoc_get(es.push(e), e.0) == Some(e.1),
        forall|v: Seq<char>| v != e.0 ==> #[trigger] assoc_get(es.push(e), v) == assoc_get(es, v),
    decreases es.len(),
{
    let u = es.push(e);
    if es.len() == 0 {
        assert(u.drop_first() =~= Seq::<(Seq<char>, Seq<RefModel>)>::empty());
        assert forall|v: Seq<char>| v != e.0 implies #[trigger] assoc_get(u, v) == assoc_get(es, v) by {
            assert(u[0] == e);
            assert(assoc_get(u, v) == assoc_get(u.drop_first(), v));
            assert(assoc_get(u.drop_first(), v) is None);
        }
    } else {
        assert(u.drop_first() =~= es.drop_first().push(e));
        assert(u[0] == es[0]);
        lemma_assoc_push(es.drop_first(), e);
        assert forall|v: Seq<char>| v != e.0 implies #[trigger] assoc_get(u, v) == assoc_get(es, v) by {
            assert(u[0] == es[0]);
            if es[0].0 != v {
                assert(assoc_get(u, v) == assoc_get(u.drop_first(), v));
                assert(assoc_get(es, v) == assoc_get(es.drop_first(), v));
                assert(assoc_get(es.drop_first().push(e), v) == assoc_get(es.drop_first(), v));
            }
        }
    }
}

} // verus!

verus! {

impl ProvenanceCandidateIndex {
    /// a copy with the same entries.
    pub fn duplicate(&self) -> (r: Self)
        ensures
            r.entries_view() == self.entries_view(),
    {
        let mut entries: Vec<(String, Vec<SourceRef>)> = Vec::new();
        let mut i: usize = 0;
        while i < self.entries.len()
            invariant
                i <= self.entries@.len(),
                entries@.map_values(|e: (String, Vec<SourceRef>)| (e.0@, refs_view(e.1@))) == self.entries_view().take(i as int),
            decreases self.entries@.len() - i,
        {
            let ghost prev = entries@;
            let e = (self.entries[i].0.clone(), copy_refs(self.entries[i].1.as_slice()));
            entries.push(e);
            proof {
                assert(entries@ == prev.push(e));
                assert(entries@.map_values(|e: (String, Vec<SourceRef>)| (e.0@, refs_view(e.1@))) =~= prev.map_values(
                    |e: (String, Vec<SourceRef>)| (e.0@, refs_view(e.1@)),
                ).push((e.0@, refs_view(e.1@))));
                assert(self.entries_view()[i as int] == (e.0@, refs_view(e.1@)));
                assert(self.entries_view().take(i as int + 1) =~= self.entries_view().take(i as int).push(
                    self.entries_view()[i as int],
                ));
            }
            i = i + 1;
        }
        proof {
            assert(self.entries_view().take(self.entries@.len() as int) =~= self.entries_view());
            use_type_invariant(self);
        }
        proof {
            let ev = entries@.map_values(|e: (String, Vec<SourceRef>)| (e.0@, refs_view(e.1@)));
            assert(ev == self.entries_view());
            assert forall|v: Seq<char>| refs_ok(#[trigger] assoc_get(ev, v)) by {
                assert(self.spec_refs_for(v) == assoc_get(ev, v));
            }
        }
        ProvenanceCandidateIndex { entries }
    }
}

#[derive(Debug, Clone)]
/// prepared candidates and provenance index for one generated output field.
pub struct GeneratedFieldCandidates {
    /// candidate values used for sampling.
    pub values: Vec<String>,
    /// value-to-provenance lookup built from source documents.
    pub provenance: ProvenanceCandidateIndex,
}

impl GeneratedFieldCandidates {
    /// the candidate values.
    pub open spec fn values_spec(&self) -> Seq<Seq<char>> {
        self.values@.map_values(|s: String| s@)
    }

    /// a copy with the same values and provenance.
    pub fn duplicate(&self) -> (r: Self)
        ensures
            r.values_spec() == self.values_spec(),
            r.provenance.entries_view() == self.provenance.entries_view(),
    {
        GeneratedFieldCandidates { values: crate::corpus::types::copy_strings(&self.values), provenance: self.provenance.duplicate() }
    }
}

#[derive(Debug, Clone)]
/// generated field value with aggregated provenance references.
pub struct GeneratedField<T> {
    value: T,
    source_refs: Vec<SourceRef>,
    trace_graph: TraceGraph,
    trace_root_id: String,
    field_name: Option<String>,
    compiled_candidates: Option<GeneratedFieldCandidates>,
}

/// the ids of the references, each once, in first-seen order.
pub open spec fn distinct_ids(refs: Seq<RefModel>) -> Seq<Seq<char>>
    decreases refs.len(),
{
    if refs.len() == 0 {
        Seq::<Seq<char>>::empty()
    } else {
        let p = distinct_ids(refs.drop_last());
        if p.contains(refs.last().source_id) {
            p
        } else {
            p.push(refs.last().source_id)
        }
    }
}

/// the paths of the documents whose id some reference names, in document
/// order.
pub open spec fn cited_paths<M>(refs: Seq<RefModel>, ds: Seq<SourceDocModel<M>>) -> Seq<Seq<char>>
    decreases ds.len(),
{
    if ds.len() == 0 {
        Seq::<Seq<char>>::empty()
    } else {
        let p = cited_paths(refs, ds.drop_last());
        if exists|k: int| 0 <= k < refs.len() && #[trigger] refs[k].source_id == ds.last().source_id {
            p.push(ds.last().source_path)
        } else {
            p
        }
    }
}

/// the message for a root id that names no node.
pub open spec fn missing_root_message(root: Seq<char>) -> Seq<char> {
    "missing root node '"@ + root + "'"@
}

impl<T> GeneratedField<T> {
    /// the selected value.
    pub closed spec fn value_spec(&self) -> T {
        self.value
    }

    /// the provenance references.
    pub closed spec fn refs_spec(&self) -> Seq<RefModel> {
        refs_view(self.source_refs@)
    }

    /// the trace graph.
    pub closed spec fn graph_spec(&self) -> TraceGraph {
        self.trace_graph
    }

    /// the trace root id.
    pub closed spec fn root_spec(&self) -> Seq<char> {
        self.trace_root_id@
    }

    /// the attached field name and candidates, if compiled.
    pub closed spec fn compiled_spec(&self) -> Option<(Seq<char>, Seq<Seq<char>>, Seq<(Seq<char>, Seq<RefModel>)>)> {
        match (self.field_name, self.compiled_candidates) {
            (Some(f), Some(c)) => Some((f@, c.values_spec(), c.provenance.entries_view())),
            _ => None,
        }
    }

    /// creates one generated field with validated trace metadata: the root
    /// id must name a node of the graph.
    pub fn new(value: T, source_refs: Vec<SourceRef>, trace_graph: TraceGraph, trace_root_id: String) -> (r: Result<Self, GenerationError>)
        ensures
            trace_graph.node_ids().contains(trace_root_id@) <==> r is Ok,
            r matches Err(e) ==> e@ == GenerationErrModel::InvalidTraceGraph(missing_root_message(trace_root_id@)),
            r matches Ok(f) ==> {
                &&& f.value_spec() == value
                &&& f.refs_spec() == refs_view(source_refs@)
                &&& f.graph_spec() == trace_graph
                &&& f.root_spec() == trace_root_id@
                &&& f.compiled_spec() is None
            },
    {
        if !trace_graph.has_node(trace_root_id.as_str()) {
            let mut m = owned("missing root node '");
            push_str(&mut m, trace_root_id.as_str());
            push_str(&mut m, "'");
            return Err(GenerationError::InvalidTraceGraph(m));
        }
        Ok(Self { value, source_refs, trace_graph, trace_root_id, field_name: None, compiled_candidates: None })
    }

    /// creates a default uncompiled generated field value.
    pub fn pending(value: T) -> (r: Self)
        ensures
            r.value_spec() == value,
            r.refs_spec().len() == 0,
            r.graph_spec().node_ids().len() == 0,
            r.graph_spec().edge_seq().len() == 0,
            r.root_spec().len() == 0,
            r.compiled_spec() is None,
    {
        Self::with_refs(value, Vec::new())
    }

    /// a field holding a selected value and its references, with an empty
    /// trace graph and no candidates.
    pub fn with_refs(value: T, source_refs: Vec<SourceRef>) -> (r: Self)
        ensures
            r.value_spec() == value,
            r.refs_spec() == refs_view(source_refs@),
            r.graph_spec().node_ids().len() == 0,
            r.graph_spec().edge_seq().len() == 0,
            r.root_spec().len() == 0,
            r.compiled_spec() is None,
    {
        let r = Self {
            value,
            source_refs,
            trace_graph: TraceGraph::empty(),
            trace_root_id: String::new(),
            field_name: None,
            compiled_candidates: None,
        };
        r
    }

    /// attaches compiled candidates to this field for self-managed re-sampling.
    pub fn set_candidates(&mut self, field: &str, candidates: GeneratedFieldCandidates)
        ensures
            final(self).compiled_spec() == Some((field@, candidates.values_spec(), candidates.provenance.entries_view())),
            final(self).value_spec() == old(self).value_spec(),
            final(self).refs_spec() == old(self).refs_spec(),
            final(self).graph_spec() == old(self).graph_spec(),
            final(self).root_spec() == old(self).root_spec(),
    {
        self.field_name = Some(owned(field));
        self.compiled_candidates = Some(candidates);
    }

    /// returns true when this field has compiled candidates attached.
    pub fn is_compiled(&self) -> (r: bool)
        ensures
            r == self.compiled_spec() is Some,
    {
        self.field_name.is_some() && self.compiled_candidates.is_some()
    }

    /// returns the selected output value.
    pub fn value(&self) -> (r: &T)
        ensures
            *r == self.value_spec(),
    {
        &self.value
    }

    /// returns all provenance references attached to this value.
    pub fn source_refs(&self) -> (r: &[SourceRef])
        ensures
            refs_view(r@) == self.refs_spec(),
    {
        self.source_refs.as_slice()
    }

    /// returns true when provenance contains the given source id.
    pub fn has_source_id(&self, source_id: &str) -> (r: bool)
        ensures
            r == exists|i: int| 0 <= i < self.refs_spec().len() && #[trigger] self.refs_spec()[i].source_id == source_id@,
    {
        let mut i: usize = 0;
        while i < self.source_refs.len()
            invariant
                i <= self.source_refs@.len(),
                forall|j: int| 0 <= j < i ==> self.source_refs@[j].source_id@ != source_id@,
            decreases self.source_refs@.len() - i,
        {
            if str_eq(self.source_refs[i].source_id.as_str(), source_id) {
                proof {
                    assert(self.refs_spec()[i as int].source_id == source_id@);
                }
                return true;
            }
            i = i + 1;
        }
        proof {
            if exists|k: int| 0 <= k < self.refs_spec().len() && #[trigger] self.refs_spec()[k].source_id == source_id@ {
                let k = choose|k: int| 0 <= k < self.refs_spec().len() && #[trigger] self.refs_spec()[k].source_id == source_id@;
                assert(self.source_refs@[k].source_id@ == source_id@);
            }
        }
        false
    }

    /// returns distinct source ids in first-seen order.
    pub fn source_ids(&self) -> (r: Vec<&str>)
        ensures
            r@.map_values(|s: &str| s@) == distinct_ids(self.refs_spec()),
    {
        let ghost rs = self.refs_spec();
        let mut ids: Vec<&str> = Vec::new();
        let mut i: usize = 0;
        proof {
            assert(rs.take(0) =~= Seq::<RefModel>::empty());
            assert(ids@.map_values(|s: &str| s@) =~= Seq::<Seq<char>>::empty());
        }
        while i < self.source_refs.len()
            invariant
                i <= self.source_refs@.len(),
                rs == self.refs_spec(),
                ids@.map_values(|s: &str| s@) == distinct_ids(rs.take(i as int)),
            decreases self.source_refs@.len() - i,
        {
            proof {
                assert(rs.take(i as int + 1).drop_last() =~= rs.take(i as int));
                assert(rs.take(i as int + 1).last() == rs[i as int]);
            }
            let id = self.source_refs[i].source_id.as_str();
            let ghost before = ids@.map_values(|s: &str| s@);
            let mut seen = false;
            let mut k: usize = 0;
            while k < ids.len()
                invariant
                    k <= ids@.len(),
                    before == ids@.map_values(|s: &str| s@),
                    seen == exists|j: int| 0 <= j < k && before[j] == id@,
                decreases ids@.len() - k,
            {
                if str_eq(ids[k], id) {
                    seen = true;
                }
                proof {
                    assert(before[k as int] == ids@[k as int]@);
                }
                k = k + 1;
            }
            proof {
                if before.contains(id@) {
                    let j = choose|j: int| 0 <= j < before.len() && before[j] == id@;
                    assert(exists|j2: int| 0 <= j2 < k && before[j2] == id@);
                }
                if seen {
                    let j = choose|j: int| 0 <= j < k && before[j] == id@;
                    assert(before.contains(id@));
                }
            }
            if !seen {
                ids.push(id);
                proof {
                    assert(ids@.map_values(|s: &str| s@) =~= before.push(id@));
                }
            }
            i = i + 1;
        }
        proof {
            assert(rs.take(self.source_refs@.len() as int) =~= rs);
        }
        ids
    }

    /// resolves source ids in this generated field into source paths in corpus order.
    pub fn source_paths_in<'a, U: View>(&self, corpus: &'a AethelCorpus<U>) -> (r: Vec<&'a str>)
        ensures
            r@.map_values(|s: &str| s@) == cited_paths(self.refs_spec(), docs_view(corpus.documents@)),
    {
        let ghost ds = docs_view(corpus.documents@);
        let mut source_paths: Vec<&'a str> = Vec::new();
        let mut i: usize = 0;
        proof {
            assert(ds.take(0) =~= Seq::<SourceDocModel<U::V>>::empty());
            assert(source_paths@.map_values(|s: &str| s@) =~= Seq::<Seq<char>>::empty());
        }
        while i < corpus.documents.len()
            invariant
                i <= corpus.documents@.len(),
                ds == docs_view(corpus.documents@),
                source_paths@.map_values(|s: &str| s@) == cited_paths(self.refs_spec(), ds.take(i as int)),
            decreases corpus.documents@.len() - i,
        {
            proof {
                assert(ds.take(i as int + 1).drop_last() =~= ds.take(i as int));
                assert(ds.take(i as int + 1).last() == corpus.documents@[i as int]@);
            }
            let ghost before = source_paths@.map_values(|s: &str| s@);
            let d = &corpus.documents[i];
            if self.has_source_id(d.source_id.as_str()) {
                source_paths.push(d.source_path.as_str());
                proof {
                    assert(source_paths@.map_values(|s: &str| s@) =~= before.push(d.source_path@));
                }
            }
            i = i + 1;
        }
        proof {
            assert(ds.take(corpus.documents@.len() as int) =~= ds);
        }
        source_paths
    }

    /// returns the dependency trace graph for this field.
    pub fn trace_graph(&self) -> (r: &TraceGraph)
        ensures
            *r == self.graph_spec(),
    {
        &self.trace_graph
    }

    /// returns the trace root node id for this field.
    pub fn trace_root_id(&self) -> (r: &str)
        ensures
            r@ == self.root_spec(),
    {
        self.trace_root_id.as_str()
    }
}

} // verus!
