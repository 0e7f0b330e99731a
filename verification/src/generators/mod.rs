//! generation logic for aethel content types.
//!
//! this module exposes concrete generators that build runtime content
//! from loaded and validated aethel documents.
//! generators expose a deterministic `generate_with_rng(...)` method that
//! takes a seeded generator, for reproducible output.

pub mod generator_person;
pub mod generator_weapon;

use vstd::prelude::*;

use crate::corpus::{first_index, PendingModel, PendingSource};
use crate::merger::error::MergerError;
use crate::merger::merge_files;
use crate::merger::utils::paths_outcome;
use crate::loader::TargetedLoader;
use crate::merge::{docs_view, AethelCorpus, CorpusModel, SourceAethelDoc, SourceDocModel};
use crate::rng::choose_in;
use crate::text::{owned, str_eq};

verus! {

#[derive(Debug, Clone, PartialEq, Eq, Hash)]
/// provenance reference for one source field.
pub struct SourceRef {
    /// source id from merged corpus.
    pub source_id: String,
    /// source display name from document header.
    pub source_name: String,
    /// top-level section name in source payload.
    pub section: String,
    /// field name inside section.
    pub field: String,
}

/// the abstract value of a [`SourceRef`].
pub struct RefModel {
    pub source_id: Seq<char>,
    pub source_name: Seq<char>,
    pub section: Seq<char>,
    pub field: Seq<char>,
}

impl View for SourceRef {
    type V = RefModel;

    open spec fn view(&self) -> RefModel {
        RefModel {
            source_id: self.source_id@,
            source_name: self.source_name@,
            section: self.section@,
            field: self.field@,
        }
    }
}

impl SourceRef {
    /// a copy with the same view.
    pub fn duplicate(&self) -> (r: Self)
        ensures
            r@ == self@,
    {
        SourceRef {
            source_id: self.source_id.clone(),
            source_name: self.source_name.clone(),
            section: self.section.clone(),
            field: self.field.clone(),
        }
    }

    /// returns true when this reference points to the given section and field.
    pub fn matches(&self, section: &str, field: &str) -> (r: bool)
        ensures
            r == (self.section@ == section@ && self.field@ == field@),
    {
        str_eq(self.section.as_str(), section) && str_eq(self.field.as_str(), field)
    }

    /// whether both references name the same source, section and field.
    pub fn same_as(&self, other: &SourceRef) -> (r: bool)
        ensures
            r == (self@ == other@),
    {
        str_eq(self.source_id.as_str(), other.source_id.as_str()) && str_eq(
            self.source_name.as_str(),
            other.source_name.as_str(),
        ) && str_eq(self.section.as_str(), other.section.as_str()) && str_eq(
            self.field.as_str(),
            other.field.as_str(),
        )
    }
}

#[derive(Debug, Clone)]
/// generated field value with aggregated provenance references.
pub struct GeneratedField<T> {
    /// selected output value.
    pub value: T,
    /// all source refs that can yield this value.
    pub source_refs: Vec<SourceRef>,
}

/// the abstract value of a [`GeneratedField`].
pub struct FieldModel<V> {
    pub value: V,
    pub refs: Seq<RefModel>,
}

/// the views of a list of references.
pub open spec fn refs_view(s: Seq<SourceRef>) -> Seq<RefModel> {
    s.map_values(|r: SourceRef| r@)
}

impl<T: View> View for GeneratedField<T> {
    type V = FieldModel<T::V>;

    open spec fn view(&self) -> FieldModel<T::V> {
        FieldModel { value: self.value@, refs: refs_view(self.source_refs@) }
    }
}

/// one candidate value of a pool, with every reference that yields it.
pub type StringCandidate = GeneratedField<String>;

/// the abstract value of a candidate.
pub type CandidateModel = FieldModel<Seq<char>>;

/// the views of a pool.
pub open spec fn pool_view(s: Seq<StringCandidate>) -> Seq<CandidateModel> {
    s.map_values(|c: StringCandidate| c@)
}

/// a copy of a list of references.
pub fn copy_refs(refs: &[SourceRef]) -> (r: Vec<SourceRef>)
    ensures
        refs_view(r@) == refs_view(refs@),
{
    let mut out: Vec<SourceRef> = Vec::new();
    let mut i: usize = 0;
    while i < refs.len()
        invariant
            i <= refs@.len(),
            refs_view(out@) == refs_view(refs@).take(i as int),
        decreases refs@.len() - i,
    {
        let ghost prev = out@;
        let d = refs[i].duplicate();
        out.push(d);
        proof {
            assert(out@ == prev.push(d));
            assert(refs_view(out@) =~= refs_view(prev).push(d@));
            assert(refs_view(refs@).take(i as int + 1) =~= refs_view(refs@).take(i as int).push(refs@[i as int]@));
        }
        i = i + 1;
    }
    proof {
        assert(refs_view(refs@).take(refs@.len() as int) =~= refs_view(refs@));
    }
    out
}

impl GeneratedField<String> {
    /// a copy with the same view.
    pub fn duplicate(&self) -> (r: Self)
        ensures
            r@ == self@,
    {
        GeneratedField { value: self.value.clone(), source_refs: copy_refs(self.source_refs.as_slice()) }
    }
}

// ─── unique references ───────────────────────────────────────────────────────

/// no reference occurs twice.
pub open spec fn no_dup_refs(s: Seq<RefModel>) -> bool {
    forall|i: int, j: int| 0 <= i < j < s.len() ==> s[i] != s[j]
}

/// `refs` with `r` appended unless it is already there.
pub open spec fn push_unique(refs: Seq<RefModel>, r: RefModel) -> Seq<RefModel> {
    if refs.contains(r) {
        refs
    } else {
        refs.push(r)
    }
}

/// `refs` extended by each of `more` in order, skipping those already there.
pub open spec fn extend_unique(refs: Seq<RefModel>, more: Seq<RefModel>) -> Seq<RefModel>
    decreases more.len(),
{
    if more.len() == 0 {
        refs
    } else {
        push_unique(extend_unique(refs, more.drop_last()), more.last())
    }
}

/// appends a source ref only if it is not already present.
pub fn push_unique_source_ref(into: &mut Vec<SourceRef>, source_ref: SourceRef)
    ensures
        refs_view(final(into)@) == push_unique(refs_view(old(into)@), source_ref@),
{
    let ghost rs = refs_view(into@);
    let mut i: usize = 0;
    while i < into.len()
        invariant
            i <= into@.len(),
            rs == refs_view(into@),
            forall|j: int| 0 <= j < i ==> rs[j] != source_ref@,
        decreases into@.len() - i,
    {
        if into[i].same_as(&source_ref) {
            proof {
                assert(rs[i as int] == source_ref@);
            }
            return;
        }
        i = i + 1;
    }
    into.push(source_ref);
    proof {
        assert(refs_view(into@) =~= rs.push(source_ref@));
    }
}

/// extends source refs with uniqueness preservation.
pub fn extend_unique_source_refs(into: &mut Vec<SourceRef>, refs: &[SourceRef])
    ensures
        refs_view(final(into)@) == extend_unique(refs_view(old(into)@), refs_view(refs@)),
{
    let ghost start = refs_view(into@);
    let ghost more = refs_view(refs@);
    let mut i: usize = 0;
    proof {
        assert(more.take(0) =~= Seq::<RefModel>::empty());
    }
    while i < refs.len()
        invariant
            i <= refs@.len(),
            more == refs_view(refs@),
            refs_view(into@) == extend_unique(start, more.take(i as int)),
        decreases refs@.len() - i,
    {
        push_unique_source_ref(into, refs[i].duplicate());
        proof {
            assert(more.take(i as int + 1).drop_last() =~= more.take(i as int));
        }
        i = i + 1;
    }
    proof {
        assert(more.take(refs@.len() as int) =~= more);
    }
}

/// adding a reference keeps a duplicate-free list duplicate-free, and the
/// result holds exactly the old references and the new one.
pub proof fn lemma_push_unique(refs: Seq<RefModel>, r: RefModel)
    ensures
        no_dup_refs(refs) ==> no_dup_refs(push_unique(refs, r)),
        push_unique(refs, r).contains(r),
        forall|x: RefModel| #[trigger] push_unique(refs, r).contains(x) <==> (refs.contains(x) || x == r),
{
    if !refs.contains(r) {
        let p = refs.push(r);
        assert(p[refs.len() as int] == r);
        assert forall|x: RefModel| #[trigger] p.contains(x) <==> (refs.contains(x) || x == r) by {
            if p.contains(x) {
                let k = choose|k: int| 0 <= k < p.len() && p[k] == x;
                if k < refs.len() {
                    assert(refs[k] == x);
                }
            }
            if refs.contains(x) {
                let k = choose|k: int| 0 <= k < refs.len() && refs[k] == x;
                assert(p[k] == x);
            }
        }
        if no_dup_refs(refs) {
            assert forall|i: int, j: int| 0 <= i < j < p.len() implies p[i] != p[j] by {
                if j == refs.len() {
                    assert(p[i] == refs[i]);
                }
            }
        }
    }
}

/// extending keeps a duplicate-free list duplicate-free, and the result holds
/// exactly the references of both lists.
pub proof fn law_extend_unique(refs: Seq<RefModel>, more: Seq<RefModel>)
    ensures
        no_dup_refs(refs) ==> no_dup_refs(extend_unique(refs, more)),
        forall|x: RefModel| #[trigger] extend_unique(refs, more).contains(x) <==> (refs.contains(x) || more.contains(x)),
    decreases more.len(),
{
    if more.len() > 0 {
        law_extend_unique(refs, more.drop_last());
        lemma_push_unique(extend_unique(refs, more.drop_last()), more.last());
        assert forall|x: RefModel| #[trigger] extend_unique(refs, more).contains(x) <==> (refs.contains(x) || more.contains(x)) by {
            if more.drop_last().contains(x) {
                let k = choose|k: int| 0 <= k < more.drop_last().len() && more.drop_last()[k] == x;
                assert(more[k] == x);
            }
            if more.contains(x) && x != more.last() {
                let k = choose|k: int| 0 <= k < more.len() && more[k] == x;
                assert(more.drop_last()[k] == x);
            }
            if x == more.last() {
                assert(more[more.len() - 1] == x);
            }
        }
    }
}

// ─── candidate pools ─────────────────────────────────────────────────────────

/// a loader body whose string lists can be named by a slot.
pub trait PoolSlots: View {
    /// the names of the lists.
    type Slot: Copy;

    /// the list a slot names in a body, if the body has it.
    spec fn slot_spec(m: Self::V, s: Self::Slot) -> Option<Seq<Seq<char>>>;

    /// the list a slot names, if the body has it.
    fn slot_list(&self, s: Self::Slot) -> (r: Option<&Vec<String>>)
        ensures
            match r {
                Some(v) => Self::slot_spec(self@, s) == Some(v@.map_values(|x: String| x@)),
                None => Self::slot_spec(self@, s) is None,
            },
    ;
}

/// whether a candidate holds `v`.
pub open spec fn has_value(v: Seq<char>) -> spec_fn(CandidateModel) -> bool {
    |c: CandidateModel| c.value == v
}

/// the pool after one more occurrence of `v` from `r`: the reference joins
/// the candidate holding `v`, or a new candidate is appended.
pub open spec fn pool_add(cands: Seq<CandidateModel>, v: Seq<char>, r: RefModel) -> Seq<CandidateModel> {
    match first_index(cands, has_value(v)) {
        Some(i) => cands.update(i, FieldModel { value: cands[i].value, refs: push_unique(cands[i].refs, r) }),
        None => cands.push(FieldModel { value: v, refs: seq![r] }),
    }
}

/// the pool after the occurrences `vs` from `r`, in order.
pub open spec fn pool_add_all(cands: Seq<CandidateModel>, vs: Seq<Seq<char>>, r: RefModel) -> Seq<CandidateModel>
    decreases vs.len(),
{
    if vs.len() == 0 {
        cands
    } else {
        pool_add(pool_add_all(cands, vs.drop_last(), r), vs.last(), r)
    }
}

/// one document's contribution: its source id, its header name and its list.
pub type PoolEntry = (Seq<char>, Seq<char>, Option<Seq<Seq<char>>>);

/// the deduplicated pool that the entries give for `section` and `field`:
/// candidates in first-seen order of their values, each with the references
/// of every document whose list holds it, in first-seen order.
pub open spec fn spec_build_pool(entries: Seq<PoolEntry>, section: Seq<char>, field: Seq<char>) -> Seq<CandidateModel>
    decreases entries.len(),
{
    if entries.len() == 0 {
        Seq::<CandidateModel>::empty()
    } else {
        let p = spec_build_pool(entries.drop_last(), section, field);
        let e = entries.last();
        match e.2 {
            None => p,
            Some(vs) => pool_add_all(p, vs, RefModel { source_id: e.0, source_name: e.1, section, field }),
        }
    }
}

/// the entries of documents for one slot.
pub open spec fn pool_entries<T: PoolSlots>(ds: Seq<SourceDocModel<T::V>>, slot: T::Slot) -> Seq<PoolEntry> {
    ds.map_values(|d: SourceDocModel<T::V>| (d.source_id, d.header.name, T::slot_spec(d.data, slot)))
}

/// candidate values are distinct and no candidate lists a reference twice.
pub open spec fn pool_wf(cands: Seq<CandidateModel>) -> bool {
    &&& forall|i: int, j: int| 0 <= i < j < cands.len() ==> cands[i].value != cands[j].value
    &&& forall|i: int| 0 <= i < cands.len() ==> no_dup_refs(#[trigger] cands[i].refs)
}

proof fn lemma_pool_add_wf(cands: Seq<CandidateModel>, v: Seq<char>, r: RefModel)
    requires
        pool_wf(cands),
    ensures
        pool_wf(pool_add(cands, v, r)),
{
    match first_index(cands, has_value(v)) {
        Some(i) => {
            lemma_push_unique(cands[i].refs, r);
        },
        None => {
            let p = cands.push(FieldModel { value: v, refs: seq![r] });
            assert forall|i: int, j: int| 0 <= i < j < p.len() implies p[i].value != p[j].value by {
                if j == cands.len() {
                    if cands[i].value == v {
                        assert(has_value(v)(cands[i]));
                    }
                }
            }
            assert(no_dup_refs(seq![r]));
        },
    }
}

proof fn lemma_pool_add_all_wf(cands: Seq<CandidateModel>, vs: Seq<Seq<char>>, r: RefModel)
    requires
        pool_wf(cands),
    ensures
        pool_wf(pool_add_all(cands, vs, r)),
    decreases vs.len(),
{
    if vs.len() > 0 {
        lemma_pool_add_all_wf(cands, vs.drop_last(), r);
        lemma_pool_add_wf(pool_add_all(cands, vs.drop_last(), r), vs.last(), r);
    }
}

/// a built pool holds each value once, and each candidate lists each of its
/// references once.
pub proof fn law_build_pool_wf(entries: Seq<PoolEntry>, section: Seq<char>, field: Seq<char>)
    ensures
        pool_wf(spec_build_pool(entries, section, field)),
    decreases entries.len(),
{
    if entries.len() > 0 {
        law_build_pool_wf(entries.drop_last(), section, field);
        let e = entries.last();
        match e.2 {
            None => {},
            Some(vs) => {
                lemma_pool_add_all_wf(
                    spec_build_pool(entries.drop_last(), section, field),
                    vs,
                    RefModel { source_id: e.0, source_name: e.1, section, field },
                );
            },
        }
    }
}

/// the index of the candidate holding `v`.
fn find_value(cands: &Vec<StringCandidate>, v: &str) -> (r: Option<usize>)
    ensures
        match r {
            Some(i) => i < cands@.len() && first_index(pool_view(cands@), has_value(v@)) == Some(i as int),
            None => first_index(pool_view(cands@), has_value(v@)) is None,
        },
{
    let ghost ps = pool_view(cands@);
    let ghost p = has_value(v@);
    let mut i: usize = 0;
    while i < cands.len()
        invariant
            i <= cands@.len(),
            ps == pool_view(cands@),
            p == has_value(v@),
            forall|j: int| 0 <= j < i ==> !p(#[trigger] ps[j]),
        decreases cands@.len() - i,
    {
        if str_eq(cands[i].value.as_str(), v) {
            proof {
                assert(p(ps[i as int]));
                crate::corpus::lemma_first_index(ps, p, i as int);
            }
            return Some(i);
        }
        proof {
            assert(!p(ps[i as int]));
        }
        i = i + 1;
    }
    proof {
        crate::corpus::lemma_first_index_none(ps, p);
    }
    None
}

/// adds one occurrence of `v` from `r` to a pool.
fn add_to_pool(cands: &mut Vec<StringCandidate>, v: &String, r: SourceRef)
    ensures
        pool_view(final(cands)@) == pool_add(pool_view(old(cands)@), v@, r@),
{
    let ghost before = pool_view(cands@);
    match find_value(cands, v.as_str()) {
        Some(idx) => {
            let mut c = cands[idx].duplicate();
            push_unique_source_ref(&mut c.source_refs, r);
            cands.set(idx, c);
            proof {
                assert(pool_view(cands@) =~= before.update(
                    idx as int,
                    FieldModel { value: before[idx as int].value, refs: push_unique(before[idx as int].refs, r@) },
                ));
            }
        },
        None => {
            let mut refs: Vec<SourceRef> = Vec::new();
            refs.push(r);
            cands.push(GeneratedField { value: v.clone(), source_refs: refs });
            proof {
                assert(refs_view(cands@.last().source_refs@) =~= seq![r@]);
                assert(pool_view(cands@) =~= before.push(FieldModel { value: v@, refs: seq![r@] }));
            }
        },
    }
}

/// builds a deduplicated candidate pool for a section field across source documents.
pub fn build_pool<T: PoolSlots>(documents: &[SourceAethelDoc<T>], section: &str, field: &str, slot: T::Slot) -> (r: Vec<StringCandidate>)
    ensures
        pool_view(r@) == spec_build_pool(pool_entries::<T>(docs_view(documents@), slot), section@, field@),
        pool_wf(pool_view(r@)),
{
    let ghost es = pool_entries::<T>(docs_view(documents@), slot);
    let mut candidates: Vec<StringCandidate> = Vec::new();
    let mut i: usize = 0;
    proof {
        assert(es.take(0) =~= Seq::<PoolEntry>::empty());
        assert(pool_view(candidates@) =~= Seq::<CandidateModel>::empty());
    }
    while i < documents.len()
        invariant
            i <= documents@.len(),
            es == pool_entries::<T>(docs_view(documents@), slot),
            pool_view(candidates@) == spec_build_pool(es.take(i as int), section@, field@),
        decreases documents@.len() - i,
    {
        let ghost e = es[i as int];
        proof {
            assert(es.take(i as int + 1).drop_last() =~= es.take(i as int));
            assert(es.take(i as int + 1).last() == e);
            assert(e == (documents@[i as int].source_id@, documents@[i as int].header.name@, T::slot_spec(documents@[i as int].data@, slot)));
        }
        let doc = &documents[i];
        match doc.data.slot_list(slot) {
            None => {},
            Some(values) => {
                let ghost vs = values@.map_values(|x: String| x@);
                let ghost rm = RefModel { source_id: e.0, source_name: e.1, section: section@, field: field@ };
                let ghost base = pool_view(candidates@);
                let mut k: usize = 0;
                proof {
                    assert(vs.take(0) =~= Seq::<Seq<char>>::empty());
                }
                while k < values.len()
                    invariant
                        k <= values@.len(),
                        vs == values@.map_values(|x: String| x@),
                        rm == (RefModel { source_id: doc.source_id@, source_name: doc.header.name@, section: section@, field: field@ }),
                        pool_view(candidates@) == pool_add_all(base, vs.take(k as int), rm),
                    decreases values@.len() - k,
                {
                    let r = SourceRef {
                        source_id: doc.source_id.clone(),
                        source_name: doc.header.name.clone(),
                        section: owned(section),
                        field: owned(field),
                    };
                    add_to_pool(&mut candidates, &values[k], r);
                    proof {
                        assert(vs.take(k as int + 1).drop_last() =~= vs.take(k as int));
                        assert(vs.take(k as int + 1).last() == values@[k as int]@);
                    }
                    k = k + 1;
                }
                proof {
                    assert(vs.take(values@.len() as int) =~= vs);
                }
            },
        }
        i = i + 1;
    }
    proof {
        assert(es.take(documents@.len() as int) =~= es);
        law_build_pool_wf(es, section@, field@);
    }
    candidates
}

/// chooses one candidate from a pool: `None` exactly when the pool is empty,
/// otherwise a copy of one of its candidates.
pub fn choose_candidate(pool: &[StringCandidate], rng: &mut rand::rngs::StdRng) -> (r: Option<StringCandidate>)
    ensures
        r is None <==> pool@.len() == 0,
        r matches Some(c) ==> pool_view(pool@).contains(c@),
{
    match choose_in(pool, rng) {
        None => None,
        Some(c) => {
            let d = c.duplicate();
            proof {
                let i = choose|i: int| 0 <= i < pool@.len() && pool@[i] == *c;
                assert(pool_view(pool@)[i] == d@);
            }
            Some(d)
        },
    }
}

/// the file at `path` whose read gave `contents`: its text, or the rendered
/// read error.
pub open spec fn file_model(path: Seq<char>, contents: Result<String, String>) -> PendingModel {
    match contents {
        Ok(raw) => PendingModel::Str { name: path, raw: raw@ },
        Err(message) => PendingModel::Unreadable { path, message: message@ },
    }
}

/// generic generator contract with shared constructor and generation helpers.
pub trait Generator: Sized {
    /// loader payload type used by this generator target.
    type Loader: TargetedLoader;
    /// generated output type.
    type Output;

    /// creates a generator from a merged target corpus.
    fn new(corpus: AethelCorpus<Self::Loader>) -> Self;

    /// builds one output value using the supplied seeded generator.
    fn generate_with_rng(&self, rng: &mut rand::rngs::StdRng) -> Self::Output;

    /// creates a generator directly from source documents.
    fn from_documents(documents: Vec<SourceAethelDoc<Self::Loader>>) -> (r: Self)
        ensures
            exists|c: AethelCorpus<Self::Loader>|
                c@ == (CorpusModel { target: <Self::Loader as TargetedLoader>::target_spec(), documents: docs_view(documents@) })
                && call_ensures(Self::new, (c,), r),
    {
        let corpus = AethelCorpus { target: Self::Loader::target(), documents };
        let ghost given = corpus;
        let make = Self::new;
        let r = make(corpus);
        assert(given@ == (CorpusModel { target: <Self::Loader as TargetedLoader>::target_spec(), documents: docs_view(documents@) }));
        assert(call_ensures(Self::new, (given,), r));
        r
    }

    /// merges the file at `path`, whose read gave `contents` (the text or the
    /// rendered io error), and creates a corpus-backed generator.
    fn from_file(path: &str, contents: Result<String, String>) -> (r: Result<Self, MergerError>)
        ensures
            match paths_outcome::<Self::Loader>(seq![file_model(path@, contents)], true) {
                Err(e) => r matches Err(x) && x@ == e,
                Ok(m) => r matches Ok(g) && exists|c: AethelCorpus<Self::Loader>| c@ == m && call_ensures(Self::new, (c,), g),
            },
    {
        let source = match contents {
            Ok(raw) => PendingSource::Str { name: owned(path), raw },
            Err(message) => PendingSource::Unreadable { path: owned(path), message },
        };
        let mut files: Vec<PendingSource> = Vec::new();
        files.push(source);
        let ghost fs = seq![file_model(path@, contents)];
        assert(files@.map_values(|p: PendingSource| p@) =~= fs);
        match merge_files::<Self::Loader>(files.as_slice(), None) {
            Ok(corpus) => {
                let ghost given = corpus;
                let make = Self::new;
                let g = make(corpus);
                assert(call_ensures(Self::new, (given,), g));
                Ok(g)
            },
            Err(e) => Err(e),
        }
    }
}

} // verus!
