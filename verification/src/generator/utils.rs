//! helpers for building and sampling compiled field candidates.

use vstd::prelude::*;

use crate::generator::{assoc_get, GeneratedField, GeneratedFieldCandidates, GenerationError, GenerationErrModel, ProvenanceCandidateIndex};
use crate::generators::{pool_entries, push_unique, refs_view, PoolEntry, PoolSlots, RefModel, SourceRef};
use crate::merge::{docs_view, AethelCorpus};
use crate::rng::roll_below;
use crate::text::owned;

verus! {

/// every listed value of the entries, in order, repeats kept.
pub open spec fn all_values(entries: Seq<PoolEntry>) -> Seq<Seq<char>>
    decreases entries.len(),
{
    if entries.len() == 0 {
        Seq::<Seq<char>>::empty()
    } else {
        all_values(entries.drop_last()) + match entries.last().2 {
            Some(vs) => vs,
            None => Seq::<Seq<char>>::empty(),
        }
    }
}

/// the references recorded for `v` after the occurrences `vs` from `r`.
pub open spec fn refs_in_list(p: Option<Seq<RefModel>>, vs: Seq<Seq<char>>, v: Seq<char>, r: RefModel) -> Option<Seq<RefModel>>
    decreases vs.len(),
{
    if vs.len() == 0 {
        p
    } else {
        let q = refs_in_list(p, vs.drop_last(), v, r);
        if vs.last() == v {
            Some(
                match q {
                    Some(rs) => push_unique(rs, r),
                    None => seq![r],
                },
            )
        } else {
            q
        }
    }
}

/// the references of every document whose list holds `v`, each once, in
/// first-seen order; `None` when no list holds it.
pub open spec fn value_refs(entries: Seq<PoolEntry>, v: Seq<char>, section: Seq<char>, field: Seq<char>) -> Option<Seq<RefModel>>
    decreases entries.len(),
{
    if entries.len() == 0 {
        None
    } else {
        let p = value_refs(entries.drop_last(), v, section, field);
        let e = entries.last();
        match e.2 {
            None => p,
            Some(vs) => refs_in_list(p, vs, v, RefModel { source_id: e.0, source_name: e.1, section, field }),
        }
    }
}

/// whether the entry's list holds `v`.
pub open spec fn lists_value(e: PoolEntry, v: Seq<char>) -> bool {
    e.2 matches Some(vs) && vs.contains(v)
}

proof fn lemma_refs_in_list(p: Option<Seq<RefModel>>, vs: Seq<Seq<char>>, v: Seq<char>, r: RefModel)
    ensures
        refs_in_list(p, vs, v, r) is Some <==> (p is Some || vs.contains(v)),
        (p matches Some(ps) ==> ps.len() > 0) ==> (refs_in_list(p, vs, v, r) matches Some(rs) ==> rs.len() > 0),
        forall|x: RefModel|
            #[trigger] refs_or_empty(refs_in_list(p, vs, v, r)).contains(x) ==> refs_or_empty(p).contains(x) || (x == r
                && vs.contains(v)),
    decreases vs.len(),
{
    if vs.len() > 0 {
        let q = refs_in_list(p, vs.drop_last(), v, r);
        lemma_refs_in_list(p, vs.drop_last(), v, r);
        assert(vs.drop_last().contains(v) ==> vs.contains(v)) by {
            if vs.drop_last().contains(v) {
                let k = choose|k: int| 0 <= k < vs.drop_last().len() && vs.drop_last()[k] == v;
                assert(vs[k] == v);
            }
        }
        assert(vs.contains(v) ==> (vs.drop_last().contains(v) || vs.last() == v)) by {
            if vs.contains(v) {
                let k = choose|k: int| 0 <= k < vs.len() && vs[k] == v;
                if k < vs.len() - 1 {
                    assert(vs.drop_last()[k] == v);
                }
            }
        }
        if vs.last() == v {
            assert(vs[vs.len() - 1] == v);
            match q {
                Some(rs) => {
                    crate::generators::lemma_push_unique(rs, r);
                },
                None => {
                    assert(seq![r][0] == r);
                    assert forall|x: RefModel| #[trigger] seq![r].contains(x) implies x == r by {
                        let k = choose|k: int| 0 <= k < 1 && seq![r][k] == x;
                    }
                },
            }
        }
        assert forall|x: RefModel| #[trigger] refs_or_empty(refs_in_list(p, vs, v, r)).contains(x) implies refs_or_empty(
            p,
        ).contains(x) || (x == r && vs.contains(v)) by {
            if vs.last() == v {
                match q {
                    Some(rs) => {
                        if x != r {
                            assert(rs.contains(x));
                            assert(refs_or_empty(q).contains(x));
                        }
                    },
                    None => {},
                }
            } else {
                assert(refs_or_empty(q).contains(x));
            }
        }
    }
}

/// the references recorded for a value name the requested section and
/// field, and each cites a document (by its id and name) whose list holds
/// the value; a value has references exactly when some document lists it,
/// and then it has at least one.
pub proof fn law_value_refs_cite_listing_documents(entries: Seq<PoolEntry>, v: Seq<char>, section: Seq<char>, field: Seq<char>)
    ensures
        value_refs(entries, v, section, field) is Some <==> exists|j: int| 0 <= j < entries.len() && #[trigger] lists_value(entries[j], v),
        value_refs(entries, v, section, field) matches Some(rs) ==> rs.len() > 0,
        forall|x: RefModel|
            #[trigger] refs_or_empty(value_refs(entries, v, section, field)).contains(x) ==> {
                &&& x.section == section
                &&& x.field == field
                &&& exists|j: int|
                    0 <= j < entries.len() && entries[j].0 == x.source_id && entries[j].1 == x.source_name && #[trigger] lists_value(
                        entries[j],
                        v,
                    )
            },
    decreases entries.len(),
{
    if entries.len() > 0 {
        let pre = entries.drop_last();
        let e = entries.last();
        law_value_refs_cite_listing_documents(pre, v, section, field);
        let p = value_refs(pre, v, section, field);
        assert forall|j: int| 0 <= j < pre.len() implies #[trigger] lists_value(pre[j], v) == lists_value(entries[j], v) by {
            assert(pre[j] == entries[j]);
        }
        match e.2 {
            None => {
                assert(!lists_value(entries[entries.len() - 1], v));
                assert((exists|j: int| 0 <= j < entries.len() && #[trigger] lists_value(entries[j], v)) ==> (exists|j: int|
                    0 <= j < pre.len() && #[trigger] lists_value(pre[j], v))) by {
                    if exists|j: int| 0 <= j < entries.len() && #[trigger] lists_value(entries[j], v) {
                        let j = choose|j: int| 0 <= j < entries.len() && #[trigger] lists_value(entries[j], v);
                        assert(j < pre.len());
                        assert(lists_value(pre[j], v));
                    }
                }
                assert forall|x: RefModel| #[trigger] refs_or_empty(value_refs(entries, v, section, field)).contains(x) implies {
                    &&& x.section == section
                    &&& x.field == field
                    &&& exists|j: int|
                        0 <= j < entries.len() && entries[j].0 == x.source_id && entries[j].1 == x.source_name && #[trigger] lists_value(
                            entries[j],
                            v,
                        )
                } by {
                    assert(refs_or_empty(p).contains(x));
                    let j = choose|j: int|
                        0 <= j < pre.len() && pre[j].0 == x.source_id && pre[j].1 == x.source_name && #[trigger] lists_value(pre[j], v);
                    assert(entries[j] == pre[j]);
                }
            },
            Some(vs) => {
                let r = RefModel { source_id: e.0, source_name: e.1, section, field };
                lemma_refs_in_list(p, vs, v, r);
                let last = entries.len() - 1;
                assert(entries[last] == e);
                assert(lists_value(entries[last], v) == vs.contains(v));
                assert((exists|j: int| 0 <= j < entries.len() && #[trigger] lists_value(entries[j], v)) <==> ((exists|j: int|
                    0 <= j < pre.len() && #[trigger] lists_value(pre[j], v)) || vs.contains(v))) by {
                    if exists|j: int| 0 <= j < entries.len() && #[trigger] lists_value(entries[j], v) {
                        let j = choose|j: int| 0 <= j < entries.len() && #[trigger] lists_value(entries[j], v);
                        if j < pre.len() {
                            assert(lists_value(pre[j], v));
                        }
                    }
                    if exists|j: int| 0 <= j < pre.len() && #[trigger] lists_value(pre[j], v) {
                        let j = choose|j: int| 0 <= j < pre.len() && #[trigger] lists_value(pre[j], v);
                        assert(lists_value(entries[j], v));
                    }
                    if vs.contains(v) {
                        assert(lists_value(entries[last], v));
                    }
                }
                assert forall|x: RefModel| #[trigger] refs_or_empty(value_refs(entries, v, section, field)).contains(x) implies {
                    &&& x.section == section
                    &&& x.field == field
                    &&& exists|j: int|
                        0 <= j < entries.len() && entries[j].0 == x.source_id && entries[j].1 == x.source_name && #[trigger] lists_value(
                            entries[j],
                            v,
                        )
                } by {
                    if refs_or_empty(p).contains(x) {
                        let j = choose|j: int|
                            0 <= j < pre.len() && pre[j].0 == x.source_id && pre[j].1 == x.source_name && #[trigger] lists_value(pre[j], v);
                        assert(entries[j] == pre[j]);
                    } else {
                        assert(x == r && vs.contains(v));
                        assert(lists_value(entries[last], v));
                    }
                }
            },
        }
    }
}

/// creates candidates for one generated field candidate pool: every value of
/// the slot's lists in corpus order, and for each value the references of the
/// documents that list it.
pub fn generated_field_builder<L: PoolSlots>(corpus: &AethelCorpus<L>, section: &str, field: &str, slot: L::Slot) -> (r: GeneratedFieldCandidates)
    ensures
        r.values_spec() == all_values(pool_entries::<L>(docs_view(corpus.documents@), slot)),
        forall|v: Seq<char>| #[trigger] r.provenance.spec_refs_for(v) == value_refs(
            pool_entries::<L>(docs_view(corpus.documents@), slot),
            v,
            section@,
            field@,
        ),
{
    let ghost es = pool_entries::<L>(docs_view(corpus.documents@), slot);
    let mut values: Vec<String> = Vec::new();
    let mut provenance = ProvenanceCandidateIndex::new();
    let mut i: usize = 0;
    proof {
        assert(es.take(0) =~= Seq::<PoolEntry>::empty());
        assert(values@.map_values(|s: String| s@) =~= Seq::<Seq<char>>::empty());
    }
    while i < corpus.documents.len()
        invariant
            i <= corpus.documents@.len(),
            es == pool_entries::<L>(docs_view(corpus.documents@), slot),
            values@.map_values(|s: String| s@) == all_values(es.take(i as int)),
            forall|v: Seq<char>| #[trigger] provenance.spec_refs_for(v) == value_refs(es.take(i as int), v, section@, field@),
        decreases corpus.documents@.len() - i,
    {
        let ghost e = es[i as int];
        let ghost pre = es.take(i as int);
        proof {
            assert(es.take(i as int + 1).drop_last() =~= pre);
            assert(es.take(i as int + 1).last() == e);
        }
        let doc = &corpus.documents[i];
        match doc.data.slot_list(slot) {
            None => {
                proof {
                    assert(values@.map_values(|s: String| s@) =~= all_values(es.take(i as int + 1)));
                }
            },
            Some(list) => {
                let ghost vs = list@.map_values(|x: String| x@);
                let ghost rm = RefModel { source_id: e.0, source_name: e.1, section: section@, field: field@ };
                let ghost base_values = values@.map_values(|s: String| s@);
                let mut k: usize = 0;
                proof {
                    assert(vs.take(0) =~= Seq::<Seq<char>>::empty());
                    assert(base_values + vs.take(0) =~= base_values);
                }
                while k < list.len()
                    invariant
                        k <= list@.len(),
                        vs == list@.map_values(|x: String| x@),
                        rm == (RefModel { source_id: doc.source_id@, source_name: doc.header.name@, section: section@, field: field@ }),
                        values@.map_values(|s: String| s@) == base_values + vs.take(k as int),
                        forall|v: Seq<char>| #[trigger] provenance.spec_refs_for(v) == refs_in_list(
                            value_refs(pre, v, section@, field@),
                            vs.take(k as int),
                            v,
                            rm,
                        ),
                    decreases list@.len() - k,
                {
                    proof {
                        assert(vs.take(k as int + 1).drop_last() =~= vs.take(k as int));
                        assert(vs.take(k as int + 1).last() == list@[k as int]@);
                    }
                    let ghost prev_values = values@;
                    let item = list[k].clone();
                    values.push(item);
                    proof {
                        assert(values@ == prev_values.push(item));
                        assert(values@.map_values(|s: String| s@) =~= prev_values.map_values(|s: String| s@).push(item@));
                        assert(vs.take(k as int + 1) =~= vs.take(k as int).push(vs[k as int]));
                        assert(values@.map_values(|s: String| s@) =~= base_values + vs.take(k as int + 1));
                    }
                    let r = SourceRef {
                        source_id: doc.source_id.clone(),
                        source_name: doc.header.name.clone(),
                        section: owned(section),
                        field: owned(field),
                    };
                    provenance.insert(list[k].clone(), r);
                    k = k + 1;
                }
                proof {
                    assert(vs.take(list@.len() as int) =~= vs);
                    assert(values@.map_values(|s: String| s@) =~= all_values(es.take(i as int + 1)));
                }
            },
        }
        i = i + 1;
    }
    proof {
        assert(es.take(corpus.documents@.len() as int) =~= es);
    }
    GeneratedFieldCandidates { values, provenance }
}

/// the references of an optional record, or none.
pub open spec fn refs_or_empty(o: Option<Seq<RefModel>>) -> Seq<RefModel> {
    match o {
        Some(rs) => rs,
        None => Seq::<RefModel>::empty(),
    }
}

/// the field for the value at `index`: that value with every reference the
/// index records for it.
pub fn select_candidate(values: &Vec<String>, index: &ProvenanceCandidateIndex, at: usize) -> (r: GeneratedField<String>)
    requires
        at < values@.len(),
    ensures
        r.value_spec()@ == values@[at as int]@,
        r.refs_spec() == refs_or_empty(index.spec_refs_for(values@[at as int]@)),
        r.compiled_spec() is None,
{
    let value = values[at].clone();
    let source_refs = crate::generators::copy_refs(index.refs_for(value.as_str()));
    GeneratedField::with_refs(value, source_refs)
}

/// samples one candidate value and returns it with all known provenance refs.
pub fn sample_generated_field(values: &Vec<String>, index: &ProvenanceCandidateIndex, rng: &mut rand::rngs::StdRng) -> (r: Result<GeneratedField<String>, GenerationError>)
    ensures
        r is Err <==> values@.len() == 0,
        r matches Err(e) ==> e@ == (GenerationErrModel::EmptyCandidates { field: "unknown"@ }),
        r matches Ok(f) ==> exists|i: int|
            0 <= i < values@.len() && f.value_spec()@ == #[trigger] values@[i]@ && f.refs_spec() == refs_or_empty(
                index.spec_refs_for(values@[i]@),
            ),
        r matches Ok(f) ==> f.compiled_spec() is None,
{
    if values.len() == 0 {
        return Err(GenerationError::EmptyCandidates { field: owned("unknown") });
    }
    let picked_index = roll_below(rng, values.len());
    Ok(select_candidate(values, index, picked_index))
}

impl GeneratedFieldCandidates {
    /// samples one generated field using the prepared values and provenance,
    /// and attaches these candidates to it under `field`.
    pub fn sample(&self, field: &str, rng: &mut rand::rngs::StdRng) -> (r: Result<GeneratedField<String>, GenerationError>)
        ensures
            r is Err <==> self.values@.len() == 0,
            r matches Err(e) ==> e@ == (GenerationErrModel::EmptyCandidates { field: field@ }),
            r matches Ok(f) ==> exists|i: int|
                0 <= i < self.values@.len() && f.value_spec()@ == #[trigger] self.values@[i]@ && f.refs_spec() == refs_or_empty(
                    self.provenance.spec_refs_for(self.values@[i]@),
                ),
            r matches Ok(f) ==> f.compiled_spec() == Some((field@, self.values_spec(), self.provenance.entries_view())),
    {
        match sample_generated_field(&self.values, &self.provenance, rng) {
            Ok(mut generated_field) => {
                generated_field.set_candidates(field, self.duplicate());
                Ok(generated_field)
            },
            Err(GenerationError::EmptyCandidates { .. }) => Err(GenerationError::EmptyCandidates { field: owned(field) }),
            Err(e) => Err(e),
        }
    }
}

impl GeneratedField<String> {
    /// re-samples this field from its own compiled candidates and returns a new value.
    pub fn regenerate_with_rng(&self, rng: &mut rand::rngs::StdRng) -> (r: Result<Self, GenerationError>)
        ensures
            self.compiled_spec() is None ==> (r matches Err(e) && e@ == GenerationErrModel::NotCompiled),
            self.compiled_spec() is None ==> *final(rng) == *old(rng),
            self.compiled_spec() matches Some((f, vs, es)) ==> {
                &&& (r is Err <==> vs.len() == 0)
                &&& (r matches Err(e) ==> e@ == (GenerationErrModel::EmptyCandidates { field: f }))
                &&& (r matches Ok(g) ==> g.compiled_spec() == self.compiled_spec() && vs.contains(g.value_spec()@))
                &&& (r matches Ok(g) ==> g.refs_spec() == refs_or_empty(assoc_get(es, g.value_spec()@)))
            },
    {
        let field = match &self.field_name {
            Some(f) => f,
            None => {
                return Err(GenerationError::NotCompiled);
            },
        };
        let candidates = match &self.compiled_candidates {
            Some(c) => c,
            None => {
                return Err(GenerationError::NotCompiled);
            },
        };
        let r = candidates.sample(field.as_str(), rng);
        proof {
            if r is Ok {
                let g = r->Ok_0;
                let i = choose|i: int| 0 <= i < candidates.values@.len() && g.value_spec()@ == #[trigger] candidates.values@[i]@
                    && g.refs_spec() == refs_or_empty(candidates.provenance.spec_refs_for(candidates.values@[i]@));
                assert(candidates.values_spec()[i] == g.value_spec()@);
            }
        }
        r
    }

    /// re-samples this field in place from its own compiled candidates; on
    /// failure the field is left as it was.
    pub fn regenerate_in_place_with_rng(&mut self, rng: &mut rand::rngs::StdRng) -> (r: Result<(), GenerationError>)
        ensures
            old(self).compiled_spec() is None ==> (r matches Err(e) && e@ == GenerationErrModel::NotCompiled),
            old(self).compiled_spec() is None ==> *final(rng) == *old(rng),
            r is Err ==> *final(self) == *old(self),
            old(self).compiled_spec() matches Some((f, vs, es)) ==> {
                &&& (r is Err <==> vs.len() == 0)
                &&& (r is Ok ==> final(self).compiled_spec() == old(self).compiled_spec() && vs.contains(final(self).value_spec()@))
                &&& (r is Ok ==> final(self).refs_spec() == refs_or_empty(assoc_get(es, final(self).value_spec()@)))
            },
    {
        let next_value = self.regenerate_with_rng(rng)?;
        *self = next_value;
        Ok(())
    }
}

} // verus!
