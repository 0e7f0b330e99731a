//! person generation logic backed by corpus-aware primitive indexing.

use vstd::prelude::*;

use crate::generators::generator_weapon::{draw_segment, lemma_join_three, lemma_join_two, list_ref, segment_possible, segment_view};
use crate::generators::{
    build_pool, extend_unique, extend_unique_source_refs, pool_entries, pool_view,
    spec_build_pool, CandidateModel, FieldModel, GeneratedField, Generator, PoolSlots, RefModel,
    SourceRef, StringCandidate,
};
use crate::loader::loader_person::{PersonLoader, PersonModel};
use crate::merge::{docs_view, AethelCorpus, SourceDocModel};
use crate::text::{join_spaced, join_with_spaces, owned};

verus! {

#[derive(Clone, Copy)]
/// the string lists of a person body.
pub enum PersonSlot {
    First,
    Middle,
    Last,
}

impl PoolSlots for PersonLoader {
    type Slot = PersonSlot;

    open spec fn slot_spec(m: PersonModel, s: PersonSlot) -> Option<Seq<Seq<char>>> {
        match m.name {
            None => None,
            Some(n) => match s {
                PersonSlot::First => n.first,
                PersonSlot::Middle => n.middle,
                PersonSlot::Last => n.last,
            },
        }
    }

    fn slot_list(&self, s: PersonSlot) -> (r: Option<&Vec<String>>) {
        match &self.name {
            None => None,
            Some(n) => match s {
                PersonSlot::First => list_ref(&n.first),
                PersonSlot::Middle => list_ref(&n.middle),
                PersonSlot::Last => list_ref(&n.last),
            },
        }
    }
}

/// the field name of a slot (every person slot is in the `[name]` section).
pub open spec fn person_field(s: PersonSlot) -> Seq<char> {
    match s {
        PersonSlot::First => "first"@,
        PersonSlot::Middle => "middle"@,
        PersonSlot::Last => "last"@,
    }
}

/// the pool that documents give for a slot.
pub open spec fn person_pool_of(ds: Seq<SourceDocModel<PersonModel>>, s: PersonSlot) -> Seq<CandidateModel> {
    spec_build_pool(pool_entries::<PersonLoader>(ds, s), "name"@, person_field(s))
}

/// indexed primitive pools used for person name sampling.
pub struct PersonCandidateIndex {
    first_primitives: Vec<StringCandidate>,
    middle_primitives: Vec<StringCandidate>,
    last_primitives: Vec<StringCandidate>,
}

impl PersonCandidateIndex {
    /// the pool held for a slot.
    pub closed spec fn pool(&self, s: PersonSlot) -> Seq<CandidateModel> {
        pool_view(
            match s {
                PersonSlot::First => self.first_primitives,
                PersonSlot::Middle => self.middle_primitives,
                PersonSlot::Last => self.last_primitives,
            }@,
        )
    }

    /// builds candidate pools from source person documents.
    pub fn from_documents(documents: &[crate::merge::SourceAethelDoc<PersonLoader>]) -> (r: Self)
        ensures
            forall|s: PersonSlot| #[trigger] r.pool(s) == person_pool_of(docs_view(documents@), s),
    {
        let r = PersonCandidateIndex {
            first_primitives: build_pool(documents, "name", "first", PersonSlot::First),
            middle_primitives: build_pool(documents, "name", "middle", PersonSlot::Middle),
            last_primitives: build_pool(documents, "name", "last", PersonSlot::Last),
        };
        assert forall|s: PersonSlot| #[trigger] r.pool(s) == person_pool_of(docs_view(documents@), s) by {
            match s {
                PersonSlot::First => {},
                PersonSlot::Middle => {},
                PersonSlot::Last => {},
            }
        }
        r
    }
}

/// a segment, or the fallback text with no references.
pub open spec fn segment_or(seg: Option<(Seq<char>, Seq<RefModel>)>, fallback: Seq<char>) -> (Seq<char>, Seq<RefModel>) {
    match seg {
        Some(s) => s,
        None => (fallback, Seq::<RefModel>::empty()),
    }
}

/// the person name: first (or `nam`), the middle segment if any, and last
/// (or `less`), joined by spaces, with their references in that order.
pub open spec fn spec_person_name(
    first: Option<(Seq<char>, Seq<RefModel>)>,
    middle: Option<(Seq<char>, Seq<RefModel>)>,
    last: Option<(Seq<char>, Seq<RefModel>)>,
) -> FieldModel<Seq<char>> {
    let f = segment_or(first, "nam"@);
    let l = segment_or(last, "less"@);
    let m_parts = match middle { Some(m) => seq![m.0], None => Seq::<Seq<char>>::empty() };
    let r0 = extend_unique(Seq::<RefModel>::empty(), f.1);
    let r1 = match middle { Some(m) => extend_unique(r0, m.1), None => r0 };
    FieldModel { value: join_spaced((seq![f.0] + m_parts).push(l.0)), refs: extend_unique(r1, l.1) }
}

/// composes the person name from its drawn segments.
pub fn compose_person_name(
    first: Option<(String, Vec<SourceRef>)>,
    middle: Option<(String, Vec<SourceRef>)>,
    last: Option<(String, Vec<SourceRef>)>,
) -> (r: GeneratedField<String>)
    ensures
        r@ == spec_person_name(segment_view(first), segment_view(middle), segment_view(last)),
{
    let ghost f = segment_or(segment_view(first), "nam"@);
    let ghost l = segment_or(segment_view(last), "less"@);
    let ghost mv = segment_view(middle);
    let ghost m_parts = match mv { Some(m) => seq![m.0], None => Seq::<Seq<char>>::empty() };
    let (first_text, first_refs) = match first {
        Some(s) => s,
        None => (owned("nam"), Vec::new()),
    };
    let (last_text, last_refs) = match last {
        Some(s) => s,
        None => (owned("less"), Vec::new()),
    };
    proof {
        assert(crate::generators::refs_view(first_refs@) =~= f.1);
        assert(crate::generators::refs_view(last_refs@) =~= l.1);
    }
    let mut parts: Vec<String> = Vec::new();
    let mut source_refs: Vec<SourceRef> = Vec::new();
    parts.push(first_text);
    proof {
        assert(crate::generators::refs_view(source_refs@) =~= Seq::<RefModel>::empty());
    }
    extend_unique_source_refs(&mut source_refs, first_refs.as_slice());
    let ghost r0 = crate::generators::refs_view(source_refs@);
    match middle {
        Some((middle_text, middle_refs)) => {
            parts.push(middle_text);
            extend_unique_source_refs(&mut source_refs, middle_refs.as_slice());
        },
        None => {},
    }
    proof {
        assert(parts@.map_values(|s: String| s@) =~= seq![f.0] + m_parts);
    }
    let ghost mid = parts@.map_values(|s: String| s@);
    parts.push(last_text);
    extend_unique_source_refs(&mut source_refs, last_refs.as_slice());
    proof {
        assert(parts@.map_values(|s: String| s@) =~= mid.push(l.0));
    }
    GeneratedField { value: join_with_spaces(&parts), source_refs }
}

/// the person name is the first segment (or `nam`), then a space and the
/// middle segment when there is one, then a space and the last segment (or
/// `less`); it cites exactly the references of the three segments.
pub proof fn law_person_name_parts(
    first: Option<(Seq<char>, Seq<RefModel>)>,
    middle: Option<(Seq<char>, Seq<RefModel>)>,
    last: Option<(Seq<char>, Seq<RefModel>)>,
)
    ensures
        spec_person_name(first, middle, last).value == segment_or(first, "nam"@).0 + (match middle {
            Some(m) => seq![' '] + m.0,
            None => Seq::<char>::empty(),
        }) + seq![' '] + segment_or(last, "less"@).0,
        forall|x: RefModel|
            #[trigger] spec_person_name(first, middle, last).refs.contains(x) <==> (segment_or(first, "nam"@).1.contains(x)
                || (middle matches Some(m) && m.1.contains(x)) || segment_or(last, "less"@).1.contains(x)),
{
    let f = segment_or(first, "nam"@);
    let l = segment_or(last, "less"@);
    match middle {
        Some(m) => {
            assert((seq![f.0] + seq![m.0]).push(l.0) =~= seq![f.0, m.0, l.0]);
            lemma_join_three(f.0, m.0, l.0);
            assert(f.0 + seq![' '] + m.0 + seq![' '] + l.0 =~= f.0 + (seq![' '] + m.0) + seq![' '] + l.0);
        },
        None => {
            assert((seq![f.0] + Seq::<Seq<char>>::empty()).push(l.0) =~= seq![f.0, l.0]);
            lemma_join_two(f.0, l.0);
            assert(f.0 + seq![' '] + l.0 =~= f.0 + Seq::<char>::empty() + seq![' '] + l.0);
        },
    }
    crate::generators::law_extend_unique(Seq::<RefModel>::empty(), f.1);
    let r0 = extend_unique(Seq::<RefModel>::empty(), f.1);
    if let Some(m) = middle {
        crate::generators::law_extend_unique(r0, m.1);
    }
    let r1 = match middle {
        Some(m) => extend_unique(r0, m.1),
        None => r0,
    };
    crate::generators::law_extend_unique(r1, l.1);
}

/// what a drawn person name can be: first, middle and last segments of two
/// to four primitives each, drawn from their pools, composed as
/// [`spec_person_name`].
pub open spec fn person_name_possible(index: PersonCandidateIndex, n: FieldModel<Seq<char>>) -> bool {
    exists|f: Option<(Seq<char>, Seq<RefModel>)>, m: Option<(Seq<char>, Seq<RefModel>)>, l: Option<(Seq<char>, Seq<RefModel>)>|
        #![trigger spec_person_name(f, m, l)]
        segment_possible(index.pool(PersonSlot::First), f, 2, 4) && segment_possible(index.pool(PersonSlot::Middle), m, 2, 4)
            && segment_possible(index.pool(PersonSlot::Last), l, 2, 4) && n == spec_person_name(f, m, l)
}

/// a generated person name begins with its first segment and ends with a
/// space and its last segment, each drawn from its own pool; the middle
/// segment, when drawn from the middle pool, stands between them.
pub proof fn law_generated_person_name_order(index: PersonCandidateIndex, n: FieldModel<Seq<char>>)
    requires
        person_name_possible(index, n),
    ensures
        exists|f: Option<(Seq<char>, Seq<RefModel>)>, m: Option<(Seq<char>, Seq<RefModel>)>, l: Option<(Seq<char>, Seq<RefModel>)>|
            #![trigger segment_or(f, "nam"@), segment_or(l, "less"@), segment_possible(index.pool(PersonSlot::Middle), m, 2, 4)]
            segment_possible(index.pool(PersonSlot::First), f, 2, 4) && segment_possible(index.pool(PersonSlot::Middle), m, 2, 4)
                && segment_possible(index.pool(PersonSlot::Last), l, 2, 4) && n.value == segment_or(f, "nam"@).0 + (match m {
                Some(x) => seq![' '] + x.0,
                None => Seq::<char>::empty(),
            }) + seq![' '] + segment_or(l, "less"@).0,
{
    let (f, m, l) = choose|f: Option<(Seq<char>, Seq<RefModel>)>, m: Option<(Seq<char>, Seq<RefModel>)>, l: Option<(Seq<char>, Seq<RefModel>)>|
        #![trigger spec_person_name(f, m, l)]
        segment_possible(index.pool(PersonSlot::First), f, 2, 4) && segment_possible(index.pool(PersonSlot::Middle), m, 2, 4)
            && segment_possible(index.pool(PersonSlot::Last), l, 2, 4) && n == spec_person_name(f, m, l);
    law_person_name_parts(f, m, l);
    assert(segment_or(f, "nam"@) == segment_or(f, "nam"@) && segment_or(l, "less"@) == segment_or(l, "less"@));
}

#[derive(Debug)]
/// generated person payload containing assembled fields.
pub struct GeneratedPerson {
    /// assembled display name.
    pub name: GeneratedField<String>,
}

/// person generator backed by a merged person corpus.
pub struct PersonGenerator {
    index: PersonCandidateIndex,
}

impl PersonGenerator {
    /// the candidate pools this generator draws from.
    pub closed spec fn index_spec(&self) -> PersonCandidateIndex {
        self.index
    }
}

impl Generator for PersonGenerator {
    type Loader = PersonLoader;
    type Output = GeneratedPerson;

    /// creates a generator from a merged person corpus.
    fn new(corpus: AethelCorpus<PersonLoader>) -> (r: Self)
        ensures
            forall|s: PersonSlot| #[trigger] r.index_spec().pool(s) == person_pool_of(docs_view(corpus.documents@), s),
    {
        let index = PersonCandidateIndex::from_documents(corpus.documents.as_slice());
        Self { index }
    }

    /// builds a single generated person using an injected rng.
    fn generate_with_rng(&self, rng: &mut rand::rngs::StdRng) -> (r: GeneratedPerson)
        ensures
            person_name_possible(self.index_spec(), r.name@),
    {
        let first = draw_segment(&self.index.first_primitives, 2, 4, rng);
        let middle = draw_segment(&self.index.middle_primitives, 2, 4, rng);
        let last = draw_segment(&self.index.last_primitives, 2, 4, rng);
        let ghost f = segment_view(first);
        let ghost m = segment_view(middle);
        let ghost l = segment_view(last);
        let name = compose_person_name(first, middle, last);
        proof {
            assert(segment_possible(self.index.pool(PersonSlot::First), f, 2, 4));
            assert(segment_possible(self.index.pool(PersonSlot::Middle), m, 2, 4));
            assert(segment_possible(self.index.pool(PersonSlot::Last), l, 2, 4));
            assert(name@ == spec_person_name(f, m, l));
        }
        GeneratedPerson { name }
    }
}

} // verus!
