//! weapon generation logic backed by corpus-aware candidate indexing.

use vstd::prelude::*;

use crate::generators::{
    build_pool, choose_candidate, extend_unique, extend_unique_source_refs, pool_entries,
    pool_view, pool_wf, refs_view, spec_build_pool, CandidateModel, FieldModel, GeneratedField,
    Generator, PoolSlots, RefModel, SourceRef, StringCandidate,
};
use crate::loader::loader_weapon::{WeaponLoader, WeaponModel};
use crate::merge::{docs_view, AethelCorpus, SourceAethelDoc, SourceDocModel};
use crate::rng::roll_inclusive;
use crate::text::{capitalize, capitalized, join_spaced, join_with_spaces, owned, push_str, replace_all, replace_text};
use crate::toml_model::opt_list_view;

verus! {

// ─── slots ───────────────────────────────────────────────────────────────────

#[derive(Clone, Copy)]
/// the string lists of a weapon body.
pub enum WeaponSlot {
    NamePrefix,
    NameSuffix,
    NamePrimitives,
    Types,
    Rarity,
    Condition,
    LoreTemplates,
    LoreCreators,
    LoreDeeds,
    LoreQuirks,
    VisualTemplates,
    VisualMaterials,
    VisualColours,
    VisualAccents,
    VisualFeatures,
}

/// a reference to the list an optional list holds.
pub fn list_ref(o: &Option<Vec<String>>) -> (r: Option<&Vec<String>>)
    ensures
        match r {
            Some(v) => opt_list_view(*o) == Some(v@.map_values(|x: String| x@)),
            None => opt_list_view(*o) is None,
        },
{
    match o {
        Some(v) => Some(v),
        None => None,
    }
}

impl PoolSlots for WeaponLoader {
    type Slot = WeaponSlot;

    open spec fn slot_spec(m: WeaponModel, s: WeaponSlot) -> Option<Seq<Seq<char>>> {
        match s {
            WeaponSlot::NamePrefix => match m.name { Some(x) => x.prefix, None => None },
            WeaponSlot::NameSuffix => match m.name { Some(x) => x.suffix, None => None },
            WeaponSlot::NamePrimitives => match m.name { Some(x) => x.primitives, None => None },
            WeaponSlot::Types => match m.weapon_type { Some(x) => x.types, None => None },
            WeaponSlot::Rarity => match m.qualities { Some(x) => x.rarity, None => None },
            WeaponSlot::Condition => match m.qualities { Some(x) => x.condition, None => None },
            WeaponSlot::LoreTemplates => match m.lore { Some(x) => x.templates, None => None },
            WeaponSlot::LoreCreators => match m.lore { Some(x) => x.creators, None => None },
            WeaponSlot::LoreDeeds => match m.lore { Some(x) => x.deeds, None => None },
            WeaponSlot::LoreQuirks => match m.lore { Some(x) => x.quirks, None => None },
            WeaponSlot::VisualTemplates => match m.visuals { Some(x) => x.templates, None => None },
            WeaponSlot::VisualMaterials => match m.visuals { Some(x) => x.materials, None => None },
            WeaponSlot::VisualColours => match m.visuals { Some(x) => x.colours, None => None },
            WeaponSlot::VisualAccents => match m.visuals { Some(x) => x.accents, None => None },
            WeaponSlot::VisualFeatures => match m.visuals { Some(x) => x.features, None => None },
        }
    }

    fn slot_list(&self, s: WeaponSlot) -> (r: Option<&Vec<String>>) {
        match s {
            WeaponSlot::NamePrefix => match &self.name { Some(x) => list_ref(&x.prefix), None => None },
            WeaponSlot::NameSuffix => match &self.name { Some(x) => list_ref(&x.suffix), None => None },
            WeaponSlot::NamePrimitives => match &self.name { Some(x) => list_ref(&x.primitives), None => None },
            WeaponSlot::Types => match &self.weapon_type { Some(x) => list_ref(&x.types), None => None },
            WeaponSlot::Rarity => match &self.qualities { Some(x) => list_ref(&x.rarity), None => None },
            WeaponSlot::Condition => match &self.qualities { Some(x) => list_ref(&x.condition), None => None },
            WeaponSlot::LoreTemplates => match &self.lore { Some(x) => list_ref(&x.templates), None => None },
            WeaponSlot::LoreCreators => match &self.lore { Some(x) => list_ref(&x.creators), None => None },
            WeaponSlot::LoreDeeds => match &self.lore { Some(x) => list_ref(&x.deeds), None => None },
            WeaponSlot::LoreQuirks => match &self.lore { Some(x) => list_ref(&x.quirks), None => None },
            WeaponSlot::VisualTemplates => match &self.visuals { Some(x) => list_ref(&x.templates), None => None },
            WeaponSlot::VisualMaterials => match &self.visuals { Some(x) => list_ref(&x.materials), None => None },
            WeaponSlot::VisualColours => match &self.visuals { Some(x) => list_ref(&x.colours), None => None },
            WeaponSlot::VisualAccents => match &self.visuals { Some(x) => list_ref(&x.accents), None => None },
            WeaponSlot::VisualFeatures => match &self.visuals { Some(x) => list_ref(&x.features), None => None },
        }
    }
}

// ─── composing text ──────────────────────────────────────────────────────────

/// the values of the parts run together.
pub open spec fn concat_values(parts: Seq<CandidateModel>) -> Seq<char>
    decreases parts.len(),
{
    if parts.len() == 0 {
        Seq::<char>::empty()
    } else {
        concat_values(parts.drop_last()) + parts.last().value
    }
}

/// the references of the parts, each once, in first-seen order.
pub open spec fn union_refs(parts: Seq<CandidateModel>) -> Seq<RefModel>
    decreases parts.len(),
{
    if parts.len() == 0 {
        Seq::<RefModel>::empty()
    } else {
        extend_unique(union_refs(parts.drop_last()), parts.last().refs)
    }
}

/// a segment made of the parts: their values run together with the first
/// character made upper case, and their references; `None` when the values
/// are all empty.
pub open spec fn spec_segment(parts: Seq<CandidateModel>) -> Option<(Seq<char>, Seq<RefModel>)> {
    if concat_values(parts).len() == 0 {
        None
    } else {
        Some((capitalized(concat_values(parts)), union_refs(parts)))
    }
}

/// the view of a composed segment.
pub open spec fn segment_view(o: Option<(String, Vec<SourceRef>)>) -> Option<(Seq<char>, Seq<RefModel>)> {
    match o {
        Some((s, r)) => Some((s@, refs_view(r@))),
        None => None,
    }
}

/// composes a segment from drawn parts.
pub fn compose_segment(parts: &Vec<StringCandidate>) -> (r: Option<(String, Vec<SourceRef>)>)
    ensures
        segment_view(r) == spec_segment(pool_view(parts@)),
{
    let ghost ps = pool_view(parts@);
    let mut text = String::new();
    let mut refs: Vec<SourceRef> = Vec::new();
    let mut i: usize = 0;
    proof {
        assert(ps.take(0) =~= Seq::<CandidateModel>::empty());
    }
    while i < parts.len()
        invariant
            i <= parts@.len(),
            ps == pool_view(parts@),
            text@ == concat_values(ps.take(i as int)),
            refs_view(refs@) == union_refs(ps.take(i as int)),
        decreases parts@.len() - i,
    {
        proof {
            assert(ps.take(i as int + 1).drop_last() =~= ps.take(i as int));
            assert(ps.take(i as int + 1).last() == parts@[i as int]@);
        }
        push_str(&mut text, parts[i].value.as_str());
        extend_unique_source_refs(&mut refs, parts[i].source_refs.as_slice());
        i = i + 1;
    }
    proof {
        assert(ps.take(parts@.len() as int) =~= ps);
    }
    if text.as_str().unicode_len() == 0 {
        None
    } else {
        Some((capitalize(text.as_str()), refs))
    }
}

/// every part was drawn from the pool.
pub open spec fn drawn_from(parts: Seq<CandidateModel>, pool: Seq<CandidateModel>) -> bool {
    forall|i: int| 0 <= i < parts.len() ==> pool.contains(#[trigger] parts[i])
}

/// what a segment drawn from `pool` can be: nothing for an empty pool,
/// otherwise the segment of between `lo` and `hi` parts drawn from it.
pub open spec fn segment_possible(pool: Seq<CandidateModel>, seg: Option<(Seq<char>, Seq<RefModel>)>, lo: int, hi: int) -> bool {
    if pool.len() == 0 {
        seg is None
    } else {
        exists|parts: Seq<CandidateModel>|
            lo <= parts.len() <= hi && drawn_from(parts, pool) && #[trigger] spec_segment(parts) == seg
    }
}

/// draws between `lo` and `hi` parts from the pool and composes them.
pub fn draw_segment(pool: &Vec<StringCandidate>, lo: i32, hi: i32, rng: &mut rand::rngs::StdRng) -> (r: Option<(String, Vec<SourceRef>)>)
    requires
        0 <= lo <= hi,
    ensures
        segment_possible(pool_view(pool@), segment_view(r), lo as int, hi as int),
{
    if pool.len() == 0 {
        return None;
    }
    let part_count = roll_inclusive(rng, lo, hi);
    let mut parts: Vec<StringCandidate> = Vec::new();
    let mut k: i32 = 0;
    while k < part_count
        invariant
            0 <= k <= part_count,
            pool@.len() > 0,
            parts@.len() == k,
            drawn_from(pool_view(parts@), pool_view(pool@)),
        decreases part_count - k,
    {
        match choose_candidate(pool.as_slice(), rng) {
            Some(part) => {
                let ghost prev = pool_view(parts@);
                parts.push(part);
                proof {
                    assert(pool_view(parts@) =~= prev.push(part@));
                    assert forall|i: int| 0 <= i < pool_view(parts@).len() implies pool_view(pool@).contains(
                        #[trigger] pool_view(parts@)[i],
                    ) by {
                        if i < prev.len() {
                            assert(pool_view(parts@)[i] == prev[i]);
                        }
                    }
                }
            },
            None => {},
        }
        k = k + 1;
    }
    let r = compose_segment(&parts);
    proof {
        assert(spec_segment(pool_view(parts@)) == segment_view(r));
    }
    r
}

/// the view of an optional candidate.
pub open spec fn cand_view(o: Option<StringCandidate>) -> Option<CandidateModel> {
    match o {
        Some(c) => Some(c@),
        None => None,
    }
}

/// what a draw from `pool` can be: nothing exactly for an empty pool,
/// otherwise one of its candidates.
pub open spec fn pick_possible(pool: Seq<CandidateModel>, o: Option<CandidateModel>) -> bool {
    &&& (o is None <==> pool.len() == 0)
    &&& (o matches Some(c) ==> pool.contains(c))
}

/// the value of an optional candidate, as zero or one parts.
pub open spec fn value_parts(o: Option<CandidateModel>) -> Seq<Seq<char>> {
    match o {
        Some(c) => seq![c.value],
        None => Seq::<Seq<char>>::empty(),
    }
}

/// the weapon name: the prefix, the core (or `weapon` when there is none)
/// and the suffix, joined by spaces, with the references of each in that order.
pub open spec fn spec_weapon_name(
    prefix: Option<CandidateModel>,
    core: Option<(Seq<char>, Seq<RefModel>)>,
    suffix: Option<CandidateModel>,
) -> FieldModel<Seq<char>> {
    let (core_text, core_refs) = match core {
        Some(c) => c,
        None => ("weapon"@, Seq::<RefModel>::empty()),
    };
    let p_parts = value_parts(prefix);
    let s_parts = value_parts(suffix);
    let r0 = match prefix { Some(p) => extend_unique(Seq::<RefModel>::empty(), p.refs), None => Seq::<RefModel>::empty() };
    let r1 = extend_unique(r0, core_refs);
    let r2 = match suffix { Some(s) => extend_unique(r1, s.refs), None => r1 };
    FieldModel { value: join_spaced(p_parts.push(core_text) + s_parts), refs: r2 }
}

/// two parts joined by a space.
pub(crate) proof fn lemma_join_two(a: Seq<char>, b: Seq<char>)
    ensures
        join_spaced(seq![a, b]) == a + seq![' '] + b,
{
    assert(seq![a, b].drop_last() =~= seq![a]);
    assert(join_spaced(seq![a]) == a);
    assert(a.push(' ') + b =~= a + seq![' '] + b);
}

/// three parts joined by spaces.
pub(crate) proof fn lemma_join_three(a: Seq<char>, b: Seq<char>, c: Seq<char>)
    ensures
        join_spaced(seq![a, b, c]) == a + seq![' '] + b + seq![' '] + c,
{
    assert(seq![a, b, c].drop_last() =~= seq![a, b]);
    lemma_join_two(a, b);
    assert((a + seq![' '] + b).push(' ') + c =~= a + seq![' '] + b + seq![' '] + c);
}

/// the weapon name is the prefix value and a space (when a prefix was
/// drawn), then the core (or `weapon`), then a space and the suffix value
/// (when a suffix was drawn); it cites exactly the references of the drawn
/// prefix, core and suffix.
pub proof fn law_weapon_name_parts(
    prefix: Option<CandidateModel>,
    core: Option<(Seq<char>, Seq<RefModel>)>,
    suffix: Option<CandidateModel>,
)
    ensures
        spec_weapon_name(prefix, core, suffix).value == (match prefix {
            Some(p) => p.value + seq![' '],
            None => Seq::<char>::empty(),
        }) + (match core {
            Some(c) => c.0,
            None => "weapon"@,
        }) + (match suffix {
            Some(x) => seq![' '] + x.value,
            None => Seq::<char>::empty(),
        }),
        forall|x: RefModel|
            #[trigger] spec_weapon_name(prefix, core, suffix).refs.contains(x) <==> ((prefix matches Some(p) && p.refs.contains(x))
                || (core matches Some(c) && c.1.contains(x)) || (suffix matches Some(q) && q.refs.contains(x))),
{
    let core_text = match core {
        Some(c) => c.0,
        None => "weapon"@,
    };
    let core_refs = match core {
        Some(c) => c.1,
        None => Seq::<RefModel>::empty(),
    };
    let parts = value_parts(prefix).push(core_text) + value_parts(suffix);
    match (prefix, suffix) {
        (Some(p), Some(q)) => {
            assert(parts =~= seq![p.value, core_text, q.value]);
            lemma_join_three(p.value, core_text, q.value);
            assert(p.value + seq![' '] + core_text + seq![' '] + q.value =~= p.value + seq![' '] + core_text + (seq![' '] + q.value));
        },
        (Some(p), None) => {
            assert(parts =~= seq![p.value, core_text]);
            lemma_join_two(p.value, core_text);
            assert(p.value + seq![' '] + core_text =~= p.value + seq![' '] + core_text + Seq::<char>::empty());
        },
        (None, Some(q)) => {
            assert(parts =~= seq![core_text, q.value]);
            lemma_join_two(core_text, q.value);
            assert(core_text + seq![' '] + q.value =~= Seq::<char>::empty() + core_text + (seq![' '] + q.value));
        },
        (None, None) => {
            assert(parts =~= seq![core_text]);
            assert(core_text =~= Seq::<char>::empty() + core_text + Seq::<char>::empty());
        },
    }
    let r0 = match prefix {
        Some(p) => extend_unique(Seq::<RefModel>::empty(), p.refs),
        None => Seq::<RefModel>::empty(),
    };
    if let Some(p) = prefix {
        crate::generators::law_extend_unique(Seq::<RefModel>::empty(), p.refs);
    }
    crate::generators::law_extend_unique(r0, core_refs);
    let r1 = extend_unique(r0, core_refs);
    if let Some(q) = suffix {
        crate::generators::law_extend_unique(r1, q.refs);
    }
}

/// composes the weapon name from its drawn pieces.
pub fn compose_weapon_name(
    prefix: Option<StringCandidate>,
    core: Option<(String, Vec<SourceRef>)>,
    suffix: Option<StringCandidate>,
) -> (r: GeneratedField<String>)
    ensures
        r@ == spec_weapon_name(cand_view(prefix), segment_view(core), cand_view(suffix)),
{
    let ghost core_pair = match segment_view(core) {
        Some(c) => c,
        None => ("weapon"@, Seq::<RefModel>::empty()),
    };
    let ghost r0 = match cand_view(prefix) {
        Some(p) => extend_unique(Seq::<RefModel>::empty(), p.refs),
        None => Seq::<RefModel>::empty(),
    };
    let (core_text, core_refs) = match core {
        Some(c) => c,
        None => (owned("weapon"), Vec::new()),
    };
    proof {
        assert(core_text@ == core_pair.0);
        assert(refs_view(core_refs@) =~= core_pair.1);
    }
    let mut parts: Vec<String> = Vec::new();
    let mut source_refs: Vec<SourceRef> = Vec::new();
    let ghost p_parts = value_parts(cand_view(prefix));
    let ghost s_parts = value_parts(cand_view(suffix));
    match prefix {
        Some(GeneratedField { value, source_refs: more }) => {
            proof {
                assert(refs_view(source_refs@) =~= Seq::<RefModel>::empty());
            }
            parts.push(value);
            extend_unique_source_refs(&mut source_refs, more.as_slice());
        },
        None => {},
    }
    proof {
        assert(parts@.map_values(|s: String| s@) =~= p_parts);
        assert(refs_view(source_refs@) =~= r0);
    }
    let ghost r1_parts = p_parts.push(core_text@);
    let ghost r1 = extend_unique(r0, core_pair.1);
    parts.push(core_text);
    extend_unique_source_refs(&mut source_refs, core_refs.as_slice());
    proof {
        assert(parts@.map_values(|s: String| s@) =~= r1_parts);
        assert(refs_view(source_refs@) == r1);
    }
    match suffix {
        Some(GeneratedField { value, source_refs: more }) => {
            parts.push(value);
            extend_unique_source_refs(&mut source_refs, more.as_slice());
        },
        None => {},
    }
    proof {
        assert(parts@.map_values(|s: String| s@) =~= r1_parts + s_parts);
    }
    GeneratedField { value: join_with_spaces(&parts), source_refs }
}

/// the text of a template with each placeholder replaced in turn by its
/// fill, and the template's references extended by each fill's, in order.
pub open spec fn spec_fill(template: CandidateModel, fills: Seq<(Seq<char>, Seq<char>, Seq<RefModel>)>) -> FieldModel<Seq<char>>
    decreases fills.len(),
{
    if fills.len() == 0 {
        template
    } else {
        let p = spec_fill(template, fills.drop_last());
        let f = fills.last();
        FieldModel { value: replace_all(p.value, f.0, f.1), refs: extend_unique(p.refs, f.2) }
    }
}

/// the view of template fills.
pub open spec fn fills_view(v: Seq<(&str, String, Vec<SourceRef>)>) -> Seq<(Seq<char>, Seq<char>, Seq<RefModel>)> {
    v.map_values(|f: (&str, String, Vec<SourceRef>)| (f.0@, f.1@, refs_view(f.2@)))
}

/// fills a template: each placeholder replaced in turn, references merged.
pub fn fill_template(template: StringCandidate, fills: &Vec<(&str, String, Vec<SourceRef>)>) -> (r: GeneratedField<String>)
    requires
        forall|i: int| 0 <= i < fills@.len() ==> (#[trigger] fills@[i]).0@.len() > 0,
    ensures
        r@ == spec_fill(template@, fills_view(fills@)),
{
    let ghost fs = fills_view(fills@);
    let ghost t = template@;
    let mut value = template.value;
    let mut source_refs = template.source_refs;
    let mut i: usize = 0;
    proof {
        assert(fs.take(0) =~= Seq::<(Seq<char>, Seq<char>, Seq<RefModel>)>::empty());
    }
    while i < fills.len()
        invariant
            i <= fills@.len(),
            fs == fills_view(fills@),
            forall|j: int| 0 <= j < fills@.len() ==> (#[trigger] fills@[j]).0@.len() > 0,
            spec_fill(t, fs.take(i as int)) == (FieldModel { value: value@, refs: refs_view(source_refs@) }),
        decreases fills@.len() - i,
    {
        proof {
            assert(fs.take(i as int + 1).drop_last() =~= fs.take(i as int));
            assert(fs.take(i as int + 1).last() == fs[i as int]);
            assert(fills@[i as int].0@.len() > 0);
        }
        value = replace_text(value.as_str(), fills[i].0, fills[i].1.as_str());
        extend_unique_source_refs(&mut source_refs, fills[i].2.as_slice());
        i = i + 1;
    }
    proof {
        assert(fs.take(fills@.len() as int) =~= fs);
    }
    GeneratedField { value, source_refs }
}

/// a drawn optional text: the candidate's value and references, or empty.
pub open spec fn optional_text(o: Option<CandidateModel>) -> (Seq<char>, Seq<RefModel>) {
    match o {
        Some(c) => (c.value, c.refs),
        None => (Seq::<char>::empty(), Seq::<RefModel>::empty()),
    }
}

/// chooses optional text and returns an empty fallback when no candidates exist.
fn choose_optional_text(pool: &Vec<StringCandidate>, rng: &mut rand::rngs::StdRng) -> (r: (String, Vec<SourceRef>))
    ensures
        exists|o: Option<CandidateModel>| #[trigger] pick_possible(pool_view(pool@), o) && optional_text(o) == (r.0@, refs_view(r.1@)),
{
    let c = choose_candidate(pool.as_slice(), rng);
    proof {
        assert(pick_possible(pool_view(pool@), cand_view(c)));
    }
    match c {
        Some(candidate) => (candidate.value, candidate.source_refs),
        None => (String::new(), Vec::new()),
    }
}

} // verus!

verus! {

// ─── the candidate index ─────────────────────────────────────────────────────

/// the `(section, field)` names of a slot.
pub open spec fn slot_names(s: WeaponSlot) -> (Seq<char>, Seq<char>) {
    match s {
        WeaponSlot::NamePrefix => ("name"@, "prefix"@),
        WeaponSlot::NameSuffix => ("name"@, "suffix"@),
        WeaponSlot::NamePrimitives => ("name"@, "primitives"@),
        WeaponSlot::Types => ("type"@, "type"@),
        WeaponSlot::Rarity => ("qualities"@, "rarity"@),
        WeaponSlot::Condition => ("qualities"@, "condition"@),
        WeaponSlot::LoreTemplates => ("lore"@, "templates"@),
        WeaponSlot::LoreCreators => ("lore"@, "creators"@),
        WeaponSlot::LoreDeeds => ("lore"@, "deeds"@),
        WeaponSlot::LoreQuirks => ("lore"@, "quirks"@),
        WeaponSlot::VisualTemplates => ("visuals"@, "templates"@),
        WeaponSlot::VisualMaterials => ("visuals"@, "materials"@),
        WeaponSlot::VisualColours => ("visuals"@, "colours"@),
        WeaponSlot::VisualAccents => ("visuals"@, "accents"@),
        WeaponSlot::VisualFeatures => ("visuals"@, "features"@),
    }
}

/// the pool that documents give for a slot.
pub open spec fn weapon_pool_of(ds: Seq<SourceDocModel<WeaponModel>>, s: WeaponSlot) -> Seq<CandidateModel> {
    spec_build_pool(pool_entries::<WeaponLoader>(ds, s), slot_names(s).0, slot_names(s).1)
}

/// indexed candidate pools used for weapon field sampling.
pub struct WeaponCandidateIndex {
    name_prefix: Vec<StringCandidate>,
    name_suffix: Vec<StringCandidate>,
    name_primitives: Vec<StringCandidate>,
    weapon_types: Vec<StringCandidate>,
    rarity: Vec<StringCandidate>,
    condition: Vec<StringCandidate>,
    lore_templates: Vec<StringCandidate>,
    lore_creators: Vec<StringCandidate>,
    lore_deeds: Vec<StringCandidate>,
    lore_quirks: Vec<StringCandidate>,
    visual_templates: Vec<StringCandidate>,
    visual_materials: Vec<StringCandidate>,
    visual_colours: Vec<StringCandidate>,
    visual_accents: Vec<StringCandidate>,
    visual_features: Vec<StringCandidate>,
}

impl WeaponCandidateIndex {
    /// the pool held for a slot.
    pub closed spec fn pool(&self, s: WeaponSlot) -> Seq<CandidateModel> {
        pool_view(
            match s {
                WeaponSlot::NamePrefix => self.name_prefix,
                WeaponSlot::NameSuffix => self.name_suffix,
                WeaponSlot::NamePrimitives => self.name_primitives,
                WeaponSlot::Types => self.weapon_types,
                WeaponSlot::Rarity => self.rarity,
                WeaponSlot::Condition => self.condition,
                WeaponSlot::LoreTemplates => self.lore_templates,
                WeaponSlot::LoreCreators => self.lore_creators,
                WeaponSlot::LoreDeeds => self.lore_deeds,
                WeaponSlot::LoreQuirks => self.lore_quirks,
                WeaponSlot::VisualTemplates => self.visual_templates,
                WeaponSlot::VisualMaterials => self.visual_materials,
                WeaponSlot::VisualColours => self.visual_colours,
                WeaponSlot::VisualAccents => self.visual_accents,
                WeaponSlot::VisualFeatures => self.visual_features,
            }@,
        )
    }

    /// builds all candidate pools from source weapon documents.
    pub fn from_documents(documents: &[SourceAethelDoc<WeaponLoader>]) -> (r: Self)
        ensures
            forall|s: WeaponSlot| #[trigger] r.pool(s) == weapon_pool_of(docs_view(documents@), s),
    {
        let r = WeaponCandidateIndex {
            name_prefix: build_pool(documents, "name", "prefix", WeaponSlot::NamePrefix),
            name_suffix: build_pool(documents, "name", "suffix", WeaponSlot::NameSuffix),
            name_primitives: build_pool(documents, "name", "primitives", WeaponSlot::NamePrimitives),
            weapon_types: build_pool(documents, "type", "type", WeaponSlot::Types),
            rarity: build_pool(documents, "qualities", "rarity", WeaponSlot::Rarity),
            condition: build_pool(documents, "qualities", "condition", WeaponSlot::Condition),
            lore_templates: build_pool(documents, "lore", "templates", WeaponSlot::LoreTemplates),
            lore_creators: build_pool(documents, "lore", "creators", WeaponSlot::LoreCreators),
            lore_deeds: build_pool(documents, "lore", "deeds", WeaponSlot::LoreDeeds),
            lore_quirks: build_pool(documents, "lore", "quirks", WeaponSlot::LoreQuirks),
            visual_templates: build_pool(documents, "visuals", "templates", WeaponSlot::VisualTemplates),
            visual_materials: build_pool(documents, "visuals", "materials", WeaponSlot::VisualMaterials),
            visual_colours: build_pool(documents, "visuals", "colours", WeaponSlot::VisualColours),
            visual_accents: build_pool(documents, "visuals", "accents", WeaponSlot::VisualAccents),
            visual_features: build_pool(documents, "visuals", "features", WeaponSlot::VisualFeatures),
        };
        assert forall|s: WeaponSlot| #[trigger] r.pool(s) == weapon_pool_of(docs_view(documents@), s) by {
            match s {
                WeaponSlot::NamePrefix => {},
                WeaponSlot::NameSuffix => {},
                WeaponSlot::NamePrimitives => {},
                WeaponSlot::Types => {},
                WeaponSlot::Rarity => {},
                WeaponSlot::Condition => {},
                WeaponSlot::LoreTemplates => {},
                WeaponSlot::LoreCreators => {},
                WeaponSlot::LoreDeeds => {},
                WeaponSlot::LoreQuirks => {},
                WeaponSlot::VisualTemplates => {},
                WeaponSlot::VisualMaterials => {},
                WeaponSlot::VisualColours => {},
                WeaponSlot::VisualAccents => {},
                WeaponSlot::VisualFeatures => {},
            }
        }
        r
    }
}

// ─── drawing a weapon ────────────────────────────────────────────────────────

/// what a drawn name can be: a prefix, a core of three to five primitives
/// and a suffix, each drawn from its pool, composed as [`spec_weapon_name`].
pub open spec fn name_possible(index: WeaponCandidateIndex, n: FieldModel<Seq<char>>) -> bool {
    exists|p: Option<CandidateModel>, c: Option<(Seq<char>, Seq<RefModel>)>, s: Option<CandidateModel>|
        #![trigger spec_weapon_name(p, c, s)]
        pick_possible(index.pool(WeaponSlot::NamePrefix), p) && pick_possible(index.pool(WeaponSlot::NameSuffix), s)
            && segment_possible(index.pool(WeaponSlot::NamePrimitives), c, 3, 5) && n == spec_weapon_name(p, c, s)
}

/// a generated weapon name starts with a value of the prefix pool and a
/// space when that pool is not empty, and ends with a space and a value of
/// the suffix pool when that pool is not empty.
pub proof fn law_generated_name_has_prefix_and_suffix(index: WeaponCandidateIndex, n: FieldModel<Seq<char>>)
    requires
        name_possible(index, n),
    ensures
        index.pool(WeaponSlot::NamePrefix).len() > 0 ==> exists|p: CandidateModel|
            #[trigger] index.pool(WeaponSlot::NamePrefix).contains(p) && n.value.take(p.value.len() as int + 1) == p.value.push(' '),
        index.pool(WeaponSlot::NameSuffix).len() > 0 ==> exists|q: CandidateModel|
            #[trigger] index.pool(WeaponSlot::NameSuffix).contains(q) && n.value.skip(n.value.len() - q.value.len() - 1)
                == seq![' '] + q.value,
{
    let (p, c, s) = choose|p: Option<CandidateModel>, c: Option<(Seq<char>, Seq<RefModel>)>, s: Option<CandidateModel>|
        #![trigger spec_weapon_name(p, c, s)]
        pick_possible(index.pool(WeaponSlot::NamePrefix), p) && pick_possible(index.pool(WeaponSlot::NameSuffix), s)
            && segment_possible(index.pool(WeaponSlot::NamePrimitives), c, 3, 5) && n == spec_weapon_name(p, c, s);
    law_weapon_name_parts(p, c, s);
    let head = match p {
        Some(x) => x.value + seq![' '],
        None => Seq::<char>::empty(),
    };
    let mid = match c {
        Some(x) => x.0,
        None => "weapon"@,
    };
    let tail = match s {
        Some(x) => seq![' '] + x.value,
        None => Seq::<char>::empty(),
    };
    assert(n.value == head + mid + tail);
    if let Some(x) = p {
        assert(n.value.take(x.value.len() as int + 1) =~= x.value.push(' '));
    }
    if let Some(x) = s {
        assert(n.value.skip(n.value.len() - x.value.len() - 1) =~= seq![' '] + x.value);
    }
}

/// builds a generated name with aggregated provenance refs.
fn build_name(index: &WeaponCandidateIndex, rng: &mut rand::rngs::StdRng) -> (r: GeneratedField<String>)
    ensures
        name_possible(*index, r@),
{
    let prefix = choose_candidate(index.name_prefix.as_slice(), rng);
    let suffix = choose_candidate(index.name_suffix.as_slice(), rng);
    let core = draw_segment(&index.name_primitives, 3, 5, rng);
    let ghost p = cand_view(prefix);
    let ghost s = cand_view(suffix);
    let ghost c = segment_view(core);
    let r = compose_weapon_name(prefix, core, suffix);
    proof {
        assert(pick_possible(index.pool(WeaponSlot::NamePrefix), p));
        assert(pick_possible(index.pool(WeaponSlot::NameSuffix), s));
        assert(segment_possible(index.pool(WeaponSlot::NamePrimitives), c, 3, 5));
        assert(r@ == spec_weapon_name(p, c, s));
    }
    r
}

/// the fill of one placeholder by an optional draw.
pub open spec fn fill_of(placeholder: Seq<char>, o: Option<CandidateModel>) -> (Seq<char>, Seq<char>, Seq<RefModel>) {
    (placeholder, optional_text(o).0, optional_text(o).1)
}

/// the fills of a lore template.
pub open spec fn lore_fills(c: Option<CandidateModel>, d: Option<CandidateModel>, q: Option<CandidateModel>) -> Seq<(Seq<char>, Seq<char>, Seq<RefModel>)> {
    seq![fill_of("{creator}"@, c), fill_of("{deed}"@, d), fill_of("{quirk}"@, q)]
}

/// the fills of a visuals template.
pub open spec fn visual_fills(
    m: Option<CandidateModel>,
    c: Option<CandidateModel>,
    a: Option<CandidateModel>,
    f: Option<CandidateModel>,
) -> Seq<(Seq<char>, Seq<char>, Seq<RefModel>)> {
    seq![fill_of("{material}"@, m), fill_of("{colour}"@, c), fill_of("{accent}"@, a), fill_of("{feature}"@, f)]
}

/// what drawn lore can be: none exactly when there are no templates,
/// otherwise a template with its creator, deed and quirk drawn and filled in.
pub open spec fn lore_possible(index: WeaponCandidateIndex, l: Option<FieldModel<Seq<char>>>) -> bool {
    match l {
        None => index.pool(WeaponSlot::LoreTemplates).len() == 0,
        Some(f) => exists|t: CandidateModel, c: Option<CandidateModel>, d: Option<CandidateModel>, q: Option<CandidateModel>|
            #![trigger spec_fill(t, lore_fills(c, d, q))]
            index.pool(WeaponSlot::LoreTemplates).contains(t) && pick_possible(index.pool(WeaponSlot::LoreCreators), c)
                && pick_possible(index.pool(WeaponSlot::LoreDeeds), d) && pick_possible(index.pool(WeaponSlot::LoreQuirks), q)
                && f == spec_fill(t, lore_fills(c, d, q)),
    }
}

/// what drawn visuals can be: none exactly when there are no templates,
/// otherwise a template with its material, colour, accent and feature drawn
/// and filled in.
pub open spec fn visuals_possible(index: WeaponCandidateIndex, v: Option<FieldModel<Seq<char>>>) -> bool {
    match v {
        None => index.pool(WeaponSlot::VisualTemplates).len() == 0,
        Some(f) => exists|
            t: CandidateModel,
            m: Option<CandidateModel>,
            c: Option<CandidateModel>,
            a: Option<CandidateModel>,
            g: Option<CandidateModel>,
        |
            #![trigger spec_fill(t, visual_fills(m, c, a, g))]
            index.pool(WeaponSlot::VisualTemplates).contains(t) && pick_possible(index.pool(WeaponSlot::VisualMaterials), m)
                && pick_possible(index.pool(WeaponSlot::VisualColours), c) && pick_possible(
                index.pool(WeaponSlot::VisualAccents),
                a,
            ) && pick_possible(index.pool(WeaponSlot::VisualFeatures), g) && f == spec_fill(t, visual_fills(m, c, a, g)),
    }
}

/// the view of an optional generated field.
pub open spec fn opt_field_view(o: Option<GeneratedField<String>>) -> Option<FieldModel<Seq<char>>> {
    match o {
        Some(f) => Some(f@),
        None => None,
    }
}

/// builds lore text from template and token candidates with merged provenance.
fn build_lore(index: &WeaponCandidateIndex, rng: &mut rand::rngs::StdRng) -> (r: Option<GeneratedField<String>>)
    ensures
        lore_possible(*index, opt_field_view(r)),
{
    let template = match choose_candidate(index.lore_templates.as_slice(), rng) {
        Some(t) => t,
        None => {
            return None;
        },
    };
    let creator = choose_optional_text(&index.lore_creators, rng);
    let deed = choose_optional_text(&index.lore_deeds, rng);
    let quirk = choose_optional_text(&index.lore_quirks, rng);
    let ghost oc = choose|o: Option<CandidateModel>| #[trigger] pick_possible(index.pool(WeaponSlot::LoreCreators), o) && optional_text(o) == (creator.0@, refs_view(creator.1@));
    let ghost od = choose|o: Option<CandidateModel>| #[trigger] pick_possible(index.pool(WeaponSlot::LoreDeeds), o) && optional_text(o) == (deed.0@, refs_view(deed.1@));
    let ghost oq = choose|o: Option<CandidateModel>| #[trigger] pick_possible(index.pool(WeaponSlot::LoreQuirks), o) && optional_text(o) == (quirk.0@, refs_view(quirk.1@));
    let ghost t = template@;
    let mut fills: Vec<(&str, String, Vec<SourceRef>)> = Vec::new();
    fills.push(("{creator}", creator.0, creator.1));
    fills.push(("{deed}", deed.0, deed.1));
    fills.push(("{quirk}", quirk.0, quirk.1));
    proof {
        reveal_strlit("{creator}");
        reveal_strlit("{deed}");
        reveal_strlit("{quirk}");
        assert(fills_view(fills@) =~= lore_fills(oc, od, oq));
    }
    let r = fill_template(template, &fills);
    proof {
        assert(r@ == spec_fill(t, lore_fills(oc, od, oq)));
    }
    Some(r)
}

/// builds visual description text with merged provenance refs.
fn build_visuals(index: &WeaponCandidateIndex, rng: &mut rand::rngs::StdRng) -> (r: Option<GeneratedField<String>>)
    ensures
        visuals_possible(*index, opt_field_view(r)),
{
    let template = match choose_candidate(index.visual_templates.as_slice(), rng) {
        Some(t) => t,
        None => {
            return None;
        },
    };
    let material = choose_optional_text(&index.visual_materials, rng);
    let colour = choose_optional_text(&index.visual_colours, rng);
    let accent = choose_optional_text(&index.visual_accents, rng);
    let feature = choose_optional_text(&index.visual_features, rng);
    let ghost om = choose|o: Option<CandidateModel>| #[trigger] pick_possible(index.pool(WeaponSlot::VisualMaterials), o) && optional_text(o) == (material.0@, refs_view(material.1@));
    let ghost oc = choose|o: Option<CandidateModel>| #[trigger] pick_possible(index.pool(WeaponSlot::VisualColours), o) && optional_text(o) == (colour.0@, refs_view(colour.1@));
    let ghost oa = choose|o: Option<CandidateModel>| #[trigger] pick_possible(index.pool(WeaponSlot::VisualAccents), o) && optional_text(o) == (accent.0@, refs_view(accent.1@));
    let ghost of = choose|o: Option<CandidateModel>| #[trigger] pick_possible(index.pool(WeaponSlot::VisualFeatures), o) && optional_text(o) == (feature.0@, refs_view(feature.1@));
    let ghost t = template@;
    let mut fills: Vec<(&str, String, Vec<SourceRef>)> = Vec::new();
    fills.push(("{material}", material.0, material.1));
    fills.push(("{colour}", colour.0, colour.1));
    fills.push(("{accent}", accent.0, accent.1));
    fills.push(("{feature}", feature.0, feature.1));
    proof {
        reveal_strlit("{material}");
        reveal_strlit("{colour}");
        reveal_strlit("{accent}");
        reveal_strlit("{feature}");
        assert(fills_view(fills@) =~= visual_fills(om, oc, oa, of));
    }
    let r = fill_template(template, &fills);
    proof {
        assert(r@ == spec_fill(t, visual_fills(om, oc, oa, of)));
    }
    Some(r)
}

} // verus!

verus! {

#[derive(Debug)]
/// generated weapon payload containing assembled fields.
pub struct GeneratedWeapon {
    /// assembled display name.
    pub name: GeneratedField<String>,
    /// selected weapon type, if present in source data.
    pub weapon_type: Option<GeneratedField<String>>,
    /// selected rarity label, if present in source data.
    pub rarity: Option<GeneratedField<String>>,
    /// selected condition label, if present in source data.
    pub condition: Option<GeneratedField<String>>,
    /// generated lore sentence, if templates are available.
    pub lore: Option<GeneratedField<String>>,
    /// generated visual description, if templates are available.
    pub visuals: Option<GeneratedField<String>>,
}

/// the abstract value of a [`GeneratedWeapon`].
pub struct WeaponOutModel {
    pub name: FieldModel<Seq<char>>,
    pub weapon_type: Option<FieldModel<Seq<char>>>,
    pub rarity: Option<FieldModel<Seq<char>>>,
    pub condition: Option<FieldModel<Seq<char>>>,
    pub lore: Option<FieldModel<Seq<char>>>,
    pub visuals: Option<FieldModel<Seq<char>>>,
}

impl View for GeneratedWeapon {
    type V = WeaponOutModel;

    open spec fn view(&self) -> WeaponOutModel {
        WeaponOutModel {
            name: self.name@,
            weapon_type: opt_field_view(self.weapon_type),
            rarity: opt_field_view(self.rarity),
            condition: opt_field_view(self.condition),
            lore: opt_field_view(self.lore),
            visuals: opt_field_view(self.visuals),
        }
    }
}

/// the value of an optional field, or a fallback.
pub open spec fn value_or(o: Option<FieldModel<Seq<char>>>, fallback: Seq<char>) -> Seq<char> {
    match o {
        Some(f) => f.value,
        None => fallback,
    }
}

/// the display text of a generated weapon: a title, a rule and one labelled
/// line per field, with `unknown`, `unspecified` or `none` for absent fields.
pub open spec fn weapon_display(w: WeaponOutModel) -> Seq<char> {
    "generated weapon\n"@ + "----------------\n"@ + "name      : "@ + w.name.value + "\n"@ + "type      : "@
        + value_or(w.weapon_type, "unknown"@) + "\n"@ + "rarity    : "@ + value_or(w.rarity, "unspecified"@) + "\n"@
        + "condition : "@ + value_or(w.condition, "unspecified"@) + "\n"@ + "lore      : "@ + value_or(w.lore, "none"@)
        + "\n"@ + "visuals   : "@ + value_or(w.visuals, "none"@)
}

/// the value of an optional field, or a fallback.
fn value_or_else<'a>(o: &'a Option<GeneratedField<String>>, fallback: &'a str) -> (r: &'a str)
    ensures
        r@ == value_or(opt_field_view(*o), fallback@),
{
    match o {
        Some(f) => f.value.as_str(),
        None => fallback,
    }
}

impl GeneratedWeapon {
    /// renders the weapon as the labelled block its display shows.
    pub fn to_string(&self) -> (r: String)
        ensures
            r@ == weapon_display(self@),
    {
        let mut out = owned("generated weapon\n");
        push_str(&mut out, "----------------\n");
        push_str(&mut out, "name      : ");
        push_str(&mut out, self.name.value.as_str());
        push_str(&mut out, "\n");
        push_str(&mut out, "type      : ");
        push_str(&mut out, value_or_else(&self.weapon_type, "unknown"));
        push_str(&mut out, "\n");
        push_str(&mut out, "rarity    : ");
        push_str(&mut out, value_or_else(&self.rarity, "unspecified"));
        push_str(&mut out, "\n");
        push_str(&mut out, "condition : ");
        push_str(&mut out, value_or_else(&self.condition, "unspecified"));
        push_str(&mut out, "\n");
        push_str(&mut out, "lore      : ");
        push_str(&mut out, value_or_else(&self.lore, "none"));
        push_str(&mut out, "\n");
        push_str(&mut out, "visuals   : ");
        push_str(&mut out, value_or_else(&self.visuals, "none"));
        out
    }
}

/// what a drawn weapon can be: each optional field drawn from its pool
/// (absent exactly when the pool is empty), and name, lore and visuals
/// composed from draws.
pub open spec fn weapon_possible(index: WeaponCandidateIndex, w: WeaponOutModel) -> bool {
    &&& pick_possible(index.pool(WeaponSlot::Types), w.weapon_type)
    &&& pick_possible(index.pool(WeaponSlot::Rarity), w.rarity)
    &&& pick_possible(index.pool(WeaponSlot::Condition), w.condition)
    &&& name_possible(index, w.name)
    &&& lore_possible(index, w.lore)
    &&& visuals_possible(index, w.visuals)
}

/// weapon generator backed by a merged weapon corpus.
pub struct WeaponGenerator {
    index: WeaponCandidateIndex,
}

impl WeaponGenerator {
    /// the candidate pools this generator draws from.
    pub closed spec fn index_spec(&self) -> WeaponCandidateIndex {
        self.index
    }
}

impl Generator for WeaponGenerator {
    type Loader = WeaponLoader;
    type Output = GeneratedWeapon;

    /// creates a generator from a merged weapon corpus.
    fn new(corpus: AethelCorpus<WeaponLoader>) -> (r: Self)
        ensures
            forall|s: WeaponSlot| #[trigger] r.index_spec().pool(s) == weapon_pool_of(docs_view(corpus.documents@), s),
    {
        let index = WeaponCandidateIndex::from_documents(corpus.documents.as_slice());
        Self { index }
    }

    /// builds a single generated weapon using an injected rng.
    fn generate_with_rng(&self, rng: &mut rand::rngs::StdRng) -> (r: GeneratedWeapon)
        ensures
            weapon_possible(self.index_spec(), r@),
    {
        let weapon_type = choose_candidate(self.index.weapon_types.as_slice(), rng);
        let rarity = choose_candidate(self.index.rarity.as_slice(), rng);
        let condition = choose_candidate(self.index.condition.as_slice(), rng);
        let name = build_name(&self.index, rng);
        let lore = build_lore(&self.index, rng);
        let visuals = build_visuals(&self.index, rng);
        GeneratedWeapon { name, weapon_type, rarity, condition, lore, visuals }
    }
}

} // verus!
