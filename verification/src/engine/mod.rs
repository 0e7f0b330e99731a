//! generation engine, rule trait, and combinators.

pub mod combinators;
pub mod error;

use vstd::prelude::*;

use crate::corpus::{copy_provenance, provenance_view, Corpus, ProvenanceModel, ValueProvenance};
use crate::text::str_eq;

pub use error::AethelError;

verus! {

#[derive(Debug, Clone)]
/// the final or intermediate result of a generation step.
pub struct ComposedValue {
    pub value: String,
    pub provenance: Vec<ValueProvenance>,
}

/// the abstract value of a [`ComposedValue`].
pub struct ComposedModel {
    pub value: Seq<char>,
    pub provenance: Seq<ProvenanceModel>,
}

impl View for ComposedValue {
    type V = ComposedModel;

    open spec fn view(&self) -> ComposedModel {
        ComposedModel { value: self.value@, provenance: provenance_view(self.provenance@) }
    }
}

/// two composed values one after the other: the texts run together and the
/// provenance lists appended.
pub open spec fn merged(a: ComposedModel, b: ComposedModel) -> ComposedModel {
    ComposedModel { value: a.value + b.value, provenance: a.provenance + b.provenance }
}

/// the composed value with no text and no provenance.
pub open spec fn empty_composed() -> ComposedModel {
    ComposedModel { value: Seq::<char>::empty(), provenance: Seq::<ProvenanceModel>::empty() }
}

impl ComposedValue {
    /// merges two composed values, appending the string and extending the provenance vector.
    pub fn merge(self, other: ComposedValue) -> (r: Self)
        ensures
            r@ == merged(self@, other@),
    {
        let ComposedValue { mut value, mut provenance } = self;
        let ComposedValue { value: other_value, provenance: mut other_provenance } = other;
        crate::text::push_str(&mut value, other_value.as_str());
        let ghost p0 = provenance@;
        let ghost p1 = other_provenance@;
        provenance.append(&mut other_provenance);
        proof {
            assert(provenance_view(provenance@) =~= provenance_view(p0) + provenance_view(p1));
        }
        ComposedValue { value, provenance }
    }

    /// a copy with the same view.
    pub fn duplicate(&self) -> (r: Self)
        ensures
            r@ == self@,
    {
        ComposedValue { value: self.value.clone(), provenance: copy_provenance(&self.provenance) }
    }

    /// the composed value with no text and no provenance.
    pub fn empty() -> (r: Self)
        ensures
            r@ == empty_composed(),
    {
        let r = ComposedValue { value: String::new(), provenance: Vec::new() };
        assert(provenance_view(r.provenance@) =~= Seq::<ProvenanceModel>::empty());
        r
    }
}

/// merging is associative, and the empty value is its identity on both sides.
pub proof fn law_merge_monoid(a: ComposedModel, b: ComposedModel, c: ComposedModel)
    ensures
        merged(merged(a, b), c) == merged(a, merged(b, c)),
        merged(empty_composed(), a) == a,
        merged(a, empty_composed()) == a,
{
    assert(merged(merged(a, b), c).value =~= merged(a, merged(b, c)).value);
    assert(merged(merged(a, b), c).provenance =~= merged(a, merged(b, c)).provenance);
    assert(merged(empty_composed(), a).value =~= a.value);
    assert(merged(empty_composed(), a).provenance =~= a.provenance);
    assert(merged(a, empty_composed()).value =~= a.value);
    assert(merged(a, empty_composed()).provenance =~= a.provenance);
}

// ─── generation context ──────────────────────────────────────────────────────

/// the value recorded under `k` (keys are distinct).
pub open spec fn history_get(h: Seq<(Seq<char>, ComposedModel)>, k: Seq<char>) -> Option<ComposedModel> {
    if exists|i: int| 0 <= i < h.len() && #[trigger] h[i].0 == k {
        Some(h[choose|i: int| 0 <= i < h.len() && #[trigger] h[i].0 == k].1)
    } else {
        None
    }
}

/// no key is recorded twice.
pub open spec fn history_keys_distinct(h: Seq<(Seq<char>, ComposedModel)>) -> bool {
    forall|i: int, j: int| 0 <= i < j < h.len() ==> h[i].0 != h[j].0
}

/// the shared state blackboard passed to every generation rule during execution.
pub struct GenerationContext<'a> {
    /// the corpus available to all rules.
    pub corpus: &'a Corpus,
    /// results of previously executed rules keyed by rule name.
    history: Vec<(String, ComposedValue)>,
}

impl<'a> GenerationContext<'a> {
    /// the recorded results as `(rule name, value)` pairs.
    pub closed spec fn history_view(&self) -> Seq<(Seq<char>, ComposedModel)> {
        self.history@.map_values(|e: (String, ComposedValue)| (e.0@, e.1@))
    }

    /// the result recorded for a rule name, if any.
    pub open spec fn previous(&self, key: Seq<char>) -> Option<ComposedModel> {
        history_get(self.history_view(), key)
    }

    /// the corpus the rules read.
    pub closed spec fn corpus_of(&self) -> &'a Corpus {
        self.corpus
    }

    /// the context is well formed: no rule name is recorded twice.
    pub closed spec fn wf(&self) -> bool {
        history_keys_distinct(self.history_view())
    }

    /// a context over `corpus` with nothing recorded yet.
    pub fn new(corpus: &'a Corpus) -> (r: Self)
        ensures
            r.wf(),
            r.corpus_of() == corpus,
            forall|k: Seq<char>| #[trigger] r.previous(k) is None,
    {
        let r = Self { corpus, history: Vec::new() };
        assert(r.history_view() =~= Seq::<(Seq<char>, ComposedModel)>::empty());
        r
    }

    /// returns the result of a previously executed rule, if present.
    pub fn get_previous(&self, key: &str) -> (r: Option<&ComposedValue>)
        requires
            self.wf(),
        ensures
            match r {
                Some(v) => self.previous(key@) == Some(v@),
                None => self.previous(key@) is None,
            },
    {
        let ghost h = self.history_view();
        let mut i: usize = 0;
        while i < self.history.len()
            invariant
                i <= self.history@.len(),
                h == self.history_view(),
                history_keys_distinct(h),
                forall|j: int| 0 <= j < i ==> h[j].0 != key@,
            decreases self.history@.len() - i,
        {
            if str_eq(self.history[i].0.as_str(), key) {
                proof {
                    assert(h[i as int].0 == key@);
                    let c = choose|c: int| 0 <= c < h.len() && #[trigger] h[c].0 == key@;
                    assert(c == i);
                }
                return Some(&self.history[i].1);
            }
            i = i + 1;
        }
        None
    }

    /// records the result of a rule, replacing an earlier result of the same name.
    pub fn record(&mut self, key: String, value: ComposedValue)
        requires
            old(self).wf(),
        ensures
            final(self).wf(),
            final(self).corpus_of() == old(self).corpus_of(),
            final(self).previous(key@) == Some(value@),
            forall|k: Seq<char>| k != key@ ==> #[trigger] final(self).previous(k) == old(self).previous(k),
    {
        let ghost h = self.history_view();
        let ghost kv = key@;
        let ghost vv = value@;
        let mut i: usize = 0;
        while i < self.history.len()
            invariant
                i <= self.history@.len(),
                h == self.history_view(),
                history_keys_distinct(h),
                forall|j: int| 0 <= j < i ==> h[j].0 != kv,
                kv == key@,
                vv == value@,
                self.corpus == old(self).corpus,
                h == old(self).history_view(),
            decreases self.history@.len() - i,
        {
            if str_eq(self.history[i].0.as_str(), key.as_str()) {
                self.history.set(i, (key, value));
                proof {
                    let nh = h.update(i as int, (kv, vv));
                    assert(h[i as int].0 == kv);
                    assert(self.history_view() =~= nh);
                    assert forall|a: int, b: int| 0 <= a < b < nh.len() implies nh[a].0 != nh[b].0 by {
                        assert(nh[a].0 == h[a].0);
                        assert(nh[b].0 == h[b].0);
                    }
                    assert forall|k: Seq<char>| k != kv implies #[trigger] history_get(nh, k) == history_get(h, k) by {
                        if exists|a: int| 0 <= a < h.len() && #[trigger] h[a].0 == k {
                            let a = choose|a: int| 0 <= a < h.len() && #[trigger] h[a].0 == k;
                            assert(a != i as int);
                            assert(nh[a] == h[a]);
                            assert(nh[a].0 == k);
                            let b = choose|b: int| 0 <= b < nh.len() && #[trigger] nh[b].0 == k;
                            assert(a == b);
                        }
                        if exists|a: int| 0 <= a < nh.len() && #[trigger] nh[a].0 == k {
                            let a = choose|a: int| 0 <= a < nh.len() && #[trigger] nh[a].0 == k;
                            assert(h[a].0 == k);
                        }
                    }
                    assert(nh[i as int].0 == kv);
                    let c = choose|c: int| 0 <= c < nh.len() && #[trigger] nh[c].0 == kv;
                    assert(c == i);
                }
                return;
            }
            i = i + 1;
        }
        self.history.push((key, value));
        proof {
            let nh = h.push((kv, vv));
            assert(self.history_view() =~= nh);
            assert forall|k: Seq<char>| k != kv implies #[trigger] history_get(nh, k) == history_get(h, k) by {
                if exists|a: int| 0 <= a < h.len() && #[trigger] h[a].0 == k {
                    let a = choose|a: int| 0 <= a < h.len() && #[trigger] h[a].0 == k;
                    assert(nh[a].0 == k);
                    let b = choose|b: int| 0 <= b < nh.len() && #[trigger] nh[b].0 == k;
                    assert(a == b);
                }
                if exists|a: int| 0 <= a < nh.len() && #[trigger] nh[a].0 == k {
                    let a = choose|a: int| 0 <= a < nh.len() && #[trigger] nh[a].0 == k;
                    assert(a < h.len());
                    assert(h[a].0 == k);
                }
            }
            assert(nh[h.len() as int].0 == kv);
            let c = choose|c: int| 0 <= c < nh.len() && #[trigger] nh[c].0 == kv;
            assert(c == h.len());
        }
    }
}

// ─── rules ───────────────────────────────────────────────────────────────────

/// the base interface for all generation logic.
pub trait Rule {
    /// the unique identifier for what this rule generates.
    fn name(&self) -> &str;

    /// executes the generation logic against the current context and rng.
    fn execute(&self, ctx: &GenerationContext<'_>, rng: &mut rand::rngs::StdRng) -> Result<ComposedValue, AethelError>;
}

/// a boxed rule runs the rule it holds.
impl Rule for Box<dyn Rule> {
    fn name(&self) -> &str {
        (**self).name()
    }

    fn execute(&self, ctx: &GenerationContext<'_>, rng: &mut rand::rngs::StdRng) -> Result<ComposedValue, AethelError> {
        (**self).execute(ctx, rng)
    }
}

/// wraps a closure as a [`Rule`], allowing inline rule definitions without
/// implementing the trait directly.
pub struct InlineRule<F: Fn(&GenerationContext<'_>, &mut rand::rngs::StdRng) -> Result<ComposedValue, AethelError>> {
    name: String,
    logic: F,
}

impl<F: Fn(&GenerationContext<'_>, &mut rand::rngs::StdRng) -> Result<ComposedValue, AethelError>> InlineRule<F> {
    /// the closure accepts every context and generator.
    #[verifier::type_invariant]
    spec fn callable(&self) -> bool {
        forall|c: &GenerationContext<'_>, r: &mut rand::rngs::StdRng| #[trigger] self.logic.requires((c, r))
    }

    /// the rule's name.
    pub closed spec fn name_spec(&self) -> Seq<char> {
        self.name@
    }

    /// the closure the rule runs.
    pub closed spec fn logic_of(&self) -> F {
        self.logic
    }

    /// an inline rule named `name` running `logic`, which must accept every
    /// context and generator.
    pub fn new(name: &str, logic: F) -> (r: Self)
        requires
            forall|c: &GenerationContext<'_>, r: &mut rand::rngs::StdRng| #[trigger] logic.requires((c, r)),
        ensures
            r.name_spec() == name@,
            r.logic_of() == logic,
    {
        InlineRule { name: crate::text::owned(name), logic }
    }
}

impl<F: Fn(&GenerationContext<'_>, &mut rand::rngs::StdRng) -> Result<ComposedValue, AethelError>> Rule for InlineRule<F> {
    fn name(&self) -> (r: &str)
        ensures
            r@ == self.name_spec(),
    {
        self.name.as_str()
    }

    fn execute(&self, ctx: &GenerationContext<'_>, rng: &mut rand::rngs::StdRng) -> (r: Result<ComposedValue, AethelError>)
        ensures
            exists|m: &mut rand::rngs::StdRng|
                mut_ref_current(m) == *old(rng) && mut_ref_future(m) == *final(rng)
                    && #[trigger] call_ensures(&self.logic_of(), (ctx, m), r),
    {
        proof {
            use_type_invariant(self);
        }
        let f = &self.logic;
        let r = f(ctx, rng);
        assert(f == &self.logic_of());
        assert(exists|m: &mut rand::rngs::StdRng|
            mut_ref_current(m) == *old(rng) && mut_ref_future(m) == *rng && #[trigger] call_ensures(&self.logic_of(), (ctx, m), r));
        r
    }
}

// ─── engine ──────────────────────────────────────────────────────────────────

/// `ctx` reads `corpus` and records nothing yet.
pub open spec fn fresh_context(ctx: GenerationContext<'_>, corpus: &Corpus) -> bool {
    &&& ctx.wf()
    &&& ctx.corpus_of() == corpus
    &&& forall|k: Seq<char>| #[trigger] ctx.previous(k) is None
}

/// `out` is a value, and `after` is `before` with that value recorded under
/// `name`.
pub open spec fn records_next(
    before: GenerationContext<'_>,
    name: Seq<char>,
    out: Result<ComposedValue, AethelError>,
    after: GenerationContext<'_>,
) -> bool {
    &&& out matches Ok(v) && after.previous(name) == Some(v@)
    &&& forall|k: Seq<char>| k != name ==> #[trigger] after.previous(k) == before.previous(k)
    &&& after.corpus_of() == before.corpus_of()
    &&& after.wf()
}


/// orchestrates an ordered sequence of [`Rule`]s against a [`Corpus`] using a
/// seeded RNG to ensure deterministic outputs.
pub struct Engine<'a> {
    corpus: &'a Corpus,
    rng: rand::rngs::StdRng,
    rules: Vec<(String, Box<dyn Rule>)>,
}

/// `rule`, handed `ctx` and some state of the generator, may return `out`.
pub open spec fn ran<R: Rule>(rule: R, ctx: &GenerationContext<'_>, out: Result<ComposedValue, AethelError>) -> bool {
    exists|m: &mut rand::rngs::StdRng| #[trigger] call_ensures(R::execute, (&rule, ctx, m), out)
}

/// a run of the first `ctxs.len()` rules: rule `i` was handed the context
/// `ctxs[i]` and returned `outs[i]`; the first context records nothing, and
/// each next one is the one before with the previous rule's value recorded
/// under that rule's name.
pub open spec fn engine_run<'a>(
    rules: Seq<(String, Box<dyn Rule>)>,
    corpus: &'a Corpus,
    ctxs: Seq<GenerationContext<'a>>,
    outs: Seq<Result<ComposedValue, AethelError>>,
) -> bool {
    &&& ctxs.len() == outs.len() <= rules.len()
    &&& ctxs.len() > 0 ==> fresh_context(ctxs[0], corpus)
    &&& forall|i: int| 0 <= i < ctxs.len() ==> #[trigger] ran(rules[i].1, &ctxs[i], outs[i])
    &&& forall|i: int|
        #![trigger ctxs[i]]
        0 < i < ctxs.len() ==> records_next(ctxs[i - 1], rules[i - 1].0@, outs[i - 1], ctxs[i])
}

/// extending a run by the next rule, handed the context the run left.
proof fn lemma_engine_run_push<'a>(
    rules: Seq<(String, Box<dyn Rule>)>,
    corpus: &'a Corpus,
    ctxs: Seq<GenerationContext<'a>>,
    outs: Seq<Result<ComposedValue, AethelError>>,
    c: GenerationContext<'a>,
    out: Result<ComposedValue, AethelError>,
)
    requires
        engine_run(rules, corpus, ctxs, outs),
        ctxs.len() < rules.len(),
        ctxs.len() == 0 ==> fresh_context(c, corpus),
        ctxs.len() > 0 ==> records_next(ctxs.last(), rules[ctxs.len() - 1].0@, outs.last(), c),
        ran(rules[ctxs.len() as int].1, &c, out),
    ensures
        engine_run(rules, corpus, ctxs.push(c), outs.push(out)),
{
    let cs = ctxs.push(c);
    let os = outs.push(out);
    assert forall|i: int| 0 <= i < cs.len() implies #[trigger] ran(rules[i].1, &cs[i], os[i]) by {
        if i < ctxs.len() {
            assert(cs[i] == ctxs[i] && os[i] == outs[i]);
        } else {
            assert(cs[i] == c && os[i] == out);
        }
    }
    assert forall|i: int| 0 < i < cs.len() implies records_next(cs[i - 1], rules[i - 1].0@, os[i - 1], #[trigger] cs[i]) by {
        if i < ctxs.len() {
            assert(cs[i] == ctxs[i]);
        } else {
            assert(cs[i] == c);
        }
        assert(cs[i - 1] == ctxs[i - 1] && os[i - 1] == outs[i - 1]);
    }
    if ctxs.len() > 0 {
        assert(cs[0] == ctxs[0]);
    } else {
        assert(cs[0] == c);
    }
}

impl<'a> Engine<'a> {
    /// the names of the rules in pipeline order.
    pub closed spec fn rule_names(&self) -> Seq<Seq<char>> {
        self.rules@.map_values(|r: (String, Box<dyn Rule>)| r.0@)
    }

    /// the rules in pipeline order, each under the name it reported.
    pub closed spec fn rules_spec(&self) -> Seq<(String, Box<dyn Rule>)> {
        self.rules@
    }

    /// the corpus the rules read.
    pub closed spec fn corpus_spec(&self) -> &'a Corpus {
        self.corpus
    }

    /// an engine over `corpus`, drawing from `rng`, with no rules yet.
    pub fn new(corpus: &'a Corpus, rng: rand::rngs::StdRng) -> (r: Self)
        ensures
            r.corpus_spec() == corpus,
            r.rule_names().len() == 0,
    {
        let r = Self { corpus, rng, rules: Vec::new() };
        assert(r.rule_names() =~= Seq::<Seq<char>>::empty());
        r
    }

    /// appends a rule to the end of the pipeline, under the name it reports.
    pub fn with_rule(self, rule: Box<dyn Rule>) -> (r: Self)
        ensures
            r.corpus_spec() == self.corpus_spec(),
            r.rule_names().len() == self.rule_names().len() + 1,
            r.rule_names().drop_last() == self.rule_names(),
            r.rules_spec().drop_last() == self.rules_spec(),
            r.rules_spec().last().1 == rule,
    {
        let Engine { corpus, rng, mut rules } = self;
        let ghost before = rules@;
        let ghost given = rule;
        let name = crate::text::owned(rule.name());
        let entry = (name, rule);
        rules.push(entry);
        let r = Engine { corpus, rng, rules };
        assert(r.rule_names().drop_last() =~= before.map_values(|x: (String, Box<dyn Rule>)| x.0@));
        assert(r.rules_spec().drop_last() =~= before);
        r
    }

    /// runs every rule in pipeline order, storing each result in the context
    /// history under the rule's name, and returns the populated context; the
    /// first failing rule's error ends the run.
    pub fn generate(self) -> (r: Result<GenerationContext<'a>, AethelError>)
        ensures
            r matches Ok(ctx) ==> ctx.wf() && ctx.corpus_of() == self.corpus_spec(),
            r matches Ok(ctx) ==> forall|i: int|
                0 <= i < self.rule_names().len() ==> (#[trigger] ctx.previous(self.rule_names()[i])) is Some,
            r matches Ok(ctx) ==> forall|k: Seq<char>| #[trigger] ctx.previous(k) is Some ==> self.rule_names().contains(k),
            self.rule_names().len() == 0 ==> r is Ok,
            exists|ctxs: Seq<GenerationContext<'a>>, outs: Seq<Result<ComposedValue, AethelError>>|
                #[trigger] engine_run(self.rules_spec(), self.corpus_spec(), ctxs, outs) && match r {
                    Err(e) => outs.len() > 0 && outs.last() == Err::<ComposedValue, AethelError>(e),
                    Ok(ctx) => outs.len() == self.rules_spec().len() && if outs.len() == 0 {
                        fresh_context(ctx, self.corpus_spec())
                    } else {
                        records_next(ctxs.last(), self.rules_spec().last().0@, outs.last(), ctx)
                    },
                },
    {
        let ghost names = self.rule_names();
        let Engine { corpus, mut rng, rules } = self;
        let mut ctx = GenerationContext::new(corpus);
        let ghost mut ctxs: Seq<GenerationContext<'a>> = Seq::empty();
        let ghost mut outs: Seq<Result<ComposedValue, AethelError>> = Seq::empty();
        let mut i: usize = 0;
        while i < rules.len()
            invariant
                i <= rules@.len(),
                rules@ == self.rules_spec(),
                corpus == self.corpus_spec(),
                engine_run(rules@, corpus, ctxs, outs),
                ctxs.len() == i,
                i == 0 ==> fresh_context(ctx, corpus),
                i > 0 ==> records_next(ctxs[i - 1], rules@[i - 1].0@, outs[i - 1], ctx),
                names == rules@.map_values(|r: (String, Box<dyn Rule>)| r.0@),
                names.len() == rules@.len(),
                names == self.rule_names(),
                ctx.wf(),
                ctx.corpus == corpus,
                forall|j: int| 0 <= j < i ==> (#[trigger] ctx.previous(names[j])) is Some,
                forall|k: Seq<char>| #[trigger] ctx.previous(k) is Some ==> names.take(i as int).contains(k),
            decreases rules@.len() - i,
        {
            let name = rules[i].0.clone();
            let run = <Box<dyn Rule> as Rule>::execute;
            let outcome = run(&rules[i].1, &ctx, &mut rng);
            let ghost before = ctx;
            proof {
                assert(ran(rules@[i as int].1, &before, outcome));
                lemma_engine_run_push(rules@, corpus, ctxs, outs, before, outcome);
                ctxs = ctxs.push(before);
                outs = outs.push(outcome);
            }
            let result = match outcome {
                Ok(v) => v,
                Err(e) => {
                    let r: Result<GenerationContext<'a>, AethelError> = Err(e);
                    return r;
                },
            };
            ctx.record(name, result);
            proof {
                assert(records_next(ctxs[i as int], rules@[i as int].0@, outs[i as int], ctx));
                assert(names[i as int] == rules@[i as int].0@);
                assert forall|j: int| 0 <= j < i + 1 implies (#[trigger] ctx.previous(names[j])) is Some by {
                    if j < i && names[j] != names[i as int] {
                        assert(before.previous(names[j]) is Some);
                    }
                }
                assert forall|k: Seq<char>| #[trigger] ctx.previous(k) is Some implies names.take(i as int + 1).contains(k) by {
                    if k == names[i as int] {
                        assert(names.take(i as int + 1)[i as int] == k);
                    } else {
                        assert(before.previous(k) is Some);
                        let m = choose|m: int| 0 <= m < names.take(i as int).len() && names.take(i as int)[m] == k;
                        assert(names.take(i as int + 1)[m] == k);
                    }
                }
            }
            i = i + 1;
        }
        proof {
            assert(names.take(rules@.len() as int) =~= names);
        }
        Ok(ctx)
    }
}

} // verus!
