//! standard combinators, each a [`Rule`] built from other rules or from a
//! corpus pool.

use vstd::prelude::*;

use crate::corpus::{copy_provenance, first_index, pooled_view, pools_view, PoolModel, PooledModel, PooledValue};
use crate::engine::error::{AethelErrModel, AethelError};
use crate::engine::{merged, ComposedModel, ComposedValue, GenerationContext, Rule};
use crate::rng::{draw_u32, draws_u32};
use crate::text::owned;

verus! {

/// the pooled value a roll selects: the roll modulo the pool size.
pub open spec fn picked(values: Seq<PooledModel>, roll: u32) -> ComposedModel {
    let v = values[(roll as int) % (values.len() as int)];
    ComposedModel { value: v.value, provenance: v.provenance }
}

/// the composed value that `roll` selects from a non-empty pool.
pub fn pick_from(values: &[PooledValue], roll: u32) -> (r: ComposedValue)
    requires
        values@.len() > 0,
    ensures
        r@ == picked(pooled_view(values@), roll),
{
    let index = (roll as usize) % values.len();
    ComposedValue { value: values[index].value.clone(), provenance: copy_provenance(&values[index].provenance) }
}

/// the pool for a section and field pair in a corpus, if any.
pub open spec fn pool_for(pools: Seq<PoolModel>, section: Seq<char>, field: Seq<char>) -> Option<Seq<PooledModel>> {
    match first_index(pools, |q: PoolModel| q.field == field && q.section == section) {
        Some(i) => Some(pools[i].values),
        None => None,
    }
}

/// selects a random value from the pool identified by `section` and `field`.
pub struct Pick {
    name: String,
    section: String,
    field: String,
}

/// selects a random value from the pool identified by `section` and `field`.
pub fn pick(name: &str, section: String, field: String) -> (r: Pick)
    ensures
        r.name_spec() == name@,
        r.section_spec() == section@,
        r.field_spec() == field@,
{
    Pick { name: owned(name), section, field }
}

impl Pick {
    /// the rule's name.
    pub closed spec fn name_spec(&self) -> Seq<char> {
        self.name@
    }

    /// the section of the pool this rule picks from.
    pub closed spec fn section_spec(&self) -> Seq<char> {
        self.section@
    }

    /// the field of the pool this rule picks from.
    pub closed spec fn field_spec(&self) -> Seq<char> {
        self.field@
    }
}

impl Rule for Pick {
    fn name(&self) -> (r: &str)
        ensures
            r@ == self.name_spec(),
    {
        self.name.as_str()
    }

    fn execute(&self, ctx: &GenerationContext<'_>, rng: &mut rand::rngs::StdRng) -> (r: Result<ComposedValue, AethelError>)
        ensures
            match pool_for(pools_view(ctx.corpus_of().pools@), self.section_spec(), self.field_spec()) {
                None => r matches Err(e) && e@ == (AethelErrModel::PoolNotFound {
                    section: self.section_spec(),
                    field: self.field_spec(),
                }) && *final(rng) == *old(rng),
                Some(vs) => if vs.len() == 0 {
                    r matches Err(e) && e@ == AethelErrModel::Custom("pool is empty"@) && *final(rng) == *old(rng)
                } else {
                    &&& r matches Ok(v) && exists|roll: u32| v@ == #[trigger] picked(vs, roll)
                    &&& r matches Ok(v) && exists|m: &mut rand::rngs::StdRng, roll: u32|
                        mut_ref_current(m) == *old(rng) && mut_ref_future(m) == *final(rng)
                            && #[trigger] draws_u32(m, roll) && v@ == picked(vs, roll)
                },
            },
    {
        let values = match ctx.corpus.pooled_values_for_field_section(self.field.as_str(), self.section.as_str()) {
            Some(v) => v,
            None => {
                return Err(AethelError::PoolNotFound { section: self.section.clone(), field: self.field.clone() });
            },
        };
        if values.len() == 0 {
            return Err(AethelError::Custom(owned("pool is empty")));
        }
        let roll = draw_u32(rng);
        let v = pick_from(values, roll);
        proof {
            assert(v@ == picked(pooled_view(values@), roll));
        }
        Ok(v)
    }
}

/// executes `rule_a` and `rule_b` sequentially and merges their results into one [`ComposedValue`].
pub struct Concat<A: Rule, B: Rule> {
    name: String,
    rule_a: A,
    rule_b: B,
}

/// executes `rule_a` and `rule_b` sequentially and merges their results into one [`ComposedValue`].
pub fn concat<A: Rule, B: Rule>(name: &str, rule_a: A, rule_b: B) -> (r: Concat<A, B>)
    ensures
        r.name_spec() == name@,
        r.first() == rule_a,
        r.second() == rule_b,
{
    Concat { name: owned(name), rule_a, rule_b }
}

impl<A: Rule, B: Rule> Concat<A, B> {
    /// the rule's name.
    pub closed spec fn name_spec(&self) -> Seq<char> {
        self.name@
    }

    /// the rule that runs first.
    pub closed spec fn first(&self) -> A {
        self.rule_a
    }

    /// the rule that runs second.
    pub closed spec fn second(&self) -> B {
        self.rule_b
    }
}

impl<A: Rule, B: Rule> Rule for Concat<A, B> {
    fn name(&self) -> (r: &str)
        ensures
            r@ == self.name_spec(),
    {
        self.name.as_str()
    }

    fn execute(&self, ctx: &GenerationContext<'_>, rng: &mut rand::rngs::StdRng) -> (r: Result<ComposedValue, AethelError>)
        ensures
            exists|m1: &mut rand::rngs::StdRng, first: Result<ComposedValue, AethelError>|
                mut_ref_current(m1) == *old(rng) && #[trigger] call_ensures(A::execute, (&self.first(), ctx, m1), first)
                    && (first is Err ==> r == first && *final(rng) == mut_ref_future(m1))
                    && (first matches Ok(va) ==> exists|m2: &mut rand::rngs::StdRng, second: Result<ComposedValue, AethelError>|
                        mut_ref_current(m2) == mut_ref_future(m1) && mut_ref_future(m2) == *final(rng)
                            && #[trigger] call_ensures(B::execute, (&self.second(), ctx, m2), second)
                            && (second is Err ==> r == second)
                            && (second matches Ok(vb) ==> r matches Ok(v) && v@ == merged(va@, vb@))),
    {
        let run_a = A::execute;
        let first = run_a(&self.rule_a, ctx, rng);
        let ghost mid = *rng;
        let ghost gfirst = first;
        assert(exists|m1: &mut rand::rngs::StdRng| mut_ref_current(m1) == *old(rng) && mut_ref_future(m1) == mid && #[trigger] call_ensures(A::execute, (&self.first(), ctx, m1), gfirst));
        let val_a = match first {
            Ok(v) => v,
            Err(e) => {
                let r: Result<ComposedValue, AethelError> = Err(e);
                proof {
                    assert(r == gfirst);
                    assert(exists|m1: &mut rand::rngs::StdRng, first: Result<ComposedValue, AethelError>|
                mut_ref_current(m1) == *old(rng) && #[trigger] call_ensures(A::execute, (&self.first(), ctx, m1), first)
                    && (first is Err ==> r == first && *final(rng) == mut_ref_future(m1))
                    && (first matches Ok(va) ==> exists|m2: &mut rand::rngs::StdRng, second: Result<ComposedValue, AethelError>|
                        mut_ref_current(m2) == mut_ref_future(m1) && mut_ref_future(m2) == *final(rng)
                            && #[trigger] call_ensures(B::execute, (&self.second(), ctx, m2), second)
                            && (second is Err ==> r == second)
                            && (second matches Ok(vb) ==> r matches Ok(v) && v@ == merged(va@, vb@))));
                }
                return r;
            },
        };
        let ghost ga = val_a;
        let run_b = B::execute;
        let second = run_b(&self.rule_b, ctx, rng);
        let ghost gsecond = second;
        assert(exists|m2: &mut rand::rngs::StdRng| mut_ref_current(m2) == mid && mut_ref_future(m2) == *rng && #[trigger] call_ensures(B::execute, (&self.second(), ctx, m2), gsecond));
        let r: Result<ComposedValue, AethelError> = match second {
            Ok(val_b) => {
                let ghost gb = val_b;
                let v = val_a.merge(val_b);
                assert(v@ == merged(ga@, gb@));
                Ok(v)
            },
            Err(e) => Err(e),
        };
        proof {
            assert(gfirst == Ok::<ComposedValue, AethelError>(ga));
            assert(exists|m1: &mut rand::rngs::StdRng, first: Result<ComposedValue, AethelError>|
                mut_ref_current(m1) == *old(rng) && #[trigger] call_ensures(A::execute, (&self.first(), ctx, m1), first)
                    && (first is Err ==> r == first && *final(rng) == mut_ref_future(m1))
                    && (first matches Ok(va) ==> exists|m2: &mut rand::rngs::StdRng, second: Result<ComposedValue, AethelError>|
                        mut_ref_current(m2) == mut_ref_future(m1) && mut_ref_future(m2) == *final(rng)
                            && #[trigger] call_ensures(B::execute, (&self.second(), ctx, m2), second)
                            && (second is Err ==> r == second)
                            && (second matches Ok(vb) ==> r matches Ok(v) && v@ == merged(va@, vb@))));
        }
        r
    }
}

/// tries `primary`; on any error executes `secondary` instead.
pub struct Fallback<A: Rule, B: Rule> {
    name: String,
    primary: A,
    secondary: B,
}

/// tries `primary`; on any error executes `secondary` instead.
pub fn fallback<A: Rule, B: Rule>(name: &str, primary: A, secondary: B) -> (r: Fallback<A, B>)
    ensures
        r.name_spec() == name@,
        r.primary_rule() == primary,
        r.secondary_rule() == secondary,
{
    Fallback { name: owned(name), primary, secondary }
}

impl<A: Rule, B: Rule> Fallback<A, B> {
    /// the rule's name.
    pub closed spec fn name_spec(&self) -> Seq<char> {
        self.name@
    }

    /// the rule tried first.
    pub closed spec fn primary_rule(&self) -> A {
        self.primary
    }

    /// the rule run when the first one fails.
    pub closed spec fn secondary_rule(&self) -> B {
        self.secondary
    }
}

impl<A: Rule, B: Rule> Rule for Fallback<A, B> {
    fn name(&self) -> (r: &str)
        ensures
            r@ == self.name_spec(),
    {
        self.name.as_str()
    }

    fn execute(&self, ctx: &GenerationContext<'_>, rng: &mut rand::rngs::StdRng) -> (r: Result<ComposedValue, AethelError>)
        ensures
            exists|m1: &mut rand::rngs::StdRng, first: Result<ComposedValue, AethelError>|
                mut_ref_current(m1) == *old(rng) && #[trigger] call_ensures(A::execute, (&self.primary_rule(), ctx, m1), first)
                    && (first is Ok ==> r == first && *final(rng) == mut_ref_future(m1))
                    && (first is Err ==> exists|m2: &mut rand::rngs::StdRng|
                        mut_ref_current(m2) == mut_ref_future(m1) && mut_ref_future(m2) == *final(rng)
                            && #[trigger] call_ensures(B::execute, (&self.secondary_rule(), ctx, m2), r)),
    {
        let run_primary = A::execute;
        let first = run_primary(&self.primary, ctx, rng);
        let ghost mid = *rng;
        let ghost gfirst = first;
        assert(exists|m1: &mut rand::rngs::StdRng| mut_ref_current(m1) == *old(rng) && mut_ref_future(m1) == mid && #[trigger] call_ensures(A::execute, (&self.primary_rule(), ctx, m1), gfirst));
        match first {
            Ok(val) => {
                let r = Ok(val);
                proof {
                    assert(r == gfirst);
                    assert(exists|m1: &mut rand::rngs::StdRng, first: Result<ComposedValue, AethelError>|
                mut_ref_current(m1) == *old(rng) && #[trigger] call_ensures(A::execute, (&self.primary_rule(), ctx, m1), first)
                    && (first is Ok ==> r == first && *final(rng) == mut_ref_future(m1))
                    && (first is Err ==> exists|m2: &mut rand::rngs::StdRng|
                        mut_ref_current(m2) == mut_ref_future(m1) && mut_ref_future(m2) == *final(rng)
                            && #[trigger] call_ensures(B::execute, (&self.secondary_rule(), ctx, m2), r)));
                }
                r
            },
            Err(e) => {
                let run_secondary = B::execute;
                run_secondary(&self.secondary, ctx, rng)
            },
        }
    }
}

// ─── weighted choice ─────────────────────────────────────────────────────────

/// the sum of the weights.
pub open spec fn weight_sum(ws: Seq<u32>) -> nat
    decreases ws.len(),
{
    if ws.len() == 0 {
        0
    } else {
        weight_sum(ws.drop_last()) + (ws.last() as nat)
    }
}

/// the weights of the first `n` choices summed.
pub open spec fn prefix_weight(ws: Seq<u32>, n: int) -> nat {
    weight_sum(ws.take(n))
}

/// the choice a reduced roll `x` lands on: the index whose weight interval
/// `[prefix, prefix + weight)` contains `x`.
pub open spec fn lands_on(ws: Seq<u32>, x: nat, i: int) -> bool {
    0 <= i < ws.len() && prefix_weight(ws, i) <= x < prefix_weight(ws, i + 1)
}

proof fn lemma_prefix_step(ws: Seq<u32>, i: int)
    requires
        0 <= i < ws.len(),
    ensures
        prefix_weight(ws, i + 1) == prefix_weight(ws, i) + ws[i],
{
    assert(ws.take(i + 1).drop_last() =~= ws.take(i));
}

proof fn lemma_prefix_full(ws: Seq<u32>)
    ensures
        prefix_weight(ws, ws.len() as int) == weight_sum(ws),
{
    assert(ws.take(ws.len() as int) =~= ws);
}

/// the index a roll selects among weighted choices: the roll is reduced
/// modulo the total weight, then the choices' weights are counted off in order.
pub fn weighted_index(weights: &Vec<u32>, roll: u32) -> (r: Option<usize>)
    requires
        weight_sum(weights@) <= u32::MAX,
    ensures
        r is None <==> weight_sum(weights@) == 0,
        r matches Some(i) ==> lands_on(weights@, (roll as nat) % weight_sum(weights@), i as int),
{
    let ghost ws = weights@;
    let mut total: u32 = 0;
    let mut j: usize = 0;
    while j < weights.len()
        invariant
            j <= ws.len(),
            ws == weights@,
            weight_sum(ws) <= u32::MAX,
            total == prefix_weight(ws, j as int),
        decreases ws.len() - j,
    {
        proof {
            lemma_prefix_step(ws, j as int);
            lemma_prefix_monotone(ws, j as int + 1, ws.len() as int);
            lemma_prefix_full(ws);
        }
        total = total + weights[j];
        j = j + 1;
    }
    proof {
        lemma_prefix_full(ws);
    }
    if total == 0 {
        return None;
    }
    let ghost x = (roll as nat) % weight_sum(ws);
    let mut left: u32 = roll % total;
    let mut i: usize = 0;
    while i < weights.len()
        invariant
            i <= ws.len(),
            ws == weights@,
            total == weight_sum(ws),
            total > 0,
            x == (roll as nat) % weight_sum(ws),
            x < weight_sum(ws),
            prefix_weight(ws, i as int) <= x,
            left == x - prefix_weight(ws, i as int),
        decreases ws.len() - i,
    {
        proof {
            lemma_prefix_step(ws, i as int);
        }
        if left < weights[i] {
            return Some(i);
        }
        left = left - weights[i];
        i = i + 1;
    }
    proof {
        lemma_prefix_full(ws);
    }
    None
}

/// prefix sums never decrease.
proof fn lemma_prefix_monotone(ws: Seq<u32>, a: int, b: int)
    requires
        0 <= a <= b <= ws.len(),
    ensures
        prefix_weight(ws, a) <= prefix_weight(ws, b),
    decreases b - a,
{
    if a < b {
        lemma_prefix_step(ws, b - 1);
        lemma_prefix_monotone(ws, a, b - 1);
    }
}

/// for a positive total, every reduced roll lands on exactly one choice,
/// and that choice has a positive weight.
pub proof fn law_weighted_choice_partition(ws: Seq<u32>, x: nat)
    requires
        x < weight_sum(ws),
    ensures
        exists|i: int| #[trigger] lands_on(ws, x, i),
        forall|i: int, j: int| lands_on(ws, x, i) && lands_on(ws, x, j) ==> i == j,
        forall|i: int| #[trigger] lands_on(ws, x, i) ==> ws[i] > 0,
{
    lemma_prefix_full(ws);
    assert(ws.take(0) =~= Seq::<u32>::empty());
    lemma_lands_somewhere(ws, x, 0);
    assert forall|i: int, j: int| lands_on(ws, x, i) && lands_on(ws, x, j) implies i == j by {
        if i < j {
            lemma_prefix_monotone(ws, i + 1, j);
        } else if j < i {
            lemma_prefix_monotone(ws, j + 1, i);
        }
    }
    assert forall|i: int| #[trigger] lands_on(ws, x, i) implies ws[i] > 0 by {
        lemma_prefix_step(ws, i);
    }
}

proof fn lemma_lands_somewhere(ws: Seq<u32>, x: nat, k: int)
    requires
        0 <= k <= ws.len(),
        prefix_weight(ws, k) <= x,
        x < prefix_weight(ws, ws.len() as int),
    ensures
        exists|i: int| #[trigger] lands_on(ws, x, i),
    decreases ws.len() - k,
{
    if k == ws.len() {
    } else {
        lemma_prefix_step(ws, k);
        if x < prefix_weight(ws, k + 1) {
            assert(lands_on(ws, x, k));
        } else {
            lemma_lands_somewhere(ws, x, k + 1);
        }
    }
}

/// performs a single weighted RNG roll to select and execute one rule from `choices`.
pub struct WeightedChoice {
    name: String,
    weights: Vec<u32>,
    choices: Vec<(u32, Box<dyn Rule>)>,
}

impl WeightedChoice {
    /// the total weight fits the roll's width.
    #[verifier::type_invariant]
    spec fn total_fits(&self) -> bool {
        &&& weight_sum(self.weights@) <= u32::MAX
        &&& self.weights@ == choice_weights(self.choices@)
    }

    /// the rule's name.
    pub closed spec fn name_spec(&self) -> Seq<char> {
        self.name@
    }

    /// the choices with their weights, in order.
    pub closed spec fn choices_spec(&self) -> Seq<(u32, Box<dyn Rule>)> {
        self.choices@
    }

    /// the weights of the choices, in order.
    pub closed spec fn weights_spec(&self) -> Seq<u32> {
        self.weights@
    }
}

impl Rule for WeightedChoice {
    fn name(&self) -> (r: &str)
        ensures
            r@ == self.name_spec(),
    {
        self.name.as_str()
    }

    fn execute(&self, ctx: &GenerationContext<'_>, rng: &mut rand::rngs::StdRng) -> (r: Result<ComposedValue, AethelError>)
        ensures
            weight_sum(self.weights_spec()) == 0 ==> (r matches Err(e) && e@ == AethelErrModel::Custom(
                "weighted choice has a total weight of 0"@,
            )) && *final(rng) == *old(rng),
            weight_sum(self.weights_spec()) > 0 ==> exists|x: nat, i: int, m: &mut rand::rngs::StdRng|
                #[trigger] lands_on(self.weights_spec(), x, i)
                    && mut_ref_future(m) == *final(rng)
                    && #[trigger] call_ensures(<Box<dyn Rule> as Rule>::execute, (&self.choices_spec()[i].1, ctx, m), r),
            weight_sum(self.weights_spec()) > 0 ==> exists|m0: &mut rand::rngs::StdRng, roll: u32, i: int, m: &mut rand::rngs::StdRng|
                mut_ref_current(m0) == *old(rng) && #[trigger] draws_u32(m0, roll)
                    && lands_on(self.weights_spec(), (roll as nat) % weight_sum(self.weights_spec()), i)
                    && mut_ref_current(m) == mut_ref_future(m0) && mut_ref_future(m) == *final(rng)
                    && #[trigger] call_ensures(<Box<dyn Rule> as Rule>::execute, (&self.choices_spec()[i].1, ctx, m), r),
    {
        proof {
            use_type_invariant(self);
        }
        if weighted_index(&self.weights, 0).is_none() {
            return Err(AethelError::Custom(owned("weighted choice has a total weight of 0")));
        }
        let roll = draw_u32(rng);
        let ghost drawn = *rng;
        match weighted_index(&self.weights, roll) {
            Some(i) => {
                let run = <Box<dyn Rule> as Rule>::execute;
                let r = run(&self.choices[i].1, ctx, rng);
                proof {
                    let m0 = choose|m0: &mut rand::rngs::StdRng|
                        mut_ref_current(m0) == *old(rng) && mut_ref_future(m0) == drawn && #[trigger] draws_u32(m0, roll);
                    assert(exists|m: &mut rand::rngs::StdRng|
                        mut_ref_current(m) == drawn && mut_ref_future(m) == *rng
                            && #[trigger] call_ensures(<Box<dyn Rule> as Rule>::execute, (&self.choices@[i as int].1, ctx, m), r));
                    let m = choose|m: &mut rand::rngs::StdRng|
                        mut_ref_current(m) == drawn && mut_ref_future(m) == *rng
                            && #[trigger] call_ensures(<Box<dyn Rule> as Rule>::execute, (&self.choices@[i as int].1, ctx, m), r);
                    assert(self.choices_spec()[i as int].1 == self.choices@[i as int].1);
                    assert(lands_on(self.weights_spec(), (roll as nat) % weight_sum(self.weights_spec()), i as int));
                    assert(mut_ref_current(m0) == *old(rng) && draws_u32(m0, roll)
                        && lands_on(self.weights_spec(), (roll as nat) % weight_sum(self.weights_spec()), i as int)
                        && mut_ref_current(m) == mut_ref_future(m0) && mut_ref_future(m) == *final(rng)
                        && call_ensures(<Box<dyn Rule> as Rule>::execute, (&self.choices_spec()[i as int].1, ctx, m), r));
                }
                proof {
                    assert(self.choices_spec()[i as int].1 == self.choices@[i as int].1);
                    assert(lands_on(self.weights_spec(), (roll as nat) % weight_sum(self.weights_spec()), i as int));
                    assert(exists|x: nat, i: int, m: &mut rand::rngs::StdRng|
                        #[trigger] lands_on(self.weights_spec(), x, i)
                            && mut_ref_future(m) == *final(rng)
                            && #[trigger] call_ensures(<Box<dyn Rule> as Rule>::execute, (&self.choices_spec()[i].1, ctx, m), r));
                }
                r
            },
            None => Err(AethelError::Custom(owned("mathematical error in weighted choice"))),
        }
    }
}

/// the weights of the choices.
pub open spec fn choice_weights(choices: Seq<(u32, Box<dyn Rule>)>) -> Seq<u32> {
    choices.map_values(|c: (u32, Box<dyn Rule>)| c.0)
}

/// performs a single weighted RNG roll to select and execute one rule from
/// `choices`; the total weight must fit in a `u32` (beyond it the sum overflows).
pub fn weighted_choice(name: &str, choices: Vec<(u32, Box<dyn Rule>)>) -> (r: WeightedChoice)
    requires
        weight_sum(choice_weights(choices@)) <= u32::MAX,
    ensures
        r.name_spec() == name@,
        r.weights_spec() == choice_weights(choices@),
        r.choices_spec() == choices@,
{
    let ghost ws = choice_weights(choices@);
    let mut weights: Vec<u32> = Vec::new();
    let mut i: usize = 0;
    while i < choices.len()
        invariant
            i <= choices@.len(),
            ws == choice_weights(choices@),
            weights@ == ws.take(i as int),
        decreases choices@.len() - i,
    {
        weights.push(choices[i].0);
        proof {
            assert(weights@ =~= ws.take(i as int + 1));
        }
        i = i + 1;
    }
    proof {
        assert(ws.take(choices@.len() as int) =~= ws);
    }
    WeightedChoice { name: owned(name), weights, choices }
}

} // verus!

