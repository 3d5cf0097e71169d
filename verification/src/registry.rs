//! The capability registry: exact declarations and their providers, the
//! planner that finds a route of capabilities to a wanted fact, and the
//! legacy in-process execution of a route whose every step has a provider.

use vstd::prelude::*;
use crate::identity::{ExactId, IdView, render_id};
use crate::json::{key_less, key_less_exec};
use crate::capability::{
    CapabilityNeed, CapabilitySpec, FactAcceptance, FactCoverage, FactDerivation, FactInstance, InputPort, OutputPort,
    ProducedFact, derivation_doc, fact_digest, fact_digest_of, output_type_vec, duplicate_ids, ids_distinct,
    all_contained, outputs_match, output_types,
    ProviderDescriptor, RegistryError, first_repeat, first_repeat_in, id_less, id_less_exec, id_views, input_kinds,
    output_kinds, spec_rejection, validate_provider, validate_spec,
};
use crate::identity::{id_well_formed, is_sha256_text};
use crate::json::{JsonMember, copy_json, key_views, value_views};
use crate::text::owned;

verus! {

/// Code-point order never holds between a text and itself.
pub proof fn lemma_key_less_irreflexive(a: Seq<char>)
    ensures
        !key_less(a, a),
    decreases a.len(),
{
    if a.len() > 0 {
        lemma_key_less_irreflexive(a.drop_first());
    }
}

/// Code-point order is transitive.
pub proof fn lemma_key_less_transitive(a: Seq<char>, b: Seq<char>, c: Seq<char>)
    requires
        key_less(a, b),
        key_less(b, c),
    ensures
        key_less(a, c),
    decreases a.len(),
{
    if a.len() > 0 && b.len() > 0 && c.len() > 0 && a[0] == b[0] && b[0] == c[0] {
        lemma_key_less_transitive(a.drop_first(), b.drop_first(), c.drop_first());
    }
}

/// Two different texts are ordered one way or the other.
pub proof fn lemma_key_less_total(a: Seq<char>, b: Seq<char>)
    requires
        a != b,
    ensures
        key_less(a, b) || key_less(b, a),
    decreases a.len(),
{
    if a.len() > 0 && b.len() > 0 && a[0] == b[0] {
        assert(a =~= seq![a[0]] + a.drop_first());
        assert(b =~= seq![b[0]] + b.drop_first());
        lemma_key_less_total(a.drop_first(), b.drop_first());
    } else if a.len() > 0 && b.len() > 0 {
        let (x, y) = (a[0], b[0]);
        vstd::utf8::char_u32_cast(x, x as u32);
        vstd::utf8::char_u32_cast(y, y as u32);
    } else if a.len() == 0 && b.len() == 0 {
        assert(a =~= b);
    }
}

/// One step of a route: a capability and the provider bound to it, if any.
pub type StepView = (IdView, Option<IdView>);

/// How many steps of a route have no provider.
pub open spec fn missing_steps(s: Seq<StepView>) -> nat
    decreases s.len(),
{
    if s.len() == 0 {
        0
    } else {
        missing_steps(s.drop_last()) + (if s.last().1 is None { 1nat } else { 0nat })
    }
}

/// The parts joined with `|`.
pub open spec fn bar_joined(parts: Seq<Seq<char>>) -> Seq<char>
    decreases parts.len(),
{
    if parts.len() == 0 {
        Seq::empty()
    } else if parts.len() == 1 {
        parts[0]
    } else {
        bar_joined(parts.drop_last()) + seq!['|'] + parts.last()
    }
}

/// The capabilities of a route, rendered and joined with `|`.
pub open spec fn route_identity(s: Seq<StepView>) -> Seq<char> {
    bar_joined(Seq::new(s.len(), |i: int| render_id(s[i].0)))
}

/// The order in which routes are preferred: fewer steps without a
/// provider, then fewer steps, then the route identity in code-point order.
pub open spec fn score_less(a: Seq<StepView>, b: Seq<StepView>) -> bool {
    ||| missing_steps(a) < missing_steps(b)
    ||| missing_steps(a) == missing_steps(b) && a.len() < b.len()
    ||| missing_steps(a) == missing_steps(b) && a.len() == b.len() && key_less(route_identity(a), route_identity(b))
}

/// No route is preferred to itself.
pub proof fn lemma_score_irreflexive(a: Seq<StepView>)
    ensures
        !score_less(a, a),
{
    lemma_key_less_irreflexive(route_identity(a));
}

/// Route preference is transitive.
pub proof fn lemma_score_transitive(a: Seq<StepView>, b: Seq<StepView>, c: Seq<StepView>)
    requires
        score_less(a, b),
        score_less(b, c),
    ensures
        score_less(a, c),
{
    if missing_steps(a) == missing_steps(b) && missing_steps(b) == missing_steps(c) && a.len() == b.len() && b.len()
        == c.len() {
        lemma_key_less_transitive(route_identity(a), route_identity(b), route_identity(c));
    }
}

/// One step of a plan. The provider is the legacy in-process binding this
/// plan shape carries, not an implementation-selection decision.
#[derive(Debug, PartialEq, Eq)]
pub struct PlanStep {
    pub capability: ExactId,
    pub provider: Option<ExactId>,
}

impl View for PlanStep {
    type V = StepView;

    open spec fn view(&self) -> StepView {
        (self.capability@, match self.provider {
            Some(p) => Some(p@),
            None => None,
        })
    }
}

pub open spec fn steps_view(v: Seq<PlanStep>) -> Seq<StepView> {
    Seq::new(v.len(), |i: int| v[i]@)
}

impl PlanStep {
    /// An equal, separately owned step.
    pub fn duplicate(&self) -> (r: Self)
        ensures
            r@ == self@,
    {
        PlanStep {
            capability: self.capability.duplicate(),
            provider: match &self.provider {
                Some(p) => Some(p.duplicate()),
                None => None,
            },
        }
    }
}

/// The steps of one route to a fact, as the planner holds it.
#[derive(Debug)]
pub struct Candidate {
    pub steps: Vec<PlanStep>,
}

fn route_identity_text(steps: &Vec<PlanStep>) -> (r: String)
    ensures
        r@ == route_identity(steps_view(steps@)),
{
    let ghost parts = Seq::new(steps@.len(), |i: int| render_id(steps@[i].capability@));
    let mut out = String::new();
    let mut i: usize = 0;
    while i < steps.len()
        invariant
            i <= steps.len(),
            parts == Seq::new(steps@.len(), |i: int| render_id(steps@[i].capability@)),
            out@ == bar_joined(parts.subrange(0, i as int)),
        decreases steps.len() - i,
    {
        let ghost before = out@;
        if i > 0 {
            out.append("|");
            proof {
                reveal_strlit("|");
            }
        }
        let text = steps[i].capability.render();
        out.append(text.as_str());
        assert(parts.subrange(0, i + 1).drop_last() =~= parts.subrange(0, i as int));
        assert(parts.subrange(0, i + 1).last() == parts[i as int]);
        assert(out@ =~= bar_joined(parts.subrange(0, i + 1)));
        i = i + 1;
    }
    assert(parts.subrange(0, steps.len() as int) =~= parts);
    assert(Seq::new(steps_view(steps@).len(), |i: int| render_id(steps_view(steps@)[i].0)) =~= parts);
    out
}

fn missing_count(steps: &Vec<PlanStep>) -> (r: usize)
    ensures
        r == missing_steps(steps_view(steps@)),
{
    let ghost v = steps_view(steps@);
    let mut n: usize = 0;
    let mut i: usize = 0;
    while i < steps.len()
        invariant
            i <= steps.len(),
            v == steps_view(steps@),
            n == missing_steps(v.subrange(0, i as int)),
            n <= i,
        decreases steps.len() - i,
    {
        assert(v.subrange(0, i + 1).drop_last() =~= v.subrange(0, i as int));
        if steps[i].provider.is_none() {
            n = n + 1;
        }
        i = i + 1;
    }
    assert(v.subrange(0, steps.len() as int) =~= v);
    n
}

/// Whether route `a` is preferred to route `b`.
fn prefers(a: &Vec<PlanStep>, b: &Vec<PlanStep>) -> (r: bool)
    ensures
        r == score_less(steps_view(a@), steps_view(b@)),
{
    let m1 = missing_count(a);
    let m2 = missing_count(b);
    if m1 != m2 {
        return m1 < m2;
    }
    if a.len() != b.len() {
        return a.len() < b.len();
    }
    let i1 = route_identity_text(a);
    let i2 = route_identity_text(b);
    key_less_exec(&i1, &i2)
}

impl Candidate {
    /// The preference key of this route: steps without a provider, steps,
    /// and the route identity.
    pub fn score(&self) -> (r: (usize, usize, String))
        ensures
            r.0 == missing_steps(steps_view(self.steps@)),
            r.1 == self.steps@.len(),
            r.2@ == route_identity(steps_view(self.steps@)),
    {
        (missing_count(&self.steps), self.steps.len(), route_identity_text(&self.steps))
    }

    /// Whether this route is preferred to `other`.
    pub fn scores_below(&self, other: &Candidate) -> (r: bool)
        ensures
            r == score_less(steps_view(self.steps@), steps_view(other.steps@)),
    {
        prefers(&self.steps, &other.steps)
    }
}


/// Exact identity order never holds between an identity and itself.
pub proof fn lemma_id_less_irreflexive(a: IdView)
    ensures
        !id_less(a, a),
{
    lemma_key_less_irreflexive(a.package);
    lemma_key_less_irreflexive(a.name);
    lemma_key_less_irreflexive(a.version);
}

/// Exact identity order is transitive.
pub proof fn lemma_id_less_transitive(a: IdView, b: IdView, c: IdView)
    requires
        id_less(a, b),
        id_less(b, c),
    ensures
        id_less(a, c),
{
    if key_less(a.package, b.package) && key_less(b.package, c.package) {
        lemma_key_less_transitive(a.package, b.package, c.package);
    } else if a.package == b.package && b.package == c.package {
        if key_less(a.name, b.name) && key_less(b.name, c.name) {
            lemma_key_less_transitive(a.name, b.name, c.name);
        } else if a.name == b.name && b.name == c.name {
            lemma_key_less_transitive(a.version, b.version, c.version);
        }
    }
}

/// Two different identities are ordered one way or the other.
pub proof fn lemma_id_less_total(a: IdView, b: IdView)
    requires
        a != b,
    ensures
        id_less(a, b) || id_less(b, a),
{
    if a.package != b.package {
        lemma_key_less_total(a.package, b.package);
    } else if a.name != b.name {
        lemma_key_less_total(a.name, b.name);
    } else {
        lemma_key_less_total(a.version, b.version);
    }
}

/// Routes to facts, keyed by value kind.
pub type Routes = Map<IdView, Seq<StepView>>;

/// The provider of a capability the planner binds: the least provider
/// identity, in identity order, among `(provider, capability)` bindings
/// sorted by provider identity.
pub open spec fn first_provider(provs: Seq<(IdView, IdView)>, cap: IdView, i: int) -> Option<IdView>
    decreases provs.len() - i,
{
    if i < 0 || i >= provs.len() {
        None
    } else if provs[i].1 == cap {
        Some(provs[i].0)
    } else {
        first_provider(provs, cap, i + 1)
    }
}

/// Over bindings sorted by provider identity, the provider bound to a
/// capability from position `i` on is a provider registered for it there
/// and precedes, in identity order, every other provider registered for it
/// there; none is bound only when none is registered for it there.
pub proof fn lemma_first_provider_is_least(provs: Seq<(IdView, IdView)>, cap: IdView, i: int)
    requires
        0 <= i,
        forall|a: int, b: int| 0 <= a < b < provs.len() ==> id_less(#[trigger] provs[a].0, #[trigger] provs[b].0),
    ensures
        match first_provider(provs, cap, i) {
            Some(p) => (exists|k: int| i <= k < provs.len() && provs[k] == (p, cap)) && forall|j: int|
                i <= j < provs.len() && (#[trigger] provs[j]).1 == cap ==> provs[j].0 == p || id_less(p, provs[j].0),
            None => forall|j: int| i <= j < provs.len() ==> (#[trigger] provs[j]).1 != cap,
        },
    decreases provs.len() - i,
{
    if i < provs.len() {
        lemma_first_provider_is_least(provs, cap, i + 1);
        if provs[i].1 == cap {
            assert(provs[i] == (provs[i].0, cap));
            assert forall|j: int| i <= j < provs.len() && (#[trigger] provs[j]).1 == cap implies provs[j].0 == provs[i].0
                || id_less(provs[i].0, provs[j].0) by {
                if j > i {
                    assert(id_less(provs[i].0, provs[j].0));
                }
            }
        }
    }
}

/// The step a capability contributes to a route.
pub open spec fn own_step(spec: CapabilitySpec, provs: Seq<(IdView, IdView)>) -> StepView {
    (spec.id@, first_provider(provs, spec.id@, 0))
}

pub open spec fn has_cap(acc: Seq<StepView>, cap: IdView) -> bool {
    exists|i: int| 0 <= i < acc.len() && acc[i].0 == cap
}

/// Appends the steps of `s` from `j` on whose capability `acc` lacks.
pub open spec fn merge_route(acc: Seq<StepView>, s: Seq<StepView>, j: int) -> Seq<StepView>
    decreases s.len() - j,
{
    if j < 0 || j >= s.len() {
        acc
    } else {
        merge_route(if has_cap(acc, s[j].0) { acc } else { acc.push(s[j]) }, s, j + 1)
    }
}

/// The routes of the input kinds from `p` on, merged into `acc`; nothing
/// when one has no route.
pub open spec fn gather_routes(kinds: Seq<IdView>, routes: Routes, p: int, acc: Seq<StepView>) -> Option<Seq<StepView>>
    decreases kinds.len() - p,
{
    if p < 0 || p >= kinds.len() {
        Some(acc)
    } else if !routes.contains_key(kinds[p]) {
        None
    } else {
        gather_routes(kinds, routes, p + 1, merge_route(acc, routes[kinds[p]], 0))
    }
}

/// The route a capability offers its outputs: the merged routes of its
/// inputs, then its own step; nothing when an input has no route.
pub open spec fn route_for(spec: CapabilitySpec, provs: Seq<(IdView, IdView)>, routes: Routes) -> Option<Seq<StepView>> {
    match gather_routes(input_kinds(spec.input_ports@), routes, 0, Seq::empty()) {
        Some(acc) => Some(acc.push(own_step(spec, provs))),
        None => None,
    }
}

/// Offers a route to the output kinds from `o` on: a kind takes it when it
/// has no route or the offered one is preferred.
pub open spec fn offer_route(outs: Seq<IdView>, routes: Routes, c: Seq<StepView>, o: int, changed: bool) -> (Routes, bool)
    decreases outs.len() - o,
{
    if o < 0 || o >= outs.len() {
        (routes, changed)
    } else if !routes.contains_key(outs[o]) || score_less(c, routes[outs[o]]) {
        offer_route(outs, routes.insert(outs[o], c), c, o + 1, true)
    } else {
        offer_route(outs, routes, c, o + 1, changed)
    }
}

/// One pass over the capabilities from `i` on, in registry order.
pub open spec fn sweep(specs: Seq<CapabilitySpec>, provs: Seq<(IdView, IdView)>, routes: Routes, i: int, changed: bool) -> (Routes, bool)
    decreases specs.len() - i,
{
    if i < 0 || i >= specs.len() {
        (routes, changed)
    } else {
        match route_for(specs[i], provs, routes) {
            None => sweep(specs, provs, routes, i + 1, changed),
            Some(c) => {
                let r = offer_route(output_kinds(specs[i].output_ports@), routes, c, 0, changed);
                sweep(specs, provs, r.0, i + 1, r.1)
            },
        }
    }
}

/// `k` passes from `routes`.
pub open spec fn rounds(specs: Seq<CapabilitySpec>, provs: Seq<(IdView, IdView)>, routes: Routes, k: nat) -> Routes
    decreases k,
{
    if k == 0 {
        routes
    } else {
        rounds(specs, provs, sweep(specs, provs, routes, 0, false).0, (k - 1) as nat)
    }
}

/// A pass would change nothing.
pub open spec fn settled(specs: Seq<CapabilitySpec>, provs: Seq<(IdView, IdView)>, routes: Routes) -> bool {
    !sweep(specs, provs, routes, 0, false).1
}

/// Each initial fact, with the empty route.
pub open spec fn initial_routes(initial: Seq<IdView>) -> Routes {
    Map::new(|k: IdView| initial.contains(k), |k: IdView| Seq::<StepView>::empty())
}

/// No route is preferred to the empty route.
proof fn lemma_empty_route_best(c: Seq<StepView>)
    ensures
        !score_less(c, Seq::<StepView>::empty()),
{
    if c.len() == 0 {
        assert(c =~= Seq::<StepView>::empty());
        lemma_key_less_irreflexive(route_identity(c));
    }
}

proof fn lemma_offer_keeps_held(outs: Seq<IdView>, routes: Routes, c: Seq<StepView>, o: int, changed: bool, t: IdView)
    requires
        routes.contains_key(t),
        routes[t] == Seq::<StepView>::empty(),
    ensures
        offer_route(outs, routes, c, o, changed).0.contains_key(t),
        offer_route(outs, routes, c, o, changed).0[t] == Seq::<StepView>::empty(),
    decreases outs.len() - o,
{
    if 0 <= o < outs.len() {
        lemma_empty_route_best(c);
        if !routes.contains_key(outs[o]) || score_less(c, routes[outs[o]]) {
            lemma_offer_keeps_held(outs, routes.insert(outs[o], c), c, o + 1, true, t);
        } else {
            lemma_offer_keeps_held(outs, routes, c, o + 1, changed, t);
        }
    }
}

proof fn lemma_sweep_keeps_held(specs: Seq<CapabilitySpec>, provs: Seq<(IdView, IdView)>, routes: Routes, i: int, changed: bool, t: IdView)
    requires
        routes.contains_key(t),
        routes[t] == Seq::<StepView>::empty(),
    ensures
        sweep(specs, provs, routes, i, changed).0.contains_key(t),
        sweep(specs, provs, routes, i, changed).0[t] == Seq::<StepView>::empty(),
    decreases specs.len() - i,
{
    if 0 <= i < specs.len() {
        match route_for(specs[i], provs, routes) {
            None => lemma_sweep_keeps_held(specs, provs, routes, i + 1, changed, t),
            Some(c) => {
                let r = offer_route(output_kinds(specs[i].output_ports@), routes, c, 0, changed);
                lemma_offer_keeps_held(output_kinds(specs[i].output_ports@), routes, c, 0, changed, t);
                lemma_sweep_keeps_held(specs, provs, r.0, i + 1, r.1, t);
            },
        }
    }
}

proof fn lemma_rounds_keep_held(specs: Seq<CapabilitySpec>, provs: Seq<(IdView, IdView)>, routes: Routes, k: nat, t: IdView)
    requires
        routes.contains_key(t),
        routes[t] == Seq::<StepView>::empty(),
    ensures
        rounds(specs, provs, routes, k).contains_key(t),
        rounds(specs, provs, routes, k)[t] == Seq::<StepView>::empty(),
    decreases k,
{
    if k > 0 {
        lemma_sweep_keeps_held(specs, provs, routes, 0, false, t);
        lemma_rounds_keep_held(specs, provs, sweep(specs, provs, routes, 0, false).0, (k - 1) as nat, t);
    }
}

/// A fact kind already held is reached by the empty route: planning for a
/// target among the initial facts plans no steps.
pub proof fn lemma_held_target_plans_no_steps(
    specs: Seq<CapabilitySpec>,
    provs: Seq<(IdView, IdView)>,
    initial: Seq<IdView>,
    routes: Routes,
    t: IdView,
)
    requires
        reaches(specs, provs, initial, routes),
        initial.contains(t),
    ensures
        routes.contains_key(t),
        routes[t].len() == 0,
{
    let k = choose|k: nat| rounds(specs, provs, initial_routes(initial), k) == routes && settled(specs, provs, routes);
    lemma_rounds_keep_held(specs, provs, initial_routes(initial), k, t);
}

/// Passes from the initial facts arrive at `routes`, where they settle.
pub open spec fn reaches(specs: Seq<CapabilitySpec>, provs: Seq<(IdView, IdView)>, initial: Seq<IdView>, routes: Routes) -> bool {
    exists|k: nat| rounds(specs, provs, initial_routes(initial), k) == routes && settled(specs, provs, routes)
}

/// The routes planning settles on.
pub open spec fn planned_routes(specs: Seq<CapabilitySpec>, provs: Seq<(IdView, IdView)>, initial: Seq<IdView>) -> Routes {
    choose|routes: Routes| reaches(specs, provs, initial, routes)
}

proof fn lemma_offer_unchanged(outs: Seq<IdView>, routes: Routes, c: Seq<StepView>, o: int)
    requires
        !offer_route(outs, routes, c, o, false).1,
    ensures
        offer_route(outs, routes, c, o, false).0 == routes,
    decreases outs.len() - o,
{
    if 0 <= o < outs.len() {
        if !routes.contains_key(outs[o]) || score_less(c, routes[outs[o]]) {
            lemma_offer_keeps_changed(outs, routes.insert(outs[o], c), c, o + 1);
        } else {
            lemma_offer_unchanged(outs, routes, c, o + 1);
        }
    }
}

proof fn lemma_offer_keeps_changed(outs: Seq<IdView>, routes: Routes, c: Seq<StepView>, o: int)
    ensures
        offer_route(outs, routes, c, o, true).1,
    decreases outs.len() - o,
{
    if 0 <= o < outs.len() {
        if !routes.contains_key(outs[o]) || score_less(c, routes[outs[o]]) {
            lemma_offer_keeps_changed(outs, routes.insert(outs[o], c), c, o + 1);
        } else {
            lemma_offer_keeps_changed(outs, routes, c, o + 1);
        }
    }
}

proof fn lemma_sweep_keeps_changed(specs: Seq<CapabilitySpec>, provs: Seq<(IdView, IdView)>, routes: Routes, i: int)
    ensures
        sweep(specs, provs, routes, i, true).1,
    decreases specs.len() - i,
{
    if 0 <= i < specs.len() {
        match route_for(specs[i], provs, routes) {
            None => lemma_sweep_keeps_changed(specs, provs, routes, i + 1),
            Some(c) => {
                let outs = output_kinds(specs[i].output_ports@);
                lemma_offer_keeps_changed(outs, routes, c, 0);
                let r = offer_route(outs, routes, c, 0, true);
                lemma_sweep_keeps_changed(specs, provs, r.0, i + 1);
            },
        }
    }
}

/// A pass that reports no change leaves the routes as they were.
proof fn lemma_sweep_unchanged(specs: Seq<CapabilitySpec>, provs: Seq<(IdView, IdView)>, routes: Routes, i: int)
    requires
        !sweep(specs, provs, routes, i, false).1,
    ensures
        sweep(specs, provs, routes, i, false).0 == routes,
    decreases specs.len() - i,
{
    if 0 <= i < specs.len() {
        match route_for(specs[i], provs, routes) {
            None => lemma_sweep_unchanged(specs, provs, routes, i + 1),
            Some(c) => {
                let outs = output_kinds(specs[i].output_ports@);
                let r = offer_route(outs, routes, c, 0, false);
                if r.1 {
                    lemma_sweep_keeps_changed(specs, provs, r.0, i + 1);
                } else {
                    lemma_offer_unchanged(outs, routes, c, 0);
                    lemma_sweep_unchanged(specs, provs, routes, i + 1);
                }
            },
        }
    }
}

proof fn lemma_rounds_settled(specs: Seq<CapabilitySpec>, provs: Seq<(IdView, IdView)>, routes: Routes, k: nat)
    requires
        settled(specs, provs, routes),
    ensures
        rounds(specs, provs, routes, k) == routes,
    decreases k,
{
    if k > 0 {
        lemma_sweep_unchanged(specs, provs, routes, 0);
        lemma_rounds_settled(specs, provs, routes, (k - 1) as nat);
    }
}

proof fn lemma_rounds_split(specs: Seq<CapabilitySpec>, provs: Seq<(IdView, IdView)>, routes: Routes, a: nat, b: nat)
    ensures
        rounds(specs, provs, routes, a + b) == rounds(specs, provs, rounds(specs, provs, routes, a), b),
    decreases a,
{
    if a > 0 {
        lemma_rounds_split(specs, provs, sweep(specs, provs, routes, 0, false).0, (a - 1) as nat, b);
        assert((a + b - 1) as nat == (a - 1) as nat + b);
    }
}

/// Planning settles on at most one set of routes.
pub proof fn lemma_reaches_unique(
    specs: Seq<CapabilitySpec>,
    provs: Seq<(IdView, IdView)>,
    initial: Seq<IdView>,
    r1: Routes,
    r2: Routes,
)
    requires
        reaches(specs, provs, initial, r1),
        reaches(specs, provs, initial, r2),
    ensures
        r1 == r2,
{
    let start = initial_routes(initial);
    let k1 = choose|k: nat| rounds(specs, provs, start, k) == r1 && settled(specs, provs, r1);
    let k2 = choose|k: nat| rounds(specs, provs, start, k) == r2 && settled(specs, provs, r2);
    if k1 <= k2 {
        lemma_rounds_split(specs, provs, start, k1, (k2 - k1) as nat);
        lemma_rounds_settled(specs, provs, r1, (k2 - k1) as nat);
    } else {
        lemma_rounds_split(specs, provs, start, k2, (k1 - k2) as nat);
        lemma_rounds_settled(specs, provs, r2, (k1 - k2) as nat);
    }
}


/// The steps registered capabilities contribute to routes.
pub open spec fn step_set(specs: Seq<CapabilitySpec>, provs: Seq<(IdView, IdView)>) -> Set<StepView> {
    Seq::new(specs.len(), |i: int| own_step(specs[i], provs)).to_set()
}

pub open spec fn steps_within(s: Seq<StepView>, steps: Set<StepView>) -> bool {
    forall|i: int| 0 <= i < s.len() ==> steps.contains(s[i])
}

pub open spec fn routes_within(routes: Routes, steps: Set<StepView>) -> bool {
    forall|k: IdView| routes.contains_key(k) ==> steps_within(#[trigger] routes[k], steps)
}

pub open spec fn caps_distinct(s: Seq<StepView>) -> bool {
    forall|i: int, j: int| 0 <= i < j < s.len() ==> s[i].0 != s[j].0
}

/// Routes of at most `m` steps drawn from `steps`.
pub open spec fn bounded_routes(steps: Set<StepView>, m: nat) -> Set<Seq<StepView>> {
    Set::new(|l: Seq<StepView>| l.len() <= m && steps_within(l, steps))
}

/// Every route planning can build over these registrations.
pub open spec fn route_space(specs: Seq<CapabilitySpec>, provs: Seq<(IdView, IdView)>) -> Set<Seq<StepView>> {
    bounded_routes(step_set(specs, provs), step_set(specs, provs).len() + 1)
}

/// How many routes of the space are preferred to `c`.
pub open spec fn rank(space: Set<Seq<StepView>>, c: Seq<StepView>) -> nat {
    space.filter(|x: Seq<StepView>| score_less(x, c)).len()
}

pub open spec fn weight(routes: Routes, space: Set<Seq<StepView>>, k: IdView) -> nat {
    if routes.contains_key(k) && space.contains(routes[k]) {
        rank(space, routes[k])
    } else {
        space.len()
    }
}

/// The weights of the kinds of `d`, summed: it falls each time a kind
/// takes a route.
pub open spec fn potential(routes: Routes, space: Set<Seq<StepView>>, d: Seq<IdView>) -> nat
    decreases d.len(),
{
    if d.len() == 0 {
        0
    } else {
        potential(routes, space, d.drop_last()) + weight(routes, space, d.last())
    }
}

/// The output kinds of every capability, in order.
pub open spec fn all_outputs(specs: Seq<CapabilitySpec>) -> Seq<IdView>
    decreases specs.len(),
{
    if specs.len() == 0 {
        Seq::empty()
    } else {
        all_outputs(specs.drop_last()) + output_kinds(specs.last().output_ports@)
    }
}

proof fn lemma_all_outputs_contains(specs: Seq<CapabilitySpec>, i: int, o: int)
    requires
        0 <= i < specs.len(),
        0 <= o < output_kinds(specs[i].output_ports@).len(),
    ensures
        all_outputs(specs).contains(output_kinds(specs[i].output_ports@)[o]),
    decreases specs.len(),
{
    let prev = all_outputs(specs.drop_last());
    let last = output_kinds(specs.last().output_ports@);
    if i == specs.len() - 1 {
        assert((prev + last)[prev.len() + o] == last[o]);
    } else {
        assert(specs.drop_last()[i] == specs[i]);
        lemma_all_outputs_contains(specs.drop_last(), i, o);
        let w = choose|w: int| 0 <= w < prev.len() && prev[w] == output_kinds(specs[i].output_ports@)[o];
        assert((prev + last)[w] == prev[w]);
    }
}

proof fn lemma_merge_route(acc: Seq<StepView>, s: Seq<StepView>, j: int, steps: Set<StepView>)
    requires
        caps_distinct(acc),
        steps_within(acc, steps),
        steps_within(s, steps),
    ensures
        caps_distinct(merge_route(acc, s, j)),
        steps_within(merge_route(acc, s, j), steps),
    decreases s.len() - j,
{
    if 0 <= j < s.len() {
        if has_cap(acc, s[j].0) {
            lemma_merge_route(acc, s, j + 1, steps);
        } else {
            let next = acc.push(s[j]);
            assert(caps_distinct(next)) by {
                assert forall|a: int, b: int| 0 <= a < b < next.len() implies next[a].0 != next[b].0 by {
                    if b == acc.len() {
                        assert(next[a] == acc[a]);
                    } else {
                        assert(next[a] == acc[a] && next[b] == acc[b]);
                    }
                }
            }
            assert(steps_within(next, steps)) by {
                assert forall|a: int| 0 <= a < next.len() implies steps.contains(next[a]) by {
                    if a < acc.len() {
                        assert(next[a] == acc[a]);
                    }
                }
            }
            lemma_merge_route(next, s, j + 1, steps);
        }
    }
}

proof fn lemma_gather_routes(kinds: Seq<IdView>, routes: Routes, p: int, acc: Seq<StepView>, steps: Set<StepView>)
    requires
        routes_within(routes, steps),
        caps_distinct(acc),
        steps_within(acc, steps),
    ensures
        gather_routes(kinds, routes, p, acc) matches Some(r) ==> caps_distinct(r) && steps_within(r, steps),
    decreases kinds.len() - p,
{
    if 0 <= p < kinds.len() && routes.contains_key(kinds[p]) {
        assert(steps_within(routes[kinds[p]], steps));
        lemma_merge_route(acc, routes[kinds[p]], 0, steps);
        lemma_gather_routes(kinds, routes, p + 1, merge_route(acc, routes[kinds[p]], 0), steps);
    }
}

proof fn lemma_distinct_len(s: Seq<StepView>, steps: Set<StepView>)
    requires
        caps_distinct(s),
        steps_within(s, steps),
        steps.finite(),
    ensures
        s.len() <= steps.len(),
{
    assert(s.no_duplicates()) by {
        assert forall|i: int, j: int| 0 <= i < s.len() && 0 <= j < s.len() && i != j implies s[i] != s[j] by {
            if i < j {
                assert(s[i].0 != s[j].0);
            } else {
                assert(s[j].0 != s[i].0);
            }
        }
    }
    s.unique_seq_to_set();
    assert(s.to_set().subset_of(steps));
    vstd::set_lib::lemma_len_subset(s.to_set(), steps);
}

/// The route a capability offers lies in the route space.
proof fn lemma_route_for_in_space(specs: Seq<CapabilitySpec>, provs: Seq<(IdView, IdView)>, routes: Routes, i: int)
    requires
        0 <= i < specs.len(),
        routes_within(routes, step_set(specs, provs)),
        route_for(specs[i], provs, routes) is Some,
    ensures
        route_space(specs, provs).contains(route_for(specs[i], provs, routes).unwrap()),
        steps_within(route_for(specs[i], provs, routes).unwrap(), step_set(specs, provs)),
{
    let steps = step_set(specs, provs);
    let own = Seq::new(specs.len(), |k: int| own_step(specs[k], provs));
    assert(own[i] == own_step(specs[i], provs));
    assert(steps.contains(own_step(specs[i], provs)));
    lemma_gather_routes(input_kinds(specs[i].input_ports@), routes, 0, Seq::empty(), steps);
    let acc = gather_routes(input_kinds(specs[i].input_ports@), routes, 0, Seq::empty()).unwrap();
    lemma_distinct_len(acc, steps);
    let c = acc.push(own_step(specs[i], provs));
    assert(steps_within(c, steps)) by {
        assert forall|a: int| 0 <= a < c.len() implies steps.contains(c[a]) by {
            if a < acc.len() {
                assert(c[a] == acc[a]);
            }
        }
    }
}

proof fn lemma_bounded_routes_finite(steps: Set<StepView>, m: nat)
    requires
        steps.finite(),
    ensures
        bounded_routes(steps, m).finite(),
    decreases m,
{
    if m == 0 {
        assert forall|l: Seq<StepView>| bounded_routes(steps, 0).contains(l) implies l == Seq::<StepView>::empty() by {
            assert(l =~= Seq::<StepView>::empty());
        }
        assert(bounded_routes(steps, 0).subset_of(set![Seq::<StepView>::empty()]));
        vstd::set_lib::lemma_len_subset(bounded_routes(steps, 0), set![Seq::<StepView>::empty()]);
    } else {
        lemma_bounded_routes_finite(steps, (m - 1) as nat);
        let prev = bounded_routes(steps, (m - 1) as nat);
        let ext = |l: Seq<StepView>| steps.map(|x: StepView| l.push(x));
        let outer = prev.map(ext);
        prev.lemma_map_finite(ext);
        assert forall|s: Set<Seq<StepView>>| outer.contains(s) implies #[trigger] s.finite() by {
            let l = choose|l: Seq<StepView>| prev.contains(l) && s == ext(l);
            steps.lemma_map_finite(|x: StepView| l.push(x));
        }
        outer.lemma_flatten_finite();
        let grown = outer.flatten();
        assert(bounded_routes(steps, m).subset_of(prev.union(grown))) by {
            assert forall|l: Seq<StepView>| bounded_routes(steps, m).contains(l) implies prev.union(grown).contains(l) by {
                if l.len() < m {
                    assert(prev.contains(l));
                } else {
                    let front = l.drop_last();
                    assert(prev.contains(front));
                    assert(steps.contains(l.last()));
                    assert(l =~= front.push(l.last()));
                    assert(ext(front).contains(l));
                    assert(outer.contains(ext(front)));
                    assert(grown.contains(l));
                }
            }
        }
        vstd::set_lib::lemma_len_subset(bounded_routes(steps, m), prev.union(grown));
    }
}

proof fn lemma_route_space_finite(specs: Seq<CapabilitySpec>, provs: Seq<(IdView, IdView)>)
    ensures
        route_space(specs, provs).finite(),
        step_set(specs, provs).finite(),
{
    let own = Seq::new(specs.len(), |k: int| own_step(specs[k], provs));
    vstd::seq_lib::seq_to_set_is_finite(own);
    lemma_bounded_routes_finite(step_set(specs, provs), step_set(specs, provs).len() + 1);
}

proof fn lemma_rank_less(space: Set<Seq<StepView>>, a: Seq<StepView>, b: Seq<StepView>)
    requires
        space.finite(),
        space.contains(a),
        score_less(a, b),
    ensures
        rank(space, a) < rank(space, b),
{
    let fa = space.filter(|x: Seq<StepView>| score_less(x, a));
    let fb = space.filter(|x: Seq<StepView>| score_less(x, b));
    assert forall|x: Seq<StepView>| fa.contains(x) implies fb.remove(a).contains(x) by {
        lemma_score_transitive(x, a, b);
        if x == a {
            lemma_score_irreflexive(a);
        }
    }
    vstd::set_lib::lemma_len_subset(fb, space);
    vstd::set_lib::lemma_len_subset(fa, fb.remove(a));
    assert(fb.contains(a));
}

proof fn lemma_rank_bound(space: Set<Seq<StepView>>, a: Seq<StepView>)
    requires
        space.finite(),
        space.contains(a),
    ensures
        rank(space, a) < space.len(),
{
    let fa = space.filter(|x: Seq<StepView>| score_less(x, a));
    lemma_score_irreflexive(a);
    assert(fa.subset_of(space.remove(a)));
    vstd::set_lib::lemma_len_subset(fa, space.remove(a));
}

/// Giving kind `k` a preferred route lowers the weight of `k` and no other.
proof fn lemma_potential_insert(routes: Routes, space: Set<Seq<StepView>>, d: Seq<IdView>, k: IdView, c: Seq<StepView>)
    requires
        space.finite(),
        space.contains(c),
        !routes.contains_key(k) || score_less(c, routes[k]),
    ensures
        potential(routes.insert(k, c), space, d) <= potential(routes, space, d),
        d.contains(k) ==> potential(routes.insert(k, c), space, d) < potential(routes, space, d),
    decreases d.len(),
{
    if d.len() > 0 {
        let after = routes.insert(k, c);
        lemma_potential_insert(routes, space, d.drop_last(), k, c);
        let x = d.last();
        if x == k {
            lemma_rank_bound(space, c);
            if routes.contains_key(k) && space.contains(routes[k]) {
                lemma_rank_less(space, c, routes[k]);
            }
            assert(weight(after, space, x) < weight(routes, space, x));
        } else {
            assert(weight(after, space, x) == weight(routes, space, x));
            if d.contains(k) {
                let w = choose|w: int| 0 <= w < d.len() && d[w] == k;
                assert(d.drop_last()[w] == k);
            }
        }
    }
}


// ---- exact copies ----

pub open spec fn same_members(a: Seq<JsonMember>, b: Seq<JsonMember>) -> bool {
    key_views(a) == key_views(b) && value_views(a) == value_views(b)
}

/// Two declarations that say the same thing.
pub open spec fn same_spec(a: CapabilitySpec, b: CapabilitySpec) -> bool {
    &&& a.id@ == b.id@
    &&& a.input_ports@.len() == b.input_ports@.len()
    &&& forall|i: int| 0 <= i < a.input_ports@.len() ==> {
        let (x, y) = (#[trigger] a.input_ports@[i], b.input_ports@[i]);
        x.name@ == y.name@ && x.value_kind@ == y.value_kind@ && x.acceptance == y.acceptance && same_members(
            x.extensions@,
            y.extensions@,
        )
    }
    &&& a.output_ports@.len() == b.output_ports@.len()
    &&& forall|i: int| 0 <= i < a.output_ports@.len() ==> {
        let (x, y) = (#[trigger] a.output_ports@[i], b.output_ports@[i]);
        x.name@ == y.name@ && x.value_kind@ == y.value_kind@ && same_members(x.extensions@, y.extensions@)
    }
    &&& a.default_conformance_suite@ == b.default_conformance_suite@
    &&& same_members(a.extensions@, b.extensions@)
}

fn copy_members(v: &Vec<JsonMember>) -> (r: Vec<JsonMember>)
    ensures
        same_members(r@, v@),
{
    let mut out: Vec<JsonMember> = Vec::new();
    let mut i: usize = 0;
    while i < v.len()
        invariant
            i <= v.len(),
            key_views(out@) == key_views(v@).subrange(0, i as int),
            value_views(out@) == value_views(v@).subrange(0, i as int),
        decreases v.len() - i,
    {
        let ghost before = out@;
        out.push(JsonMember { key: v[i].key.clone(), value: copy_json(&v[i].value) });
        assert(key_views(out@) =~= key_views(v@).subrange(0, i + 1)) by {
            assert(key_views(out@) =~= key_views(before).push(v@[i as int].key@));
        }
        assert(value_views(out@) =~= value_views(v@).subrange(0, i + 1)) by {
            assert(value_views(out@) =~= value_views(before).push(v@[i as int].value@));
        }
        i = i + 1;
    }
    assert(key_views(v@).subrange(0, v.len() as int) =~= key_views(v@));
    assert(value_views(v@).subrange(0, v.len() as int) =~= value_views(v@));
    out
}

/// An equal, separately owned declaration.
pub fn copy_spec(spec: &CapabilitySpec) -> (r: CapabilitySpec)
    ensures
        same_spec(r, *spec),
{
    let mut inputs: Vec<InputPort> = Vec::new();
    let mut i: usize = 0;
    while i < spec.input_ports.len()
        invariant
            i <= spec.input_ports.len(),
            inputs@.len() == i,
            forall|k: int| 0 <= k < i ==> {
                let (x, y) = (#[trigger] inputs@[k], spec.input_ports@[k]);
                x.name@ == y.name@ && x.value_kind@ == y.value_kind@ && x.acceptance == y.acceptance
                    && same_members(x.extensions@, y.extensions@)
            },
        decreases spec.input_ports.len() - i,
    {
        let port = &spec.input_ports[i];
        inputs.push(InputPort {
            name: port.name.duplicate(),
            value_kind: port.value_kind.duplicate(),
            acceptance: port.acceptance,
            extensions: copy_members(&port.extensions),
        });
        i = i + 1;
    }
    let mut outputs: Vec<OutputPort> = Vec::new();
    let mut i: usize = 0;
    while i < spec.output_ports.len()
        invariant
            i <= spec.output_ports.len(),
            outputs@.len() == i,
            forall|k: int| 0 <= k < i ==> {
                let (x, y) = (#[trigger] outputs@[k], spec.output_ports@[k]);
                x.name@ == y.name@ && x.value_kind@ == y.value_kind@ && same_members(x.extensions@, y.extensions@)
            },
        decreases spec.output_ports.len() - i,
    {
        let port = &spec.output_ports[i];
        outputs.push(OutputPort {
            name: port.name.duplicate(),
            value_kind: port.value_kind.duplicate(),
            extensions: copy_members(&port.extensions),
        });
        i = i + 1;
    }
    CapabilitySpec {
        id: spec.id.duplicate(),
        input_ports: inputs,
        output_ports: outputs,
        default_conformance_suite: spec.default_conformance_suite.clone(),
        extensions: copy_members(&spec.extensions),
    }
}

fn copy_steps(v: &Vec<PlanStep>) -> (r: Vec<PlanStep>)
    ensures
        steps_view(r@) == steps_view(v@),
{
    let mut out: Vec<PlanStep> = Vec::new();
    let mut i: usize = 0;
    while i < v.len()
        invariant
            i <= v.len(),
            steps_view(out@) == steps_view(v@).subrange(0, i as int),
        decreases v.len() - i,
    {
        let ghost before = out@;
        out.push(v[i].duplicate());
        assert(steps_view(out@) =~= steps_view(v@).subrange(0, i + 1)) by {
            assert(steps_view(out@) =~= steps_view(before).push(v@[i as int]@));
        }
        i = i + 1;
    }
    assert(steps_view(v@).subrange(0, v.len() as int) =~= steps_view(v@));
    out
}

fn copy_descriptor(d: &ProviderDescriptor) -> (r: ProviderDescriptor)
    ensures
        r.id@ == d.id@,
        r.capability@ == d.capability@,
        r.implementation_digest@ == d.implementation_digest@,
{
    ProviderDescriptor {
        id: d.id.duplicate(),
        capability: d.capability.duplicate(),
        implementation_digest: d.implementation_digest.clone(),
    }
}

// ---- the registry ----

/// An in-process implementation of one capability, supplied by the host.
pub trait CapabilityProvider {
    fn descriptor(&self) -> ProviderDescriptor;

    fn invoke(&self, capability: &CapabilitySpec, inputs: &[FactInstance]) -> Result<Vec<ProducedFact>, String>;
}

struct ProviderSlot<P> {
    descriptor: ProviderDescriptor,
    provider: P,
}

/// Registered declarations, ordered by identity, and the providers bound
/// to them, ordered by provider identity.
pub struct CapabilityRegistry<P> {
    specs: Vec<CapabilitySpec>,
    providers: Vec<ProviderSlot<P>>,
}

pub open spec fn spec_ids(specs: Seq<CapabilitySpec>) -> Seq<IdView> {
    Seq::new(specs.len(), |i: int| specs[i].id@)
}

pub open spec fn descriptor_ids(ds: Seq<ProviderDescriptor>) -> Seq<IdView> {
    Seq::new(ds.len(), |i: int| ds[i].id@)
}

/// `(provider, capability)` for each provider.
pub open spec fn bindings_of(ds: Seq<ProviderDescriptor>) -> Seq<(IdView, IdView)> {
    Seq::new(ds.len(), |i: int| (ds[i].id@, ds[i].capability@))
}

pub open spec fn ascending(ids: Seq<IdView>) -> bool {
    forall|i: int, j: int| 0 <= i < j < ids.len() ==> id_less(ids[i], ids[j])
}

/// The first position from `i` on whose identity is not below `id`.
pub open spec fn insert_index(ids: Seq<IdView>, id: IdView, i: int) -> int
    decreases ids.len() - i,
{
    if i < 0 {
        0
    } else if i >= ids.len() {
        i
    } else if id_less(ids[i], id) {
        insert_index(ids, id, i + 1)
    } else {
        i
    }
}

pub open spec fn valid_descriptor(d: ProviderDescriptor) -> bool {
    id_well_formed(d.id@) && is_sha256_text(d.implementation_digest@)
}

impl<P> CapabilityRegistry<P> {
    /// The registered declarations, in identity order.
    pub closed spec fn declared(&self) -> Seq<CapabilitySpec> {
        self.specs@
    }

    /// The registered provider descriptors, in provider identity order.
    pub closed spec fn registered(&self) -> Seq<ProviderDescriptor> {
        Seq::new(self.providers@.len(), |i: int| self.providers@[i].descriptor)
    }

    pub open spec fn bindings(&self) -> Seq<(IdView, IdView)> {
        bindings_of(self.registered())
    }

    /// Declarations are valid and unique, providers are valid, unique and
    /// bound to a declared capability.
    pub open spec fn wf(&self) -> bool {
        &&& ascending(spec_ids(self.declared()))
        &&& forall|i: int| 0 <= i < self.declared().len() ==> spec_rejection(#[trigger] self.declared()[i]) is None
        &&& ascending(descriptor_ids(self.registered()))
        &&& forall|i: int| 0 <= i < self.registered().len() ==> valid_descriptor(#[trigger] self.registered()[i])
        &&& forall|i: int| 0 <= i < self.registered().len() ==> spec_ids(self.declared()).contains(
            (#[trigger] self.registered()[i]).capability@,
        )
    }

    /// A step planning can put on a route binds the least provider
    /// identity, in identity order, among the providers registered for the
    /// step's capability, and binds none exactly when no provider of that
    /// capability is registered.
    pub proof fn lemma_step_binds_least_provider(&self, step: StepView)
        requires
            self.wf(),
            step_set(self.declared(), self.bindings()).contains(step),
        ensures
            match step.1 {
                Some(p) => (exists|k: int|
                    0 <= k < self.registered().len() && self.registered()[k].id@ == p && self.registered()[k].capability@
                        == step.0) && forall|j: int|
                    0 <= j < self.registered().len() && (#[trigger] self.registered()[j]).capability@ == step.0
                        ==> self.registered()[j].id@ == p || id_less(p, self.registered()[j].id@),
                None => forall|j: int|
                    0 <= j < self.registered().len() ==> (#[trigger] self.registered()[j]).capability@ != step.0,
            },
    {
        let specs = self.declared();
        let provs = self.bindings();
        let ds = self.registered();
        let own = Seq::new(specs.len(), |x: int| own_step(specs[x], provs));
        let m = choose|m: int| 0 <= m < own.len() && own[m] == step;
        assert(step == own_step(specs[m], provs));
        assert forall|a: int, b: int| 0 <= a < b < provs.len() implies id_less(#[trigger] provs[a].0, #[trigger] provs[b].0) by {
            assert(descriptor_ids(ds)[a] == provs[a].0);
            assert(descriptor_ids(ds)[b] == provs[b].0);
        }
        lemma_first_provider_is_least(provs, step.0, 0);
        assert forall|j: int| 0 <= j < ds.len() implies #[trigger] provs[j] == (ds[j].id@, ds[j].capability@) by {}
        match step.1 {
            Some(p) => {
                let k = choose|k: int| 0 <= k < provs.len() && provs[k] == (p, step.0);
                assert(provs[k] == (ds[k].id@, ds[k].capability@));
                assert forall|j: int| 0 <= j < ds.len() && (#[trigger] ds[j]).capability@ == step.0 implies ds[j].id@ == p
                    || id_less(p, ds[j].id@) by {
                    assert(provs[j] == (ds[j].id@, ds[j].capability@));
                }
            },
            None => {
                assert forall|j: int| 0 <= j < ds.len() implies (#[trigger] ds[j]).capability@ != step.0 by {
                    assert(provs[j] == (ds[j].id@, ds[j].capability@));
                }
            },
        }
    }

    /// The empty registry.
    pub fn new() -> (r: Self)
        ensures
            r.wf(),
            r.declared() == Seq::<CapabilitySpec>::empty(),
            r.registered() == Seq::<ProviderDescriptor>::empty(),
    {
        let r = CapabilityRegistry { specs: Vec::new(), providers: Vec::new() };
        assert(r.registered() =~= Seq::<ProviderDescriptor>::empty());
        r
    }

    /// The registered declarations, in identity order.
    pub fn specs(&self) -> (r: &[CapabilitySpec])
        ensures
            r@ == self.declared(),
    {
        self.specs.as_slice()
    }
}

proof fn lemma_insert_ascending(ids: Seq<IdView>, id: IdView, pos: int)
    requires
        ascending(ids),
        !ids.contains(id),
        pos == insert_index(ids, id, 0),
    ensures
        0 <= pos <= ids.len(),
        ascending(ids.insert(pos, id)),
{
    lemma_insert_index(ids, id, 0);
    let out = ids.insert(pos, id);
    assert forall|i: int, j: int| 0 <= i < j < out.len() implies id_less(out[i], out[j]) by {
        if i < pos && j < pos {
            assert(out[i] == ids[i] && out[j] == ids[j]);
        } else if i < pos && j == pos {
            assert(out[i] == ids[i]);
        } else if i < pos {
            assert(out[i] == ids[i] && out[j] == ids[j - 1]);
        } else if i == pos {
            assert(out[j] == ids[j - 1]);
            assert(out[i] == id);
            assert(!id_less(ids[pos], id));
            assert(ids[pos] != id);
            lemma_id_less_total(id, ids[pos]);
            if pos < j - 1 {
                lemma_id_less_transitive(id, ids[pos], ids[j - 1]);
            }
        } else {
            assert(out[i] == ids[i - 1] && out[j] == ids[j - 1]);
        }
    }
}

proof fn lemma_insert_index(ids: Seq<IdView>, id: IdView, i: int)
    requires
        ascending(ids),
        0 <= i <= ids.len(),
        forall|k: int| 0 <= k < i ==> id_less(ids[k], id),
    ensures
        i <= insert_index(ids, id, i) <= ids.len(),
        forall|k: int| 0 <= k < insert_index(ids, id, i) ==> id_less(ids[k], id),
        insert_index(ids, id, i) < ids.len() ==> !id_less(ids[insert_index(ids, id, i)], id),
    decreases ids.len() - i,
{
    if i < ids.len() && id_less(ids[i], id) {
        lemma_insert_index(ids, id, i + 1);
    }
}


proof fn lemma_insert_index_from(ids: Seq<IdView>, id: IdView, i: int)
    requires
        0 <= i <= ids.len(),
        forall|k: int| 0 <= k < i ==> id_less(ids[k], id),
    ensures
        insert_index(ids, id, 0) == insert_index(ids, id, i),
    decreases i,
{
    if i > 0 {
        lemma_insert_index_from(ids, id, i - 1);
    }
}

/// In an ascending sequence, the first position not below `id` holds `id`
/// exactly when `id` occurs.
proof fn lemma_position_decides(ids: Seq<IdView>, id: IdView, i: int)
    requires
        ascending(ids),
        0 <= i <= ids.len(),
        forall|k: int| 0 <= k < i ==> id_less(ids[k], id),
        i < ids.len() ==> !id_less(ids[i], id),
    ensures
        ids.contains(id) <==> (i < ids.len() && ids[i] == id),
{
    if ids.contains(id) {
        let m = choose|m: int| 0 <= m < ids.len() && ids[m] == id;
        if m < i {
            lemma_id_less_irreflexive(id);
        } else if m > i && ids[i] != id {
            lemma_id_less_total(ids[i], id);
            lemma_id_less_transitive(id, ids[i], ids[m]);
            lemma_id_less_irreflexive(id);
        }
    }
}

fn first_not_below(ids: &Vec<ExactId>, id: &ExactId) -> (r: usize)
    requires
        ascending(Seq::new(ids@.len(), |k: int| ids@[k]@)),
    ensures
        r <= ids.len(),
        r == insert_index(Seq::new(ids@.len(), |k: int| ids@[k]@), id@, 0),
        Seq::new(ids@.len(), |k: int| ids@[k]@).contains(id@) <==> (r < ids.len() && ids@[r as int]@ == id@),
{
    let ghost v = Seq::new(ids@.len(), |k: int| ids@[k]@);
    let mut i: usize = 0;
    let mut done = false;
    while !done && i < ids.len()
        invariant
            i <= ids.len(),
            v == Seq::new(ids@.len(), |k: int| ids@[k]@),
            forall|k: int| 0 <= k < i ==> id_less(v[k], id@),
            done ==> i < ids.len() && !id_less(v[i as int], id@),
        decreases ids.len() - i + (if done { 0int } else { 1int }),
    {
        if id_less_exec(&ids[i], id) {
            i = i + 1;
        } else {
            done = true;
        }
    }
    proof {
        lemma_insert_index_from(v, id@, i as int);
        lemma_position_decides(v, id@, i as int);
    }
    i
}

impl<P> CapabilityRegistry<P> {
    fn spec_id_vec(&self) -> (r: Vec<ExactId>)
        ensures
            Seq::new(r@.len(), |k: int| r@[k]@) == spec_ids(self.declared()),
    {
        let mut out: Vec<ExactId> = Vec::new();
        let mut i: usize = 0;
        while i < self.specs.len()
            invariant
                i <= self.specs.len(),
                out@.len() == i,
                forall|k: int| 0 <= k < i ==> out@[k]@ == self.specs@[k].id@,
            decreases self.specs.len() - i,
        {
            out.push(self.specs[i].id.duplicate());
            i = i + 1;
        }
        assert(Seq::new(out@.len(), |k: int| out@[k]@) =~= spec_ids(self.declared()));
        out
    }

    fn provider_id_vec(&self) -> (r: Vec<ExactId>)
        ensures
            Seq::new(r@.len(), |k: int| r@[k]@) == descriptor_ids(self.registered()),
    {
        let mut out: Vec<ExactId> = Vec::new();
        let mut i: usize = 0;
        while i < self.providers.len()
            invariant
                i <= self.providers.len(),
                out@.len() == i,
                forall|k: int| 0 <= k < i ==> out@[k]@ == self.providers@[k].descriptor.id@,
            decreases self.providers.len() - i,
        {
            out.push(self.providers[i].descriptor.id.duplicate());
            i = i + 1;
        }
        assert(Seq::new(out@.len(), |k: int| out@[k]@) =~= descriptor_ids(self.registered()));
        out
    }

    /// Registers one valid declaration under its exact identity; refuses an
    /// invalid declaration and an identity already registered.
    pub fn register_spec(&mut self, spec: CapabilitySpec) -> (r: Result<(), RegistryError>)
        requires
            old(self).wf(),
        ensures
            final(self).wf(),
            final(self).registered() == old(self).registered(),
            r is Ok <==> spec_rejection(spec) is None && !spec_ids(old(self).declared()).contains(spec.id@),
            r is Ok ==> final(self).declared() == old(self).declared().insert(
                insert_index(spec_ids(old(self).declared()), spec.id@, 0),
                spec,
            ),
            r is Err ==> final(self).declared() == old(self).declared(),
            r matches Err(e) ==> match spec_rejection(spec) {
                Some(reason) => e matches RegistryError::InvalidCapability { capability, reason: m } && capability@
                    == spec.id@ && m@ == reason,
                None => e matches RegistryError::DuplicateCapability(id) && id@ == spec.id@,
            },
    {
        match validate_spec(&spec) {
            Ok(()) => {},
            Err(e) => return Err(e),
        }
        let ids = self.spec_id_vec();
        let pos = first_not_below(&ids, &spec.id);
        let ghost before = self.declared();
        proof {
            let iv = Seq::new(ids@.len(), |k: int| ids@[k]@);
            assert(iv.len() == spec_ids(before).len());
            if pos < ids.len() {
                assert(iv[pos as int] == ids@[pos as int]@);
                assert(spec_ids(before)[pos as int] == self.specs@[pos as int].id@);
            }
        }
        if pos < self.specs.len() && self.specs[pos].id.same_as(&spec.id) {
            return Err(RegistryError::DuplicateCapability(spec.id));
        }
        let ghost registered = self.registered();
        proof {
            lemma_insert_ascending(spec_ids(before), spec.id@, pos as int);
        }
        self.specs.insert(pos, spec);
        assert(self.registered() =~= registered);
        assert(spec_ids(self.declared()) =~= spec_ids(before).insert(pos as int, spec.id@));
        assert forall|i: int| 0 <= i < self.registered().len() implies spec_ids(self.declared()).contains(
            (#[trigger] self.registered()[i]).capability@,
        ) by {
            let c = self.registered()[i].capability@;
            let m = choose|m: int| 0 <= m < spec_ids(before).len() && spec_ids(before)[m] == c;
            if m < pos {
                assert(spec_ids(self.declared())[m] == c);
            } else {
                assert(spec_ids(self.declared())[m + 1] == c);
            }
        }
        assert forall|i: int| 0 <= i < self.declared().len() implies spec_rejection(#[trigger] self.declared()[i]) is None by {
            if i < pos {
                assert(self.declared()[i] == before[i]);
            } else if i > pos {
                assert(self.declared()[i] == before[i - 1]);
            }
        }
        Ok(())
    }

    /// Binds a provider under a descriptor: the descriptor must be valid,
    /// name a registered capability, and carry an unregistered identity.
    pub fn register_descriptor(&mut self, descriptor: ProviderDescriptor, provider: P) -> (r: Result<(), RegistryError>)
        requires
            old(self).wf(),
        ensures
            final(self).wf(),
            final(self).declared() == old(self).declared(),
            r is Ok <==> valid_descriptor(descriptor) && spec_ids(old(self).declared()).contains(descriptor.capability@)
                && !descriptor_ids(old(self).registered()).contains(descriptor.id@),
            r is Ok ==> final(self).registered() == old(self).registered().insert(
                insert_index(descriptor_ids(old(self).registered()), descriptor.id@, 0),
                descriptor,
            ),
            r is Ok ==> final(self).registered().len() == old(self).registered().len() + 1,
            r is Err ==> final(self).registered() == old(self).registered(),
            r matches Err(e) ==> if !valid_descriptor(descriptor) {
                e is InvalidProvider
            } else if !spec_ids(old(self).declared()).contains(descriptor.capability@) {
                e matches RegistryError::UnknownCapability(c) && c@ == descriptor.capability@
            } else {
                e matches RegistryError::DuplicateProvider(id) && id@ == descriptor.id@
            },
    {
        match validate_provider(&descriptor) {
            Ok(()) => {},
            Err(e) => return Err(e),
        }
        let ids = self.spec_id_vec();
        let at = first_not_below(&ids, &descriptor.capability);
        proof {
            let iv = Seq::new(ids@.len(), |k: int| ids@[k]@);
            assert(iv.len() == spec_ids(self.declared()).len());
            if at < ids.len() {
                assert(iv[at as int] == ids@[at as int]@);
                assert(spec_ids(self.declared())[at as int] == self.specs@[at as int].id@);
            }
        }
        if !(at < self.specs.len() && self.specs[at].id.same_as(&descriptor.capability)) {
            return Err(RegistryError::UnknownCapability(descriptor.capability));
        }
        assert(spec_ids(self.declared())[at as int] == descriptor.capability@);
        let pids = self.provider_id_vec();
        let pos = first_not_below(&pids, &descriptor.id);
        proof {
            let iv = Seq::new(pids@.len(), |k: int| pids@[k]@);
            assert(iv.len() == descriptor_ids(self.registered()).len());
            if pos < pids.len() {
                assert(iv[pos as int] == pids@[pos as int]@);
                assert(descriptor_ids(self.registered())[pos as int] == self.providers@[pos as int].descriptor.id@);
            }
        }
        if pos < self.providers.len() && self.providers[pos].descriptor.id.same_as(&descriptor.id) {
            return Err(RegistryError::DuplicateProvider(descriptor.id));
        }
        let ghost before = self.registered();
        proof {
            lemma_insert_ascending(descriptor_ids(before), descriptor.id@, pos as int);
        }
        let ghost d = descriptor;
        self.providers.insert(pos, ProviderSlot { descriptor, provider });
        assert(self.registered() =~= before.insert(pos as int, d));
        assert(descriptor_ids(self.registered()) =~= descriptor_ids(before).insert(pos as int, d.id@));
        assert forall|i: int| 0 <= i < self.registered().len() implies valid_descriptor(#[trigger] self.registered()[i])
            && spec_ids(self.declared()).contains(self.registered()[i].capability@) by {
            if i < pos {
                assert(self.registered()[i] == before[i]);
            } else if i > pos {
                assert(self.registered()[i] == before[i - 1]);
            }
        }
        Ok(())
    }
}

impl<P: CapabilityProvider> CapabilityRegistry<P> {
    /// Registers a provider under the descriptor it reports, as
    /// `register_descriptor` does.
    pub fn register_provider(&mut self, provider: P) -> (r: Result<(), RegistryError>)
        requires
            old(self).wf(),
        ensures
            final(self).wf(),
            final(self).declared() == old(self).declared(),
            r is Ok ==> final(self).registered().len() == old(self).registered().len() + 1,
            r is Err ==> final(self).registered() == old(self).registered(),
    {
        let descriptor = provider.descriptor();
        self.register_descriptor(descriptor, provider)
    }

    /// The descriptors the registered providers report, in provider
    /// identity order.
    pub fn provider_descriptors(&self) -> (r: Vec<ProviderDescriptor>)
        ensures
            r@.len() == self.registered().len(),
    {
        let mut out: Vec<ProviderDescriptor> = Vec::new();
        let mut i: usize = 0;
        while i < self.providers.len()
            invariant
                i <= self.providers.len(),
                out@.len() == i,
            decreases self.providers.len() - i,
        {
            out.push(self.providers[i].provider.descriptor());
            i = i + 1;
        }
        out
    }
}


// ---- planning ----

/// A route to a plan: its target, its steps, and the declarations of the
/// steps no installed provider implements, which are assignable work.
#[derive(Debug, PartialEq, Eq)]
pub struct DerivationPlan {
    pub target: ExactId,
    pub steps: Vec<PlanStep>,
    pub needs: Vec<CapabilityNeed>,
}

/// Why no plan exists.
#[derive(Debug, PartialEq, Eq)]
pub enum PlanError {
    Unreachable(ExactId),
}

impl DerivationPlan {
    /// Whether every step carries a provider binding and nothing is needed.
    pub fn has_provider_for_every_step(&self) -> (r: bool)
        ensures
            r == (self.needs@.len() == 0 && forall|i: int| 0 <= i < self.steps@.len() ==> (#[trigger] self.steps@[i]).provider is Some),
    {
        if self.needs.len() > 0 {
            return false;
        }
        let mut i: usize = 0;
        while i < self.steps.len()
            invariant
                i <= self.steps.len(),
                forall|k: int| 0 <= k < i ==> (#[trigger] self.steps@[k]).provider is Some,
            decreases self.steps.len() - i,
        {
            if self.steps[i].provider.is_none() {
                return false;
            }
            i = i + 1;
        }
        true
    }
}

/// The capabilities of the steps without a provider, in route order.
pub open spec fn missing_caps(steps: Seq<StepView>) -> Seq<IdView>
    decreases steps.len(),
{
    if steps.len() == 0 {
        Seq::empty()
    } else {
        missing_caps(steps.drop_last()) + (if steps.last().1 is None { seq![steps.last().0] } else { Seq::empty() })
    }
}

/// The first declaration, from `i` on, with this identity.
pub open spec fn first_spec_index(specs: Seq<CapabilitySpec>, cap: IdView, i: int) -> Option<int>
    decreases specs.len() - i,
{
    if i < 0 || i >= specs.len() {
        None
    } else if specs[i].id@ == cap {
        Some(i)
    } else {
        first_spec_index(specs, cap, i + 1)
    }
}

pub open spec fn need_reason() -> Seq<char> {
    "no installed provider implements this exact capability"@
}

/// One need per step without a provider, in route order, carrying that
/// capability's complete declaration.
pub open spec fn needs_for(needs: Seq<CapabilityNeed>, steps: Seq<StepView>, specs: Seq<CapabilitySpec>) -> bool {
    let caps = missing_caps(steps);
    &&& needs.len() == caps.len()
    &&& forall|i: int| 0 <= i < needs.len() ==> need_matches(#[trigger] needs[i], caps[i], specs)
}

/// A need for the capability `cap`: its registered declaration and the
/// reason.
pub open spec fn need_matches(need: CapabilityNeed, cap: IdView, specs: Seq<CapabilitySpec>) -> bool {
    &&& first_spec_index(specs, cap, 0) is Some
    &&& same_spec(need.specification, specs[first_spec_index(specs, cap, 0).unwrap()])
    &&& need.reason@ == need_reason()
}

struct RouteEntry {
    kind: ExactId,
    steps: Vec<PlanStep>,
}

spec fn entries_agree(entries: Seq<RouteEntry>, routes: Routes) -> bool {
    &&& forall|i: int, j: int| 0 <= i < j < entries.len() ==> entries[i].kind@ != entries[j].kind@
    &&& forall|i: int| 0 <= i < entries.len() ==> routes.contains_key((#[trigger] entries[i]).kind@) && routes[entries[i].kind@]
        == steps_view(entries[i].steps@)
    &&& forall|k: IdView| routes.contains_key(k) ==> exists|i: int| 0 <= i < entries.len() && (#[trigger] entries[i]).kind@ == k
}

fn find_route(entries: &Vec<RouteEntry>, kind: &ExactId) -> (r: Option<usize>)
    ensures
        r matches Some(i) ==> i < entries.len() && entries@[i as int].kind@ == kind@,
        r is None ==> forall|i: int| 0 <= i < entries.len() ==> (#[trigger] entries@[i]).kind@ != kind@,
{
    let mut i: usize = 0;
    while i < entries.len()
        invariant
            i <= entries.len(),
            forall|k: int| 0 <= k < i ==> (#[trigger] entries@[k]).kind@ != kind@,
        decreases entries.len() - i,
    {
        if entries[i].kind.same_as(kind) {
            return Some(i);
        }
        i = i + 1;
    }
    None
}

fn set_route(entries: &mut Vec<RouteEntry>, kind: &ExactId, steps: Vec<PlanStep>, Ghost(routes): Ghost<Routes>)
    requires
        entries_agree(old(entries)@, routes),
    ensures
        entries_agree(final(entries)@, routes.insert(kind@, steps_view(steps@))),
{
    let ghost sv = steps_view(steps@);
    let ghost after = routes.insert(kind@, sv);
    match find_route(entries, kind) {
        Some(i) => {
            let ghost before = entries@;
            entries.set(i, RouteEntry { kind: kind.duplicate(), steps });
            assert forall|k: IdView| after.contains_key(k) implies exists|j: int| 0 <= j < entries@.len() && (#[trigger] entries@[j]).kind@ == k by {
                if k != kind@ {
                    let j = choose|j: int| 0 <= j < before.len() && (#[trigger] before[j]).kind@ == k;
                    assert(entries@[j] == before[j]);
                } else {
                    assert(entries@[i as int].kind@ == k);
                }
            }
            assert forall|a: int| 0 <= a < entries@.len() implies after.contains_key((#[trigger] entries@[a]).kind@)
                && after[entries@[a].kind@] == steps_view(entries@[a].steps@) by {
                if a != i {
                    assert(entries@[a] == before[a]);
                }
            }
            assert forall|a: int, b: int| 0 <= a < b < entries@.len() implies entries@[a].kind@ != entries@[b].kind@ by {
                if a != i && b != i {
                    assert(entries@[a] == before[a] && entries@[b] == before[b]);
                } else if a == i {
                    assert(entries@[b] == before[b]);
                } else {
                    assert(entries@[a] == before[a]);
                }
            }
        },
        None => {
            let ghost before = entries@;
            entries.push(RouteEntry { kind: kind.duplicate(), steps });
            assert forall|k: IdView| after.contains_key(k) implies exists|j: int| 0 <= j < entries@.len() && (#[trigger] entries@[j]).kind@ == k by {
                if k != kind@ {
                    let j = choose|j: int| 0 <= j < before.len() && (#[trigger] before[j]).kind@ == k;
                    assert(entries@[j] == before[j]);
                } else {
                    assert(entries@[before.len() as int].kind@ == k);
                }
            }
            assert forall|a: int| 0 <= a < entries@.len() implies after.contains_key((#[trigger] entries@[a]).kind@)
                && after[entries@[a].kind@] == steps_view(entries@[a].steps@) by {
                if a < before.len() {
                    assert(entries@[a] == before[a]);
                }
            }
            assert forall|a: int, b: int| 0 <= a < b < entries@.len() implies entries@[a].kind@ != entries@[b].kind@ by {
                assert(entries@[a] == before[a]);
                if b < before.len() {
                    assert(entries@[b] == before[b]);
                }
            }
        },
    }
}

fn has_capability(acc: &Vec<PlanStep>, cap: &ExactId) -> (r: bool)
    ensures
        r == has_cap(steps_view(acc@), cap@),
{
    let mut i: usize = 0;
    while i < acc.len()
        invariant
            i <= acc.len(),
            forall|k: int| 0 <= k < i ==> (#[trigger] acc@[k]).capability@ != cap@,
        decreases acc.len() - i,
    {
        if acc[i].capability.same_as(cap) {
            assert(steps_view(acc@)[i as int].0 == cap@);
            return true;
        }
        i = i + 1;
    }
    assert forall|k: int| 0 <= k < steps_view(acc@).len() implies steps_view(acc@)[k].0 != cap@ by {
        assert(steps_view(acc@)[k] == acc@[k]@);
    }
    false
}

impl<P> CapabilityRegistry<P> {
    /// The provider a capability's step binds: the least provider identity
    /// registered for it.
    fn provider_for(&self, cap: &ExactId) -> (r: Option<ExactId>)
        ensures
            match r {
                Some(p) => first_provider(self.bindings(), cap@, 0) == Some(p@),
                None => first_provider(self.bindings(), cap@, 0) is None,
            },
    {
        let ghost b = self.bindings();
        let mut i: usize = 0;
        while i < self.providers.len()
            invariant
                i <= self.providers.len(),
                b == self.bindings(),
                b.len() == self.providers.len(),
                first_provider(b, cap@, 0) == first_provider(b, cap@, i as int),
            decreases self.providers.len() - i,
        {
            assert(b[i as int] == (self.providers@[i as int].descriptor.id@, self.providers@[i as int].descriptor.capability@));
            if self.providers[i].descriptor.capability.same_as(cap) {
                return Some(self.providers[i].descriptor.id.duplicate());
            }
            i = i + 1;
        }
        None
    }

    /// The route a declaration offers its outputs under the current routes.
    fn route_for_exec(&self, spec: &CapabilitySpec, entries: &Vec<RouteEntry>, Ghost(routes): Ghost<Routes>) -> (r: Option<
        Vec<PlanStep>,
    >)
        requires
            entries_agree(entries@, routes),
        ensures
            match r {
                Some(v) => route_for(*spec, self.bindings(), routes) == Some(steps_view(v@)),
                None => route_for(*spec, self.bindings(), routes) is None,
            },
    {
        let ghost kinds = input_kinds(spec.input_ports@);
        let mut acc: Vec<PlanStep> = Vec::new();
        assert(steps_view(acc@) =~= Seq::<StepView>::empty());
        let mut p: usize = 0;
        while p < spec.input_ports.len()
            invariant
                p <= spec.input_ports.len(),
                kinds == input_kinds(spec.input_ports@),
                entries_agree(entries@, routes),
                gather_routes(kinds, routes, 0, Seq::empty()) == gather_routes(kinds, routes, p as int, steps_view(acc@)),
            decreases spec.input_ports.len() - p,
        {
            assert(kinds[p as int] == spec.input_ports@[p as int].value_kind@);
            match find_route(entries, &spec.input_ports[p].value_kind) {
                None => {
                    assert(!routes.contains_key(kinds[p as int]));
                    return None;
                },
                Some(e) => {
                    let source = &entries[e].steps;
                    let ghost s = steps_view(source@);
                    let ghost acc0 = steps_view(acc@);
                    assert(routes[kinds[p as int]] == s);
                    let mut j: usize = 0;
                    while j < source.len()
                        invariant
                            j <= source.len(),
                            s == steps_view(source@),
                            merge_route(acc0, s, 0) == merge_route(steps_view(acc@), s, j as int),
                        decreases source.len() - j,
                    {
                        assert(s[j as int] == source@[j as int]@);
                        if !has_capability(&acc, &source[j].capability) {
                            let ghost before = steps_view(acc@);
                            acc.push(source[j].duplicate());
                            assert(steps_view(acc@) =~= before.push(s[j as int]));
                        }
                        j = j + 1;
                    }
                    p = p + 1;
                },
            }
        }
        let own = PlanStep { capability: spec.id.duplicate(), provider: self.provider_for(&spec.id) };
        let ghost before = steps_view(acc@);
        acc.push(own);
        assert(steps_view(acc@) =~= before.push(own_step(*spec, self.bindings())));
        Some(acc)
    }

    fn spec_index(&self, cap: &ExactId) -> (r: Option<usize>)
        ensures
            match r {
                Some(x) => first_spec_index(self.declared(), cap@, 0) == Some(x as int) && x < self.declared().len(),
                None => first_spec_index(self.declared(), cap@, 0) is None,
            },
    {
        let mut i: usize = 0;
        while i < self.specs.len()
            invariant
                i <= self.specs.len(),
                first_spec_index(self.declared(), cap@, 0) == first_spec_index(self.declared(), cap@, i as int),
            decreases self.specs.len() - i,
        {
            if self.specs[i].id.same_as(cap) {
                return Some(i);
            }
            i = i + 1;
        }
        None
    }
}

proof fn lemma_first_spec_index(specs: Seq<CapabilitySpec>, cap: IdView, i: int, m: int)
    requires
        0 <= i <= m < specs.len(),
        specs[m].id@ == cap,
    ensures
        first_spec_index(specs, cap, i) is Some,
    decreases m - i,
{
    if specs[i].id@ != cap {
        lemma_first_spec_index(specs, cap, i + 1, m);
    }
}


impl<P> CapabilityRegistry<P> {
    /// Finds a route of declared capabilities from the facts held to the
    /// target: passes over the declarations in identity order, each
    /// offering its outputs the merged routes of its inputs plus its own
    /// step, a kind taking an offer when it has no route or the offer is
    /// preferred, until a pass changes nothing. The plan is the target's
    /// route, with one need per step no installed provider implements.
    #[verifier::rlimit(40)]
    pub fn plan(&self, initial: Vec<ExactId>, target: &ExactId) -> (r: Result<DerivationPlan, PlanError>)
        requires
            self.wf(),
        ensures
            r is Ok <==> planned_routes(self.declared(), self.bindings(), id_views(initial@)).contains_key(target@),
            r matches Ok(p) ==> p.target@ == target@ && steps_view(p.steps@) == planned_routes(
                self.declared(),
                self.bindings(),
                id_views(initial@),
            )[target@] && needs_for(p.needs@, steps_view(p.steps@), self.declared()),
            r matches Ok(p) ==> steps_within(steps_view(p.steps@), step_set(self.declared(), self.bindings())),
            r matches Err(PlanError::Unreachable(t)) ==> t@ == target@,
            id_views(initial@).contains(target@) ==> (r matches Ok(p) && p.steps@.len() == 0 && p.needs@.len() == 0),
    {
        let ghost specs = self.declared();
        let ghost provs = self.bindings();
        let ghost init = id_views(initial@);
        let ghost start = initial_routes(init);
        let ghost space = route_space(specs, provs);
        let ghost steps_all = step_set(specs, provs);
        let ghost d = all_outputs(specs);
        proof {
            lemma_route_space_finite(specs, provs);
        }
        let mut entries: Vec<RouteEntry> = Vec::new();
        let ghost mut routes: Routes = Map::empty();
        assert(routes =~= initial_routes(init.subrange(0, 0)));
        let mut i: usize = 0;
        while i < initial.len()
            invariant
                i <= initial.len(),
                init == id_views(initial@),
                entries_agree(entries@, routes),
                routes == initial_routes(init.subrange(0, i as int)),
            decreases initial.len() - i,
        {
            let ghost sub = init.subrange(0, i as int);
            assert(init.subrange(0, i + 1) =~= sub.push(initial@[i as int]@));
            match find_route(&entries, &initial[i]) {
                Some(_) => {
                    assert(sub.contains(initial@[i as int]@));
                    assert(initial_routes(init.subrange(0, i + 1)) =~= routes);
                },
                None => {
                    let empty: Vec<PlanStep> = Vec::new();
                    assert(steps_view(empty@) =~= Seq::<StepView>::empty());
                    set_route(&mut entries, &initial[i], empty, Ghost(routes));
                    proof {
                        routes = routes.insert(initial@[i as int]@, Seq::empty());
                        let next = init.subrange(0, i + 1);
                        assert forall|kk: IdView| next.contains(kk) <==> routes.contains_key(kk) by {
                            if next.contains(kk) {
                                let w = choose|w: int| 0 <= w < next.len() && next[w] == kk;
                                if w < sub.len() {
                                    assert(sub[w] == kk);
                                }
                            }
                            if sub.contains(kk) {
                                let w = choose|w: int| 0 <= w < sub.len() && sub[w] == kk;
                                assert(next[w] == kk);
                            }
                            assert(next[sub.len() as int] == initial@[i as int]@);
                        }
                    }
                    assert(initial_routes(init.subrange(0, i + 1)) =~= routes);
                },
            }
            i = i + 1;
        }
        assert(init.subrange(0, initial.len() as int) =~= init);
        assert(routes_within(routes, steps_all));
        let mut changed = true;
        let ghost mut k: nat = 0;
        while changed
            invariant
                specs == self.declared(),
                provs == self.bindings(),
                start == initial_routes(init),
                space == route_space(specs, provs),
                steps_all == step_set(specs, provs),
                d == all_outputs(specs),
                space.finite(),
                steps_all.finite(),
                entries_agree(entries@, routes),
                routes == rounds(specs, provs, start, k),
                routes_within(routes, steps_all),
                !changed ==> settled(specs, provs, routes),
            decreases potential(routes, space, d) + (if changed { 1int } else { 0int }),
        {
            let ghost round_start = routes;
            changed = false;
            let mut s: usize = 0;
            while s < self.specs.len()
                invariant
                    s <= self.specs.len(),
                    specs == self.declared(),
                    provs == self.bindings(),
                    space == route_space(specs, provs),
                    steps_all == step_set(specs, provs),
                    d == all_outputs(specs),
                    space.finite(),
                    entries_agree(entries@, routes),
                    sweep(specs, provs, round_start, 0, false) == sweep(specs, provs, routes, s as int, changed),
                    routes_within(routes, steps_all),
                    potential(routes, space, d) <= potential(round_start, space, d),
                    changed ==> potential(routes, space, d) < potential(round_start, space, d),
                decreases self.specs.len() - s,
            {
                let spec = &self.specs[s];
                match self.route_for_exec(spec, &entries, Ghost(routes)) {
                    None => {},
                    Some(c) => {
                        proof {
                            lemma_route_for_in_space(specs, provs, routes, s as int);
                        }
                        let ghost cv = steps_view(c@);
                        let ghost outs = output_kinds(spec.output_ports@);
                        let ghost spec_routes = routes;
                        let ghost spec_changed = changed;
                        let mut o: usize = 0;
                        while o < spec.output_ports.len()
                            invariant
                                o <= spec.output_ports.len(),
                                s < specs.len(),
                                *spec == specs[s as int],
                                outs == output_kinds(spec.output_ports@),
                                cv == steps_view(c@),
                                space.contains(cv),
                                steps_within(cv, steps_all),
                                space == route_space(specs, provs),
                                d == all_outputs(specs),
                                space.finite(),
                                entries_agree(entries@, routes),
                                offer_route(outs, spec_routes, cv, 0, spec_changed) == offer_route(outs, routes, cv, o as int, changed),
                                routes_within(routes, steps_all),
                                potential(routes, space, d) <= potential(round_start, space, d),
                                changed ==> potential(routes, space, d) < potential(round_start, space, d),
                            decreases spec.output_ports.len() - o,
                        {
                            let kind = &spec.output_ports[o].value_kind;
                            assert(outs[o as int] == kind@);
                            let replace = match find_route(&entries, kind) {
                                None => true,
                                Some(e) => prefers(&c, &entries[e].steps),
                            };
                            if replace {
                                proof {
                                    lemma_all_outputs_contains(specs, s as int, o as int);
                                    lemma_potential_insert(routes, space, d, kind@, cv);
                                }
                                let copy = copy_steps(&c);
                                set_route(&mut entries, kind, copy, Ghost(routes));
                                proof {
                                    routes = routes.insert(kind@, cv);
                                }
                                changed = true;
                            }
                            o = o + 1;
                        }
                    },
                }
                s = s + 1;
            }
            proof {
                assert(sweep(specs, provs, routes, s as int, changed) == (routes, changed));
                let next = sweep(specs, provs, round_start, 0, false).0;
                assert(next == routes);
                assert(rounds(specs, provs, next, 0) == next);
                assert(rounds(specs, provs, round_start, 1) == rounds(specs, provs, next, 0));
                lemma_rounds_split(specs, provs, start, k, 1);
                if !changed {
                    lemma_sweep_unchanged(specs, provs, round_start, 0);
                }
                k = k + 1;
            }
        }
        proof {
            assert(reaches(specs, provs, init, routes));
            lemma_reaches_unique(specs, provs, init, routes, planned_routes(specs, provs, init));
            if init.contains(target@) {
                lemma_held_target_plans_no_steps(specs, provs, init, routes, target@);
            }
        }
        let found = match find_route(&entries, target) {
            None => return Err(PlanError::Unreachable(target.duplicate())),
            Some(e) => e,
        };
        let steps = copy_steps(&entries[found].steps);
        let ghost sv = steps_view(steps@);
        assert(steps_within(sv, steps_all));
        let mut needs: Vec<CapabilityNeed> = Vec::new();
        let mut j: usize = 0;
        while j < steps.len()
            invariant
                j <= steps.len(),
                specs == self.declared(),
                sv == steps_view(steps@),
                steps_within(sv, steps_all),
                steps_all == step_set(specs, provs),
                needs_for(needs@, sv.subrange(0, j as int), specs),
            decreases steps.len() - j,
        {
            let ghost before = needs@;
            assert(sv.subrange(0, j + 1).drop_last() =~= sv.subrange(0, j as int));
            assert(sv.subrange(0, j + 1).last() == steps@[j as int]@);
            if steps[j].provider.is_none() {
                proof {
                    let own = Seq::new(specs.len(), |x: int| own_step(specs[x], provs));
                    assert(steps_all.contains(sv[j as int]));
                    let m = choose|m: int| 0 <= m < own.len() && own[m] == sv[j as int];
                    lemma_first_spec_index(specs, sv[j as int].0, 0, m);
                }
                match self.spec_index(&steps[j].capability) {
                    Some(x) => {
                        let need = CapabilityNeed {
                            specification: copy_spec(&self.specs[x]),
                            reason: owned("no installed provider implements this exact capability"),
                        };
                        assert(same_spec(need.specification, specs[x as int]));
                        assert(need.reason@ == need_reason());
                        needs.push(need);
                    },
                    None => {},
                }
                let ghost caps = missing_caps(sv.subrange(0, j + 1));
                assert(sv[j as int].1 is None);
                assert(caps =~= missing_caps(sv.subrange(0, j as int)).push(sv[j as int].0));
                assert(needs@.len() == caps.len());
                assert forall|a: int| 0 <= a < needs@.len() implies need_matches(#[trigger] needs@[a], caps[a], specs) by {
                    if a < before.len() {
                        assert(needs@[a] == before[a]);
                    }
                }
                assert(needs_for(needs@, sv.subrange(0, j + 1), specs));
            } else {
                assert(missing_caps(sv.subrange(0, j + 1)) =~= missing_caps(sv.subrange(0, j as int)));
                assert(needs_for(needs@, sv.subrange(0, j + 1), specs));
            }
            j = j + 1;
        }
        assert(sv.subrange(0, steps.len() as int) =~= sv);
        Ok(DerivationPlan { target: target.duplicate(), steps, needs })
    }
}


// ---- legacy execution ----

/// Why the legacy in-process adapter could not execute a plan.
#[derive(Debug)]
pub enum ExecutionError {
    PlanNotExecutable(Vec<CapabilityNeed>),
    RepeatedInputValueKindPortsUnsupported { capability: Box<ExactId>, value_kind: Box<ExactId> },
    RepeatedOutputValueKindPortsUnsupported { capability: Box<ExactId>, value_kind: Box<ExactId> },
    AmbiguousInput,
    RegistryChanged(ExactId),
    ProviderUnavailable(ExactId),
    MissingInput(ExactId),
    PartialInputRejected { capability: Box<ExactId>, fact: Box<ExactId> },
    ProviderFailed { provider: ExactId, error: String },
    OutputContractViolation { capability: ExactId, expected: Vec<ExactId>, actual: Vec<ExactId> },
    MissingTarget(ExactId),
    Registry(RegistryError),
}

/// Mathematical form of an execution refusal.
pub enum ExecFault {
    PlanNotExecutable,
    RepeatedInput(IdView, IdView),
    RepeatedOutput(IdView, IdView),
    AmbiguousInput,
    RegistryChanged(IdView),
    ProviderUnavailable(IdView),
    MissingInput(IdView),
    PartialInputRejected(IdView, IdView),
    ProviderFailed(IdView, Seq<char>),
    OutputContractViolation(IdView, Seq<IdView>, Seq<IdView>),
    MissingTarget(IdView),
    Registry,
}

pub open spec fn exec_fault_of(e: ExecutionError) -> ExecFault {
    match e {
        ExecutionError::PlanNotExecutable(_) => ExecFault::PlanNotExecutable,
        ExecutionError::RepeatedInputValueKindPortsUnsupported { capability, value_kind } => ExecFault::RepeatedInput(
            capability@,
            value_kind@,
        ),
        ExecutionError::RepeatedOutputValueKindPortsUnsupported { capability, value_kind } => ExecFault::RepeatedOutput(
            capability@,
            value_kind@,
        ),
        ExecutionError::AmbiguousInput => ExecFault::AmbiguousInput,
        ExecutionError::RegistryChanged(c) => ExecFault::RegistryChanged(c@),
        ExecutionError::ProviderUnavailable(p) => ExecFault::ProviderUnavailable(p@),
        ExecutionError::MissingInput(k) => ExecFault::MissingInput(k@),
        ExecutionError::PartialInputRejected { capability, fact } => ExecFault::PartialInputRejected(capability@, fact@),
        ExecutionError::ProviderFailed { provider, error } => ExecFault::ProviderFailed(provider@, error@),
        ExecutionError::OutputContractViolation { capability, expected, actual } => ExecFault::OutputContractViolation(
            capability@,
            id_views(expected@),
            id_views(actual@),
        ),
        ExecutionError::MissingTarget(t) => ExecFault::MissingTarget(t@),
        ExecutionError::Registry(_) => ExecFault::Registry,
    }
}

/// Needs that carry the same declarations and reasons.
pub open spec fn same_needs(a: Seq<CapabilityNeed>, b: Seq<CapabilityNeed>) -> bool {
    a.len() == b.len() && forall|i: int| 0 <= i < a.len() ==> same_spec((#[trigger] a[i]).specification, b[i].specification)
        && a[i].reason@ == b[i].reason@
}

fn copy_needs(needs: &Vec<CapabilityNeed>) -> (r: Vec<CapabilityNeed>)
    ensures
        same_needs(r@, needs@),
{
    let mut out: Vec<CapabilityNeed> = Vec::new();
    let mut i: usize = 0;
    while i < needs.len()
        invariant
            i <= needs.len(),
            out@.len() == i,
            forall|k: int| 0 <= k < i ==> same_spec((#[trigger] out@[k]).specification, needs@[k].specification)
                && out@[k].reason@ == needs@[k].reason@,
        decreases needs.len() - i,
    {
        out.push(CapabilityNeed { specification: copy_spec(&needs[i].specification), reason: needs[i].reason.clone() });
        i = i + 1;
    }
    out
}

/// The first refusal, from step `i` on, of a route the legacy adapter
/// cannot run: an unregistered capability, a step without a provider, an
/// unregistered provider, or a declaration that repeats an input or an
/// output value kind.
pub open spec fn preflight_fault(specs: Seq<CapabilitySpec>, pids: Seq<IdView>, steps: Seq<StepView>, i: int) -> Option<ExecFault>
    decreases steps.len() - i,
{
    if i < 0 || i >= steps.len() {
        None
    } else {
        match first_spec_index(specs, steps[i].0, 0) {
            None => Some(ExecFault::RegistryChanged(steps[i].0)),
            Some(x) => match steps[i].1 {
                None => Some(ExecFault::PlanNotExecutable),
                Some(p) => {
                    let ins = input_kinds(specs[x].input_ports@);
                    let outs = output_kinds(specs[x].output_ports@);
                    if !pids.contains(p) {
                        Some(ExecFault::ProviderUnavailable(p))
                    } else if first_repeat(ins, 0) is Some {
                        Some(ExecFault::RepeatedInput(specs[x].id@, ins[first_repeat(ins, 0).unwrap()]))
                    } else if first_repeat(outs, 0) is Some {
                        Some(ExecFault::RepeatedOutput(specs[x].id@, outs[first_repeat(outs, 0).unwrap()]))
                    } else {
                        preflight_fault(specs, pids, steps, i + 1)
                    }
                },
            },
        }
    }
}

fn input_kind_vec(ports: &Vec<InputPort>) -> (r: Vec<ExactId>)
    ensures
        id_views(r@) == input_kinds(ports@),
{
    let mut out: Vec<ExactId> = Vec::new();
    let mut i: usize = 0;
    while i < ports.len()
        invariant
            i <= ports.len(),
            id_views(out@) == input_kinds(ports@).subrange(0, i as int),
        decreases ports.len() - i,
    {
        let ghost before = out@;
        out.push(ports[i].value_kind.duplicate());
        assert(id_views(out@) =~= input_kinds(ports@).subrange(0, i + 1)) by {
            assert(id_views(out@) =~= id_views(before).push(ports@[i as int].value_kind@));
        }
        i = i + 1;
    }
    assert(input_kinds(ports@).subrange(0, ports.len() as int) =~= input_kinds(ports@));
    out
}

fn output_kind_vec(ports: &Vec<OutputPort>) -> (r: Vec<ExactId>)
    ensures
        id_views(r@) == output_kinds(ports@),
{
    let mut out: Vec<ExactId> = Vec::new();
    let mut i: usize = 0;
    while i < ports.len()
        invariant
            i <= ports.len(),
            id_views(out@) == output_kinds(ports@).subrange(0, i as int),
        decreases ports.len() - i,
    {
        let ghost before = out@;
        out.push(ports[i].value_kind.duplicate());
        assert(id_views(out@) =~= output_kinds(ports@).subrange(0, i + 1)) by {
            assert(id_views(out@) =~= id_views(before).push(ports@[i as int].value_kind@));
        }
        i = i + 1;
    }
    assert(output_kinds(ports@).subrange(0, ports.len() as int) =~= output_kinds(ports@));
    out
}

impl<P> CapabilityRegistry<P> {
    fn provider_position(&self, id: &ExactId) -> (r: Option<usize>)
        ensures
            r matches Some(i) ==> i < self.registered().len() && self.registered()[i as int].id@ == id@,
            r is None ==> !descriptor_ids(self.registered()).contains(id@),
    {
        let mut i: usize = 0;
        while i < self.providers.len()
            invariant
                i <= self.providers.len(),
                forall|k: int| 0 <= k < i ==> self.providers@[k].descriptor.id@ != id@,
            decreases self.providers.len() - i,
        {
            if self.providers[i].descriptor.id.same_as(id) {
                return Some(i);
            }
            i = i + 1;
        }
        proof {
            if descriptor_ids(self.registered()).contains(id@) {
                let k = choose|k: int| 0 <= k < descriptor_ids(self.registered()).len() && descriptor_ids(self.registered())[k] == id@;
                assert(self.providers@[k].descriptor.id@ == id@);
            }
        }
        None
    }

    /// Checks the whole legacy route before any provider runs.
    fn preflight_legacy_execution(&self, plan: &DerivationPlan) -> (r: Result<(), ExecutionError>)
        ensures
            r is Ok <==> preflight_fault(self.declared(), descriptor_ids(self.registered()), steps_view(plan.steps@), 0) is None,
            r matches Err(e) ==> preflight_fault(self.declared(), descriptor_ids(self.registered()), steps_view(plan.steps@), 0)
                == Some(exec_fault_of(e)),
            r matches Err(ExecutionError::PlanNotExecutable(v)) ==> same_needs(v@, plan.needs@),
    {
        let ghost specs = self.declared();
        let ghost pids = descriptor_ids(self.registered());
        let ghost sv = steps_view(plan.steps@);
        let mut i: usize = 0;
        while i < plan.steps.len()
            invariant
                i <= plan.steps.len(),
                specs == self.declared(),
                pids == descriptor_ids(self.registered()),
                sv == steps_view(plan.steps@),
                preflight_fault(specs, pids, sv, 0) == preflight_fault(specs, pids, sv, i as int),
            decreases plan.steps.len() - i,
        {
            let step = &plan.steps[i];
            assert(sv[i as int] == step@);
            let x = match self.spec_index(&step.capability) {
                None => return Err(ExecutionError::RegistryChanged(step.capability.duplicate())),
                Some(x) => x,
            };
            let provider = match &step.provider {
                None => return Err(ExecutionError::PlanNotExecutable(copy_needs(&plan.needs))),
                Some(p) => p,
            };
            match self.provider_position(provider) {
                None => return Err(ExecutionError::ProviderUnavailable(provider.duplicate())),
                Some(pi) => {
                    assert(pids[pi as int] == provider@);
                },
            }
            let spec = &self.specs[x];
            let ins = input_kind_vec(&spec.input_ports);
            match first_repeat_in(&ins) {
                Some(j) => {
                    assert(id_views(ins@)[j as int] == ins@[j as int]@);
                    return Err(ExecutionError::RepeatedInputValueKindPortsUnsupported {
                        capability: Box::new(spec.id.duplicate()),
                        value_kind: Box::new(ins[j].duplicate()),
                    });
                },
                None => {},
            }
            let outs = output_kind_vec(&spec.output_ports);
            match first_repeat_in(&outs) {
                Some(j) => {
                    assert(id_views(outs@)[j as int] == outs@[j as int]@);
                    return Err(ExecutionError::RepeatedOutputValueKindPortsUnsupported {
                        capability: Box::new(spec.id.duplicate()),
                        value_kind: Box::new(outs[j].duplicate()),
                    });
                },
                None => {},
            }
            i = i + 1;
        }
        Ok(())
    }
}


/// Two facts with the same identity, type, coverage, payload and
/// derivation.
pub open spec fn same_fact(a: FactInstance, b: FactInstance) -> bool {
    a.id@ == b.id@ && a.fact_type@ == b.fact_type@ && a.coverage == b.coverage && a.payload@ == b.payload@
        && derivation_doc(a.derivation) == derivation_doc(b.derivation)
}

fn copy_strings(v: &Vec<String>) -> (r: Vec<String>)
    ensures
        r@ == v@,
{
    let mut out: Vec<String> = Vec::new();
    let mut i: usize = 0;
    while i < v.len()
        invariant
            i <= v.len(),
            out@ == v@.subrange(0, i as int),
        decreases v.len() - i,
    {
        out.push(v[i].clone());
        assert(out@ =~= v@.subrange(0, i + 1));
        i = i + 1;
    }
    assert(v@.subrange(0, v.len() as int) =~= v@);
    out
}

fn copy_derivation(d: &FactDerivation) -> (r: FactDerivation)
    ensures
        derivation_doc(r) == derivation_doc(*d),
        r is Produced <==> d is Produced,
        r matches FactDerivation::Produced { capability, provider, inputs } ==> d matches FactDerivation::Produced {
            capability: c,
            provider: p,
            inputs: ins,
        } && capability@ == c@ && provider@ == p@,
{
    match d {
        FactDerivation::Initial { origin } => FactDerivation::Initial { origin: origin.clone() },
        FactDerivation::Produced { capability, provider, inputs } => FactDerivation::Produced {
            capability: capability.duplicate(),
            provider: provider.duplicate(),
            inputs: copy_strings(inputs),
        },
        FactDerivation::Admitted {
            capability,
            provider,
            provider_implementation,
            inputs,
            request,
            candidate,
            conformance_result,
        } => FactDerivation::Admitted {
            capability: capability.duplicate(),
            provider: provider.duplicate(),
            provider_implementation: provider_implementation.clone(),
            inputs: copy_strings(inputs),
            request: request.clone(),
            candidate: candidate.clone(),
            conformance_result: conformance_result.clone(),
        },
    }
}

/// An equal, separately owned fact.
pub fn copy_fact(f: &FactInstance) -> (r: FactInstance)
    ensures
        same_fact(r, *f),
        r.derivation is Produced <==> f.derivation is Produced,
        r.derivation matches FactDerivation::Produced { capability, provider, inputs } ==> f.derivation matches FactDerivation::Produced {
            capability: c,
            provider: p,
            inputs: ins,
        } && capability@ == c@ && provider@ == p@,
{
    FactInstance {
        id: f.id.clone(),
        fact_type: f.fact_type.duplicate(),
        coverage: f.coverage,
        payload: copy_json(&f.payload),
        derivation: copy_derivation(&f.derivation),
    }
}

pub open spec fn fact_types(facts: Seq<FactInstance>) -> Seq<IdView> {
    Seq::new(facts.len(), |i: int| facts[i].fact_type@)
}

/// The first fact, from `i` on, of this type.
pub open spec fn fact_index(facts: Seq<FactInstance>, t: IdView, i: int) -> Option<int>
    decreases facts.len() - i,
{
    if i < 0 || i >= facts.len() {
        None
    } else if facts[i].fact_type@ == t {
        Some(i)
    } else {
        fact_index(facts, t, i + 1)
    }
}

fn find_fact(facts: &Vec<FactInstance>, t: &ExactId) -> (r: Option<usize>)
    ensures
        match r {
            Some(i) => fact_index(facts@, t@, 0) == Some(i as int) && i < facts.len(),
            None => fact_index(facts@, t@, 0) is None,
        },
{
    let mut i: usize = 0;
    while i < facts.len()
        invariant
            i <= facts.len(),
            fact_index(facts@, t@, 0) == fact_index(facts@, t@, i as int),
        decreases facts.len() - i,
    {
        if facts[i].fact_type.same_as(t) {
            return Some(i);
        }
        i = i + 1;
    }
    None
}

proof fn lemma_fact_index_contains(facts: Seq<FactInstance>, t: IdView, i: int)
    requires
        0 <= i,
    ensures
        fact_index(facts, t, i) is Some <==> exists|k: int| i <= k < facts.len() && facts[k].fact_type@ == t,
        fact_index(facts, t, i) matches Some(k) ==> i <= k < facts.len() && facts[k].fact_type@ == t,
    decreases facts.len() - i,
{
    if i < facts.len() {
        lemma_fact_index_contains(facts, t, i + 1);
    }
}

/// The input the step hands its provider for each port, in port order, or
/// the first refusal: a kind with no fact, or a partial fact where only
/// complete ones are accepted.
pub open spec fn step_input_fault(spec: CapabilitySpec, facts: Seq<FactInstance>, p: int) -> Option<ExecFault>
    decreases spec.input_ports@.len() - p,
{
    if p < 0 || p >= spec.input_ports@.len() {
        None
    } else {
        let port = spec.input_ports@[p];
        match fact_index(facts, port.value_kind@, 0) {
            None => Some(ExecFault::MissingInput(port.value_kind@)),
            Some(x) => if port.acceptance == FactAcceptance::CompleteOnly && facts[x].coverage == FactCoverage::Partial {
                Some(ExecFault::PartialInputRejected(spec.id@, port.value_kind@))
            } else {
                step_input_fault(spec, facts, p + 1)
            },
        }
    }
}

/// `f` copies the fact held for kind `k`.
pub open spec fn held_copy(f: FactInstance, facts: Seq<FactInstance>, k: IdView) -> bool {
    fact_index(facts, k, 0) is Some && same_fact(f, facts[fact_index(facts, k, 0).unwrap()])
}

/// Gathers the inputs of one step from the facts held.
pub fn step_inputs(spec: &CapabilitySpec, facts: &Vec<FactInstance>) -> (r: Result<Vec<FactInstance>, ExecutionError>)
    ensures
        r is Ok <==> step_input_fault(*spec, facts@, 0) is None,
        r matches Err(e) ==> step_input_fault(*spec, facts@, 0) == Some(exec_fault_of(e)),
        r matches Ok(v) ==> v@.len() == spec.input_ports@.len() && forall|p: int| 0 <= p < v@.len() ==> held_copy(
            #[trigger] v@[p],
            facts@,
            spec.input_ports@[p].value_kind@,
        ),
{
    let mut out: Vec<FactInstance> = Vec::new();
    let mut p: usize = 0;
    while p < spec.input_ports.len()
        invariant
            p <= spec.input_ports.len(),
            out@.len() == p,
            step_input_fault(*spec, facts@, 0) == step_input_fault(*spec, facts@, p as int),
            forall|q: int| 0 <= q < p ==> held_copy(#[trigger] out@[q], facts@, spec.input_ports@[q].value_kind@),
        decreases spec.input_ports.len() - p,
    {
        let port = &spec.input_ports[p];
        let x = match find_fact(facts, &port.value_kind) {
            None => return Err(ExecutionError::MissingInput(port.value_kind.duplicate())),
            Some(x) => x,
        };
        if port.acceptance == FactAcceptance::CompleteOnly && facts[x].coverage == FactCoverage::Partial {
            return Err(ExecutionError::PartialInputRejected {
                capability: Box::new(spec.id.duplicate()),
                fact: Box::new(port.value_kind.duplicate()),
            });
        }
        out.push(copy_fact(&facts[x]));
        p = p + 1;
    }
    Ok(out)
}

/// Refuses outputs that repeat a kind or do not cover exactly the
/// declared output kinds.
pub fn validate_outputs(spec: &CapabilitySpec, outputs: &Vec<ProducedFact>) -> (r: Result<(), ExecutionError>)
    ensures
        r is Ok <==> outputs_match(output_types(outputs@), output_kinds(spec.output_ports@)),
        r matches Err(e) ==> exec_fault_of(e) == ExecFault::OutputContractViolation(
            spec.id@,
            output_kinds(spec.output_ports@),
            output_types(outputs@),
        ),
{
    let actual = output_type_vec(outputs);
    let expected = output_kind_vec(&spec.output_ports);
    if ids_distinct(&actual) && all_contained(&actual, &expected) && all_contained(&expected, &actual) {
        Ok(())
    } else {
        Err(ExecutionError::OutputContractViolation { capability: spec.id.duplicate(), expected, actual })
    }
}

/// `f` is the fact a step of this capability and provider made of output
/// `o`, recording these inputs in port order.
pub open spec fn step_fact(f: FactInstance, capability: IdView, provider: IdView, inputs: Seq<FactInstance>, o: ProducedFact) -> bool {
    &&& f.fact_type@ == o.fact_type@
    &&& f.coverage == o.coverage
    &&& f.payload@ == o.payload@
    &&& f.derivation matches FactDerivation::Produced { capability: c, provider: p, inputs: ids } && c@ == capability && p@
        == provider && ids@.len() == inputs.len() && forall|i: int| 0 <= i < ids@.len() ==> (#[trigger] ids@[i])@ == inputs[i].id@
    &&& f.id@ == fact_digest_of(f.fact_type@, f.coverage, f.payload@, f.derivation)
}

/// In facts of ascending types, a held fact is the one found for its type.
proof fn lemma_held_at_type(s: Seq<FactInstance>, f: FactInstance)
    requires
        ascending(fact_types(s)),
        s.contains(f),
    ensures
        fact_index(s, f.fact_type@, 0) matches Some(x) && s[x] == f,
{
    let w = choose|w: int| 0 <= w < s.len() && s[w] == f;
    lemma_fact_index_contains(s, f.fact_type@, 0);
    let x = fact_index(s, f.fact_type@, 0).unwrap();
    if x != w {
        lemma_id_less_irreflexive(f.fact_type@);
        if x < w {
            assert(id_less(fact_types(s)[x], fact_types(s)[w]));
        } else {
            assert(id_less(fact_types(s)[w], fact_types(s)[x]));
        }
    }
}

/// Holds the validated outputs of one step: each output becomes a fact
/// derived from the step's capability, provider and inputs, and takes the
/// place of any fact held of its kind; the other facts stay as held.
pub fn hold_outputs(
    spec: &CapabilitySpec,
    provider: &ExactId,
    held: Vec<FactInstance>,
    inputs: &Vec<FactInstance>,
    produced: Vec<ProducedFact>,
) -> (r: Result<Vec<FactInstance>, ExecutionError>)
    requires
        ascending(fact_types(held@)),
    ensures
        r is Ok <==> outputs_match(output_types(produced@), output_kinds(spec.output_ports@)),
        r matches Err(e) ==> exec_fault_of(e) == ExecFault::OutputContractViolation(
            spec.id@,
            output_kinds(spec.output_ports@),
            output_types(produced@),
        ),
        r matches Ok(next) ==> {
            &&& ascending(fact_types(next@))
            &&& forall|k: IdView|
                fact_types(next@).contains(k) <==> (fact_types(held@).contains(k) || output_kinds(spec.output_ports@).contains(k))
            &&& forall|o: int|
                0 <= o < produced@.len() ==> (fact_index(next@, (#[trigger] produced@[o]).fact_type@, 0) matches Some(x)
                    && step_fact(next@[x], spec.id@, provider@, inputs@, produced@[o]))
            &&& forall|a: int|
                0 <= a < next@.len() ==> held@.contains(#[trigger] next@[a]) || exists|o: int|
                    0 <= o < produced@.len() && step_fact(next@[a], spec.id@, provider@, inputs@, #[trigger] produced@[o])
        },
{
    validate_outputs(spec, &produced)?;
    let ids = input_ids(inputs);
    let mut facts = held;
    let mut o: usize = 0;
    while o < produced.len()
        invariant
            o <= produced.len(),
            ascending(fact_types(facts@)),
            outputs_match(output_types(produced@), output_kinds(spec.output_ports@)),
            ids@.len() == inputs@.len(),
            forall|i: int| 0 <= i < ids@.len() ==> (#[trigger] ids@[i])@ == inputs@[i].id@,
            forall|k: IdView|
                fact_types(facts@).contains(k) <==> (fact_types(held@).contains(k) || output_types(produced@).subrange(
                    0,
                    o as int,
                ).contains(k)),
            forall|q: int|
                0 <= q < o ==> (fact_index(facts@, (#[trigger] produced@[q]).fact_type@, 0) matches Some(x) && step_fact(
                    facts@[x],
                    spec.id@,
                    provider@,
                    inputs@,
                    produced@[q],
                )),
            forall|a: int|
                0 <= a < facts@.len() ==> held@.contains(#[trigger] facts@[a]) || exists|q: int|
                    0 <= q < o && step_fact(facts@[a], spec.id@, provider@, inputs@, #[trigger] produced@[q]),
        decreases produced.len() - o,
    {
        let output = ProducedFact {
            fact_type: produced[o].fact_type.duplicate(),
            coverage: produced[o].coverage,
            payload: copy_json(&produced[o].payload),
        };
        let fact = produced_fact(&spec.id, provider, &ids, output);
        let ghost before = facts@;
        let ghost g = fact;
        assert(step_fact(g, spec.id@, provider@, inputs@, produced@[o as int]));
        put_fact(&mut facts, fact);
        proof {
            lemma_held_at_type(facts@, g);
            let pre = output_types(produced@).subrange(0, o as int);
            let pre1 = output_types(produced@).subrange(0, o + 1);
            assert(g.fact_type@ == produced@[o as int].fact_type@);
            assert(output_types(produced@)[o as int] == g.fact_type@);
            assert(pre1 =~= pre.push(g.fact_type@));
            assert(pre1[o as int] == g.fact_type@);
            assert(pre1.contains(g.fact_type@));
            assert forall|k: IdView| fact_types(facts@).contains(k) <==> (fact_types(held@).contains(k) || pre1.contains(k)) by {
                if pre1.contains(k) && k != g.fact_type@ {
                    let w = choose|w: int| 0 <= w < pre1.len() && pre1[w] == k;
                    assert(pre[w] == k);
                    assert(pre.contains(k));
                }
                if pre.contains(k) {
                    let w = choose|w: int| 0 <= w < pre.len() && pre[w] == k;
                    assert(pre1[w] == k);
                }
                if fact_types(facts@).contains(k) && k != g.fact_type@ {
                    assert(fact_types(before).contains(k));
                }
            }
            assert forall|q: int| 0 <= q < o + 1 implies (fact_index(facts@, (#[trigger] produced@[q]).fact_type@, 0) matches Some(x)
                && step_fact(facts@[x], spec.id@, provider@, inputs@, produced@[q])) by {
                if q < o {
                    assert(output_types(produced@)[q] != output_types(produced@)[o as int]);
                    assert(output_types(produced@)[q] == produced@[q].fact_type@);
                    assert(pre.contains(produced@[q].fact_type@)) by {
                        assert(pre[q] == produced@[q].fact_type@);
                    }
                    assert(fact_types(facts@).contains(produced@[q].fact_type@));
                    let x0 = fact_index(before, produced@[q].fact_type@, 0).unwrap();
                    lemma_fact_index_contains(before, produced@[q].fact_type@, 0);
                    let y = before[x0];
                    lemma_fact_index_contains(facts@, produced@[q].fact_type@, 0);
                    let x = fact_index(facts@, produced@[q].fact_type@, 0).unwrap();
                    assert(facts@[x] == g || before.contains(facts@[x]));
                    let w = choose|w: int| 0 <= w < before.len() && before[w] == facts@[x];
                    if w != x0 {
                        lemma_id_less_irreflexive(y.fact_type@);
                        if w < x0 {
                            assert(id_less(fact_types(before)[w], fact_types(before)[x0]));
                        } else {
                            assert(id_less(fact_types(before)[x0], fact_types(before)[w]));
                        }
                    }
                }
            }
            assert forall|a: int| 0 <= a < facts@.len() implies held@.contains(#[trigger] facts@[a]) || exists|q: int|
                0 <= q < o + 1 && step_fact(facts@[a], spec.id@, provider@, inputs@, #[trigger] produced@[q]) by {
                if facts@[a] != g {
                    let w = choose|w: int| 0 <= w < before.len() && before[w] == facts@[a];
                    assert(held@.contains(before[w]) || exists|q: int|
                        0 <= q < o && step_fact(before[w], spec.id@, provider@, inputs@, #[trigger] produced@[q]));
                } else {
                    assert(step_fact(facts@[a], spec.id@, provider@, inputs@, produced@[o as int]));
                }
            }
        }
        o = o + 1;
    }
    proof {
        assert(output_types(produced@).subrange(0, produced@.len() as int) =~= output_types(produced@));
    }
    Ok(facts)
}

/// The fact one step produced, identified by its type, coverage, payload
/// and derivation from the capability, provider and input identities.
pub fn produced_fact(capability: &ExactId, provider: &ExactId, inputs: &Vec<String>, output: ProducedFact) -> (r: FactInstance)
    ensures
        r.fact_type@ == output.fact_type@,
        r.coverage == output.coverage,
        r.payload@ == output.payload@,
        r.derivation matches FactDerivation::Produced { capability: c, provider: p, inputs: i } && c@ == capability@
            && p@ == provider@ && i@ == inputs@,
        r.id@ == fact_digest_of(r.fact_type@, r.coverage, r.payload@, r.derivation),
{
    let derivation = FactDerivation::Produced {
        capability: capability.duplicate(),
        provider: provider.duplicate(),
        inputs: copy_strings(inputs),
    };
    let id = fact_digest(&output.fact_type, output.coverage, &output.payload, &derivation);
    FactInstance { id, fact_type: output.fact_type, coverage: output.coverage, payload: output.payload, derivation }
}


proof fn lemma_first_spec_index_found(specs: Seq<CapabilitySpec>, cap: IdView, i: int)
    requires
        first_spec_index(specs, cap, i) is Some,
    ensures
        i <= first_spec_index(specs, cap, i).unwrap() < specs.len(),
        specs[first_spec_index(specs, cap, i).unwrap()].id@ == cap,
    decreases specs.len() - i,
{
    if 0 <= i < specs.len() && specs[i].id@ != cap {
        lemma_first_spec_index_found(specs, cap, i + 1);
    }
}

fn fact_type_vec(facts: &Vec<FactInstance>) -> (r: Vec<ExactId>)
    ensures
        Seq::new(r@.len(), |k: int| r@[k]@) == fact_types(facts@),
{
    let mut out: Vec<ExactId> = Vec::new();
    let mut i: usize = 0;
    while i < facts.len()
        invariant
            i <= facts.len(),
            out@.len() == i,
            forall|k: int| 0 <= k < i ==> out@[k]@ == facts@[k].fact_type@,
        decreases facts.len() - i,
    {
        out.push(facts[i].fact_type.duplicate());
        i = i + 1;
    }
    assert(Seq::new(out@.len(), |k: int| out@[k]@) =~= fact_types(facts@));
    out
}

/// Holds `f` under its type: it replaces a fact of that type, or is
/// inserted in type order.
fn put_fact(facts: &mut Vec<FactInstance>, f: FactInstance)
    requires
        ascending(fact_types(old(facts)@)),
    ensures
        ascending(fact_types(final(facts)@)),
        fact_types(final(facts)@).contains(f.fact_type@),
        forall|k: IdView| fact_types(final(facts)@).contains(k) <==> (fact_types(old(facts)@).contains(k) || k == f.fact_type@),
        forall|i: int| 0 <= i < final(facts)@.len() ==> (#[trigger] final(facts)@[i] == f || old(facts)@.contains(final(facts)@[i])),
        final(facts)@.contains(f),
{
    let ghost before = facts@;
    let types = fact_type_vec(facts);
    let pos = first_not_below(&types, &f.fact_type);
    proof {
        let tv = Seq::new(types@.len(), |k: int| types@[k]@);
        assert(tv.len() == fact_types(before).len());
        if pos < types.len() {
            assert(tv[pos as int] == types@[pos as int]@);
        }
    }
    let ghost t = f.fact_type@;
    let ghost g = f;
    if pos < facts.len() && facts[pos].fact_type.same_as(&f.fact_type) {
        facts.set(pos, f);
        assert(facts@[pos as int] == g);
        assert(fact_types(facts@) =~= fact_types(before));
        assert(fact_types(facts@)[pos as int] == t);
        assert forall|i: int| 0 <= i < facts@.len() implies (#[trigger] facts@[i] == g || before.contains(facts@[i])) by {
            if i != pos {
                assert(facts@[i] == before[i]);
            }
        }
    } else {
        proof {
            lemma_insert_ascending(fact_types(before), t, pos as int);
        }
        facts.insert(pos, f);
        assert(facts@[pos as int] == g);
        assert(fact_types(facts@) =~= fact_types(before).insert(pos as int, t));
        assert(fact_types(facts@)[pos as int] == t);
        assert forall|k: IdView| fact_types(facts@).contains(k) <==> (fact_types(before).contains(k) || k == t) by {
            if fact_types(facts@).contains(k) {
                let w = choose|w: int| 0 <= w < fact_types(facts@).len() && fact_types(facts@)[w] == k;
                if w < pos {
                    assert(fact_types(before)[w] == k);
                } else if w > pos {
                    assert(fact_types(before)[w - 1] == k);
                }
            }
            if fact_types(before).contains(k) {
                let w = choose|w: int| 0 <= w < fact_types(before).len() && fact_types(before)[w] == k;
                if w < pos {
                    assert(fact_types(facts@)[w] == k);
                } else {
                    assert(fact_types(facts@)[w + 1] == k);
                }
            }
        }
        assert forall|i: int| 0 <= i < facts@.len() implies (#[trigger] facts@[i] == g || before.contains(facts@[i])) by {
            if i < pos {
                assert(facts@[i] == before[i]);
            } else if i > pos {
                assert(facts@[i] == before[i - 1]);
            }
        }
    }
}

/// A result of legacy execution: the target fact, every fact held at the
/// end in type order, and the steps run.
#[derive(Debug)]
pub struct ExecutionReport {
    pub target: FactInstance,
    pub facts: Vec<FactInstance>,
    pub steps: Vec<PlanStep>,
}

/// Every step has a provider and nothing is needed.
pub open spec fn plan_executable(plan: DerivationPlan) -> bool {
    plan.needs@.len() == 0 && forall|i: int| 0 <= i < plan.steps@.len() ==> (#[trigger] plan.steps@[i]).provider is Some
}

/// A fact that can be held during a run: one of the initial facts, or a
/// fact produced by a step of the route and identified by its parts.
pub open spec fn held_fact(f: FactInstance, initial: Seq<FactInstance>, steps: Seq<StepView>) -> bool {
    ||| exists|i: int| 0 <= i < initial.len() && same_fact(f, #[trigger] initial[i])
    ||| f.derivation matches FactDerivation::Produced { capability, provider, inputs } && steps.contains(
        (capability@, Some(provider@)),
    ) && f.id@ == fact_digest_of(f.fact_type@, f.coverage, f.payload@, f.derivation)
}

/// A state a run can be in: facts of distinct, ascending types, each one
/// that can be held.
pub open spec fn reachable(held: Seq<FactInstance>, initial: Seq<FactInstance>, steps: Seq<StepView>) -> bool {
    &&& ascending(fact_types(held))
    &&& forall|a: int| 0 <= a < held.len() ==> held_fact(#[trigger] held[a], initial, steps)
}

/// The declaration the registry holds for a capability.
pub open spec fn spec_of(specs: Seq<CapabilitySpec>, cap: IdView) -> CapabilitySpec {
    specs[first_spec_index(specs, cap, 0).unwrap()]
}

/// A step over these held facts hands its provider inputs with these
/// identities: its ports accept the facts held, and each identity, in port
/// order, is that of the fact held for the port's kind.
pub open spec fn handed(spec: CapabilitySpec, held: Seq<FactInstance>, inputs: Seq<String>) -> bool {
    &&& step_input_fault(spec, held, 0) is None
    &&& inputs.len() == spec.input_ports@.len()
    &&& forall|p: int|
        0 <= p < inputs.len() ==> fact_index(held, spec.input_ports@[p].value_kind@, 0) is Some && (#[trigger] inputs[p])@
            == held[fact_index(held, spec.input_ports@[p].value_kind@, 0).unwrap()].id@
}

/// A fact at the end of execution is one of the initial facts, or was
/// produced by a step of the route, is identified by its parts, and
/// records as its inputs the facts that step was handed, in port order.
pub open spec fn accounted(
    f: FactInstance,
    initial: Seq<FactInstance>,
    steps: Seq<StepView>,
    specs: Seq<CapabilitySpec>,
) -> bool {
    ||| exists|i: int| 0 <= i < initial.len() && same_fact(f, #[trigger] initial[i])
    ||| f.derivation matches FactDerivation::Produced { capability, provider, inputs } && steps.contains(
        (capability@, Some(provider@)),
    ) && f.id@ == fact_digest_of(f.fact_type@, f.coverage, f.payload@, f.derivation) && exists|held: Seq<FactInstance>|
        #[trigger] reachable(held, initial, steps) && handed(spec_of(specs, capability@), held, inputs@)
}

/// One step of a capability and provider took `inputs` from the facts
/// `before`, one for each port in port order, and left `after`: `before`
/// with each output the provider gave made into a fact that records this
/// capability, this provider and these inputs, in place of the fact of its
/// kind.
pub open spec fn step_outcome(
    spec: CapabilitySpec,
    provider: IdView,
    before: Seq<FactInstance>,
    inputs: Seq<FactInstance>,
    produced: Seq<ProducedFact>,
    after: Seq<FactInstance>,
) -> bool {
    &&& step_input_fault(spec, before, 0) is None
    &&& inputs.len() == spec.input_ports@.len()
    &&& forall|p: int| 0 <= p < inputs.len() ==> held_copy(#[trigger] inputs[p], before, spec.input_ports@[p].value_kind@)
    &&& outputs_match(output_types(produced), output_kinds(spec.output_ports@))
    &&& ascending(fact_types(after))
    &&& forall|k: IdView|
        fact_types(after).contains(k) <==> (fact_types(before).contains(k) || output_kinds(spec.output_ports@).contains(k))
    &&& forall|o: int|
        0 <= o < produced.len() ==> (fact_index(after, (#[trigger] produced[o]).fact_type@, 0) matches Some(x) && step_fact(
            after[x],
            spec.id@,
            provider,
            inputs,
            produced[o],
        ))
    &&& forall|a: int|
        0 <= a < after.len() ==> before.contains(#[trigger] after[a]) || exists|o: int|
            0 <= o < produced.len() && step_fact(after[a], spec.id@, provider, inputs, #[trigger] produced[o])
}

/// A step went from the facts `before` to the facts `after`, whatever its
/// provider gave.
pub open spec fn step_ran(spec: CapabilitySpec, provider: IdView, before: Seq<FactInstance>, after: Seq<FactInstance>) -> bool {
    exists|inputs: Seq<FactInstance>, produced: Seq<ProducedFact>|
        #[trigger] step_outcome(spec, provider, before, inputs, produced, after)
}

/// The facts at the start of a run: one for each initial fact, of distinct
/// ascending types.
pub open spec fn run_start(start: Seq<FactInstance>, initial: Seq<FactInstance>) -> bool {
    &&& ascending(fact_types(start))
    &&& forall|k: IdView| fact_types(start).contains(k) <==> fact_types(initial).contains(k)
    &&& forall|a: int| 0 <= a < start.len() ==> exists|w: int| 0 <= w < initial.len() && same_fact(#[trigger] start[a], initial[w])
}

/// The facts held before each step of a route and after the last: the
/// run starts from the initial facts, and each step goes from the facts
/// before it to the facts before the next.
pub open spec fn run_trace(
    trace: Seq<Seq<FactInstance>>,
    specs: Seq<CapabilitySpec>,
    steps: Seq<StepView>,
    initial: Seq<FactInstance>,
) -> bool {
    &&& trace.len() == steps.len() + 1
    &&& run_start(trace[0], initial)
    &&& forall|i: int|
        0 <= i < steps.len() ==> step_ran(spec_of(specs, (#[trigger] steps[i]).0), steps[i].1.unwrap(), trace[i], trace[i + 1])
}

/// What a successful run reports: the route's steps, the target fact held
/// among facts of distinct ascending types, each accounted for; with no
/// steps, the target is the initial fact of the target type.
pub open spec fn run_report(
    report: ExecutionReport,
    specs: Seq<CapabilitySpec>,
    steps: Seq<StepView>,
    target: IdView,
    initial: Seq<FactInstance>,
) -> bool {
    &&& steps_view(report.steps@) == steps
    &&& report.target.fact_type@ == target
    &&& ascending(fact_types(report.facts@))
    &&& fact_index(report.facts@, target, 0) matches Some(t) && same_fact(report.target, report.facts@[t])
    &&& forall|i: int| 0 <= i < report.facts@.len() ==> accounted(#[trigger] report.facts@[i], initial, steps, specs)
    &&& steps.len() == 0 ==> (fact_index(initial, target, 0) matches Some(k) && same_fact(report.target, initial[k]))
    &&& exists|trace: Seq<Seq<FactInstance>>| #[trigger] run_trace(trace, specs, steps, initial) && trace.last() == report.facts@
}

/// The refusals a run can meet once its route passed preflight: a step's
/// ports refusing the facts held in a reachable state, a provider of the
/// route failing, a step's outputs not matching its declaration, or the
/// target missing at the end, which happens only when no initial fact and
/// no declared output of a step on the route is of the target kind.
pub open spec fn run_fault(
    f: ExecFault,
    specs: Seq<CapabilitySpec>,
    steps: Seq<StepView>,
    target: IdView,
    initial: Seq<FactInstance>,
) -> bool {
    match f {
        ExecFault::MissingInput(_) => exists|j: int, held: Seq<FactInstance>|
            #![trigger steps[j], reachable(held, initial, steps)]
            0 <= j < steps.len() && reachable(held, initial, steps) && step_input_fault(spec_of(specs, steps[j].0), held, 0)
                == Some(f),
        ExecFault::PartialInputRejected(_, _) => exists|j: int, held: Seq<FactInstance>|
            #![trigger steps[j], reachable(held, initial, steps)]
            0 <= j < steps.len() && reachable(held, initial, steps) && step_input_fault(spec_of(specs, steps[j].0), held, 0)
                == Some(f),
        ExecFault::ProviderFailed(p, _) => exists|j: int| 0 <= j < steps.len() && (#[trigger] steps[j]).1 == Some(p),
        ExecFault::OutputContractViolation(c, expected, _) => exists|j: int|
            0 <= j < steps.len() && (#[trigger] steps[j]).0 == c && expected == output_kinds(spec_of(specs, c).output_ports@),
        ExecFault::MissingTarget(t) => t == target && !fact_types(initial).contains(target) && forall|j: int|
            0 <= j < steps.len() ==> !output_kinds(spec_of(specs, (#[trigger] steps[j]).0).output_ports@).contains(target),
        _ => false,
    }
}

/// The refusal of the route's first step over the initial facts, if any.
pub open spec fn start_fault(specs: Seq<CapabilitySpec>, steps: Seq<StepView>, initial: Seq<FactInstance>) -> Option<ExecFault> {
    if steps.len() == 0 {
        None
    } else {
        step_input_fault(spec_of(specs, steps[0].0), initial, 0)
    }
}

/// A step refuses its inputs only for a missing kind or a partial fact.
proof fn lemma_step_fault_kind(spec: CapabilitySpec, facts: Seq<FactInstance>, p: int)
    ensures
        step_input_fault(spec, facts, p) matches Some(f) ==> (f is MissingInput || f is PartialInputRejected),
    decreases spec.input_ports@.len() - p,
{
    if 0 <= p < spec.input_ports@.len() {
        lemma_step_fault_kind(spec, facts, p + 1);
    }
}

/// Facts that copy other facts one for one.
pub open spec fn copies(a: Seq<FactInstance>, b: Seq<FactInstance>) -> bool {
    a.len() == b.len() && forall|i: int| 0 <= i < a.len() ==> same_fact(#[trigger] a[i], b[i])
}

proof fn lemma_copies_index_alike(a: Seq<FactInstance>, b: Seq<FactInstance>, k: IdView, i: int)
    requires
        copies(a, b),
    ensures
        fact_index(a, k, i) == fact_index(b, k, i),
    decreases a.len() - i,
{
    if 0 <= i < a.len() {
        assert(same_fact(a[i], b[i]));
        lemma_copies_index_alike(a, b, k, i + 1);
    }
}

/// Copies of facts have the same types.
proof fn lemma_copies_meet_steps_alike(a: Seq<FactInstance>, b: Seq<FactInstance>)
    requires
        copies(a, b),
    ensures
        fact_types(a) == fact_types(b),
{
    assert forall|i: int| 0 <= i < a.len() implies fact_types(a)[i] == fact_types(b)[i] by {
        assert(same_fact(a[i], b[i]));
    }
    assert(fact_types(a) =~= fact_types(b));
}

/// Copies of facts meet a step's ports alike.
proof fn lemma_copies_fault_alike(spec: CapabilitySpec, a: Seq<FactInstance>, b: Seq<FactInstance>, p: int)
    requires
        copies(a, b),
    ensures
        step_input_fault(spec, a, p) == step_input_fault(spec, b, p),
    decreases spec.input_ports@.len() - p,
{
    if 0 <= p < spec.input_ports@.len() {
        let k = spec.input_ports@[p].value_kind@;
        lemma_copies_index_alike(a, b, k, 0);
        if fact_index(a, k, 0) is Some {
            lemma_fact_index_contains(a, k, 0);
            let x = fact_index(a, k, 0).unwrap();
            assert(same_fact(a[x], b[x]));
        }
        lemma_copies_fault_alike(spec, a, b, p + 1);
    }
}

/// A route that passed preflight names declared capabilities and
/// registered providers at every step.
proof fn lemma_preflight_clear(specs: Seq<CapabilitySpec>, pids: Seq<IdView>, steps: Seq<StepView>, i: int, j: int)
    requires
        0 <= i <= j < steps.len(),
        preflight_fault(specs, pids, steps, i) is None,
    ensures
        first_spec_index(specs, steps[j].0, 0) is Some,
        steps[j].1 matches Some(p) ==> pids.contains(p),
    decreases j - i,
{
    if i < j {
        lemma_preflight_clear(specs, pids, steps, i + 1, j);
    }
}

/// Without a repeat, two positions of one kind are the same position.
proof fn lemma_no_repeat_distinct(kinds: Seq<IdView>, j: int, a: int, b: int)
    requires
        0 <= j,
        first_repeat(kinds, j) is None,
        0 <= a < b < kinds.len(),
        j <= b,
    ensures
        kinds[a] != kinds[b],
    decreases b - j,
{
    if j < b {
        lemma_no_repeat_distinct(kinds, j + 1, a, b);
    }
}

/// Facts that copy the initial facts, with the same set of types, meet a
/// step's ports exactly as the initial facts do.
proof fn lemma_start_fault_same(spec: CapabilitySpec, start: Seq<FactInstance>, initial: Seq<FactInstance>, p: int)
    requires
        0 <= p,
        first_repeat(fact_types(initial), 0) is None,
        forall|k: IdView| fact_types(start).contains(k) <==> fact_types(initial).contains(k),
        forall|a: int| 0 <= a < start.len() ==> exists|i: int| 0 <= i < initial.len() && same_fact(#[trigger] start[a], initial[i]),
    ensures
        step_input_fault(spec, start, p) == step_input_fault(spec, initial, p),
    decreases spec.input_ports@.len() - p,
{
    if p < spec.input_ports@.len() {
        let k = spec.input_ports@[p].value_kind@;
        lemma_fact_index_contains(start, k, 0);
        lemma_fact_index_contains(initial, k, 0);
        if fact_index(initial, k, 0) is Some {
            let i = fact_index(initial, k, 0).unwrap();
            assert(fact_types(initial)[i] == k);
            assert(fact_types(start).contains(k));
            let w = choose|w: int| 0 <= w < fact_types(start).len() && fact_types(start)[w] == k;
            assert(start[w].fact_type@ == k);
            let a = fact_index(start, k, 0).unwrap();
            let i2 = choose|i2: int| 0 <= i2 < initial.len() && same_fact(start[a], initial[i2]);
            assert(fact_types(initial)[i2] == k);
            if i2 != i {
                if i < i2 {
                    lemma_no_repeat_distinct(fact_types(initial), 0, i, i2);
                } else {
                    lemma_no_repeat_distinct(fact_types(initial), 0, i2, i);
                }
            }
            assert(start[a].coverage == initial[i].coverage);
        } else {
            if fact_index(start, k, 0) is Some {
                let a = fact_index(start, k, 0).unwrap();
                assert(fact_types(start)[a] == k);
                let w = choose|w: int| 0 <= w < fact_types(initial).len() && fact_types(initial)[w] == k;
                assert(initial[w].fact_type@ == k);
            }
        }
        lemma_start_fault_same(spec, start, initial, p + 1);
    }
}

fn input_ids(inputs: &Vec<FactInstance>) -> (r: Vec<String>)
    ensures
        r@.len() == inputs@.len(),
        forall|i: int| 0 <= i < r@.len() ==> (#[trigger] r@[i])@ == inputs@[i].id@,
{
    let mut out: Vec<String> = Vec::new();
    let mut i: usize = 0;
    while i < inputs.len()
        invariant
            i <= inputs.len(),
            out@.len() == i,
            forall|k: int| 0 <= k < i ==> (#[trigger] out@[k])@ == inputs@[k].id@,
        decreases inputs.len() - i,
    {
        out.push(inputs[i].id.clone());
        i = i + 1;
    }
    out
}

impl<P: CapabilityProvider> CapabilityRegistry<P> {
    /// Runs a fully provided route in-process. The route is checked whole
    /// before any provider runs; the initial facts must have distinct
    /// types; each step hands its provider the facts its ports name, and
    /// its outputs must cover exactly the declared output kinds.
    #[verifier::rlimit(40)]
    pub fn execute(&self, plan: &DerivationPlan, initial: Vec<FactInstance>) -> (r: Result<ExecutionReport, ExecutionError>)
        ensures
            !plan_executable(*plan) ==> (r matches Err(ExecutionError::PlanNotExecutable(v)) && same_needs(v@, plan.needs@)),
            plan_executable(*plan) && preflight_fault(self.declared(), descriptor_ids(self.registered()), steps_view(plan.steps@), 0) is Some
                ==> (r matches Err(e) && preflight_fault(self.declared(), descriptor_ids(self.registered()), steps_view(plan.steps@), 0)
                == Some(exec_fault_of(e))),
            plan_executable(*plan) && preflight_fault(self.declared(), descriptor_ids(self.registered()), steps_view(plan.steps@), 0) is None
                && first_repeat(fact_types(initial@), 0) is Some ==> r matches Err(ExecutionError::AmbiguousInput),
            r is Ok ==> plan_executable(*plan) && preflight_fault(self.declared(), descriptor_ids(self.registered()), steps_view(plan.steps@), 0) is None
                && first_repeat(fact_types(initial@), 0) is None,
            r matches Ok(report) ==> run_report(report, self.declared(), steps_view(plan.steps@), plan.target@, initial@),
            plan_executable(*plan) && preflight_fault(self.declared(), descriptor_ids(self.registered()), steps_view(plan.steps@), 0) is None
                && first_repeat(fact_types(initial@), 0) is None ==> {
                &&& r matches Err(e) ==> run_fault(exec_fault_of(e), self.declared(), steps_view(plan.steps@), plan.target@, initial@)
                &&& start_fault(self.declared(), steps_view(plan.steps@), initial@) matches Some(f) ==> (r matches Err(e)
                    && exec_fault_of(e) == f)
                &&& plan.steps@.len() == 0 ==> (r is Ok <==> fact_types(initial@).contains(plan.target@))
            },
    {
        let ghost sv = steps_view(plan.steps@);
        if !plan.has_provider_for_every_step() {
            return Err(ExecutionError::PlanNotExecutable(copy_needs(&plan.needs)));
        }
        self.preflight_legacy_execution(plan)?;
        let ghost types = fact_types(initial@);
        let mut facts: Vec<FactInstance> = Vec::new();
        assert(fact_types(facts@) =~= Seq::<IdView>::empty());
        let mut i: usize = 0;
        while i < initial.len()
            invariant
                i <= initial.len(),
                types == fact_types(initial@),
                plan_executable(*plan),
                preflight_fault(self.declared(), descriptor_ids(self.registered()), sv, 0) is None,
                sv == steps_view(plan.steps@),
                ascending(fact_types(facts@)),
                forall|k: IdView| fact_types(facts@).contains(k) <==> types.subrange(0, i as int).contains(k),
                first_repeat(types, 0) == first_repeat(types, i as int),
                forall|a: int| 0 <= a < facts@.len() ==> accounted(#[trigger] facts@[a], initial@, sv, self.declared()),
                forall|a: int|
                    0 <= a < facts@.len() ==> exists|w: int| 0 <= w < initial@.len() && same_fact(#[trigger] facts@[a], initial@[w]),
            decreases initial.len() - i,
        {
            assert(types[i as int] == initial@[i as int].fact_type@);
            match find_fact(&facts, &initial[i].fact_type) {
                Some(x) => {
                    proof {
                        lemma_fact_index_contains(facts@, types[i as int], 0);
                        assert(fact_types(facts@)[x as int] == types[i as int]);
                        assert(fact_types(facts@).contains(types[i as int]));
                        let prev = types.subrange(0, i as int);
                        assert(prev.contains(types[i as int]));
                        let w = choose|w: int| 0 <= w < prev.len() && prev[w] == types[i as int];
                        assert(types[w] == types[i as int]);
                    }
                    return Err(ExecutionError::AmbiguousInput);
                },
                None => {
                    proof {
                        lemma_fact_index_contains(facts@, types[i as int], 0);
                        assert(!fact_types(facts@).contains(types[i as int])) by {
                            if fact_types(facts@).contains(types[i as int]) {
                                let w = choose|w: int| 0 <= w < fact_types(facts@).len() && fact_types(facts@)[w] == types[i as int];
                                assert(facts@[w].fact_type@ == types[i as int]);
                            }
                        }
                        assert(!(exists|a: int| 0 <= a < i && types[a] == types[i as int])) by {
                            let prev = types.subrange(0, i as int);
                            if exists|a: int| 0 <= a < i && #[trigger] types[a] == types[i as int] {
                                let a = choose|a: int| 0 <= a < i && #[trigger] types[a] == types[i as int];
                                assert(prev[a] == types[i as int]);
                            }
                        }
                    }
                    let ghost before = facts@;
                    let copy = copy_fact(&initial[i]);
                    put_fact(&mut facts, copy);
                    assert forall|a: int| 0 <= a < facts@.len() implies accounted(#[trigger] facts@[a], initial@, sv, self.declared())
                        && exists|w: int| 0 <= w < initial@.len() && same_fact(facts@[a], initial@[w]) by {
                        if facts@[a] != copy {
                            let w = choose|w: int| 0 <= w < before.len() && before[w] == facts@[a];
                            assert(accounted(before[w], initial@, sv, self.declared()));
                            assert(exists|v: int| 0 <= v < initial@.len() && same_fact(before[w], initial@[v]));
                        } else {
                            assert(same_fact(facts@[a], initial@[i as int]));
                        }
                    }
                    assert forall|k: IdView| fact_types(facts@).contains(k) <==> types.subrange(0, i + 1).contains(k) by {
                        let prev = types.subrange(0, i as int);
                        let next = types.subrange(0, i + 1);
                        assert(next =~= prev.push(types[i as int]));
                        if next.contains(k) {
                            let w = choose|w: int| 0 <= w < next.len() && next[w] == k;
                            if w < i {
                                assert(prev[w] == k);
                            }
                        }
                        if prev.contains(k) {
                            let w = choose|w: int| 0 <= w < prev.len() && prev[w] == k;
                            assert(next[w] == k);
                        }
                        assert(next[i as int] == types[i as int]);
                    }
                },
            }
            i = i + 1;
        }
        assert(first_repeat(types, initial.len() as int) is None);
        assert(preflight_fault(self.declared(), descriptor_ids(self.registered()), sv, 0) is None);
        let ghost specs = self.declared();
        let ghost pids = descriptor_ids(self.registered());
        let ghost start = facts@;
        proof {
            assert(types.subrange(0, initial.len() as int) =~= types);
            assert(forall|k: IdView| fact_types(start).contains(k) <==> fact_types(initial@).contains(k));
            if sv.len() > 0 {
                lemma_start_fault_same(spec_of(specs, sv[0].0), start, initial@, 0);
            }
        }
        let ghost mut trace: Seq<Seq<FactInstance>> = seq![start];
        proof {
            assert(run_start(start, initial@));
        }
        let mut j: usize = 0;
        while j < plan.steps.len()
            invariant
                j <= plan.steps.len(),
                trace.len() == j + 1,
                trace[0] == start,
                run_start(start, initial@),
                trace[j as int] == facts@,
                forall|i: int|
                    0 <= i < j ==> step_ran(spec_of(specs, (#[trigger] sv[i]).0), sv[i].1.unwrap(), trace[i], trace[i + 1]),
                sv == steps_view(plan.steps@),
                specs == self.declared(),
                pids == descriptor_ids(self.registered()),
                plan_executable(*plan),
                preflight_fault(specs, pids, sv, 0) is None,
                first_repeat(fact_types(initial@), 0) is None,
                ascending(fact_types(facts@)),
                forall|a: int| 0 <= a < facts@.len() ==> accounted(#[trigger] facts@[a], initial@, sv, specs),
                j == 0 ==> facts@ == start,
                j > 0 ==> start_fault(specs, sv, initial@) is None,
                forall|k: IdView| fact_types(start).contains(k) <==> fact_types(initial@).contains(k),
                forall|a: int|
                    0 <= a < start.len() ==> exists|w: int| 0 <= w < initial@.len() && same_fact(#[trigger] start[a], initial@[w]),
                sv.len() > 0 ==> step_input_fault(spec_of(specs, sv[0].0), start, 0) == start_fault(specs, sv, initial@),
                forall|k: IdView| fact_types(initial@).contains(k) ==> fact_types(facts@).contains(k),
                forall|i: int, k: IdView|
                    0 <= i < j && #[trigger] output_kinds(spec_of(specs, sv[i].0).output_ports@).contains(k) ==> fact_types(
                        facts@,
                    ).contains(k),
            decreases plan.steps.len() - j,
        {
            let step = &plan.steps[j];
            assert(sv[j as int] == step@);
            proof {
                lemma_preflight_clear(specs, pids, sv, 0, j as int);
            }
            let x = match self.spec_index(&step.capability) {
                None => return Err(ExecutionError::RegistryChanged(step.capability.duplicate())),
                Some(x) => x,
            };
            proof {
                lemma_first_spec_index_found(self.declared(), step.capability@, 0);
            }
            let provider_id = match &step.provider {
                None => return Err(ExecutionError::PlanNotExecutable(copy_needs(&plan.needs))),
                Some(p) => p,
            };
            let pi = match self.provider_position(provider_id) {
                None => return Err(ExecutionError::ProviderUnavailable(provider_id.duplicate())),
                Some(pi) => pi,
            };
            let spec = &self.specs[x];
            assert(spec_of(specs, sv[j as int].0) == *spec);
            assert(sv.contains((spec.id@, Some(provider_id@))));
            let ghost held = facts@;
            proof {
                assert(reachable(held, initial@, sv)) by {
                    assert forall|a: int| 0 <= a < held.len() implies held_fact(#[trigger] held[a], initial@, sv) by {
                        assert(accounted(held[a], initial@, sv, specs));
                    }
                }
            }
            let inputs = match step_inputs(spec, &facts) {
                Ok(v) => v,
                Err(e) => {
                    proof {
                        lemma_step_fault_kind(*spec, held, 0);
                        assert(0 <= j < sv.len() && reachable(held, initial@, sv) && step_input_fault(
                            spec_of(specs, sv[j as int].0),
                            held,
                            0,
                        ) == Some(exec_fault_of(e)));
                        if exec_fault_of(e) is MissingInput {
                            assert(run_fault(exec_fault_of(e), specs, sv, plan.target@, initial@));
                        } else {
                            assert(run_fault(exec_fault_of(e), specs, sv, plan.target@, initial@));
                        }
                    }
                    return Err(e);
                },
            };
            let produced = match self.providers[pi].provider.invoke(spec, inputs.as_slice()) {
                Ok(v) => v,
                Err(error) => {
                    assert(sv[j as int].1 == Some(provider_id@));
                    return Err(ExecutionError::ProviderFailed { provider: provider_id.duplicate(), error });
                },
            };
            proof {
                assert(first_spec_index(specs, spec.id@, 0) == Some(x as int));
                assert(spec_of(specs, spec.id@) == *spec);
                assert(step_input_fault(*spec, held, 0) is None);
                assert(j == 0 ==> start_fault(specs, sv, initial@) is None);
                assert forall|q: int| 0 <= q < inputs@.len() implies fact_index(held, spec.input_ports@[q].value_kind@, 0) is Some
                    && (#[trigger] inputs@[q]).id@ == held[fact_index(held, spec.input_ports@[q].value_kind@, 0).unwrap()].id@ by {
                    assert(held_copy(inputs@[q], held, spec.input_ports@[q].value_kind@));
                }
            }
            let ghost outs = produced@;
            let next = match hold_outputs(spec, provider_id, facts, &inputs, produced) {
                Ok(n) => n,
                Err(e) => {
                    assert(sv[j as int].0 == spec.id@);
                    return Err(e);
                },
            };
            proof {
                let sp = spec_of(specs, spec.id@);
                assert(sp.input_ports@ == spec.input_ports@);
                assert forall|a: int| 0 <= a < next@.len() implies accounted(#[trigger] next@[a], initial@, sv, specs) by {
                    if held.contains(next@[a]) {
                        let w = choose|w: int| 0 <= w < held.len() && held[w] == next@[a];
                        assert(accounted(held[w], initial@, sv, specs));
                    } else {
                        let o = choose|o: int| 0 <= o < outs.len() && step_fact(next@[a], spec.id@, provider_id@, inputs@, #[trigger] outs[o]);
                        let f = next@[a];
                        if let FactDerivation::Produced { capability: c, provider: pv, inputs: ids2 } = f.derivation {
                            assert(c@ == spec.id@ && pv@ == provider_id@);
                            assert(forall|q: int| 0 <= q < ids2@.len() ==> (#[trigger] ids2@[q])@ == inputs@[q].id@);
                            assert forall|q: int| 0 <= q < ids2@.len() implies fact_index(held, sp.input_ports@[q].value_kind@, 0)
                                is Some && (#[trigger] ids2@[q])@ == held[fact_index(held, sp.input_ports@[q].value_kind@, 0).unwrap()].id@ by {
                                assert(ids2@[q]@ == inputs@[q].id@);
                                assert(inputs@[q].id@ == held[fact_index(held, spec.input_ports@[q].value_kind@, 0).unwrap()].id@);
                            }
                            assert(handed(sp, held, ids2@));
                            assert(reachable(held, initial@, sv));
                        }
                    }
                }
                assert forall|k: IdView| output_kinds(spec_of(specs, sv[j as int].0).output_ports@).contains(k) implies fact_types(
                    next@,
                ).contains(k) by {}
            }
            proof {
                assert(step_outcome(*spec, provider_id@, held, inputs@, outs, next@));
                assert(sv[j as int].1 == Some(provider_id@));
                assert(step_ran(spec_of(specs, sv[j as int].0), sv[j as int].1.unwrap(), held, next@));
                let t0 = trace;
                trace = trace.push(next@);
                assert forall|i: int|
                    0 <= i < j + 1 implies step_ran(spec_of(specs, (#[trigger] sv[i]).0), sv[i].1.unwrap(), trace[i], trace[i + 1]) by {
                    if i < j {
                        assert(trace[i] == t0[i] && trace[i + 1] == t0[i + 1]);
                    }
                }
            }
            facts = next;
            j = j + 1;
        }
        proof {
            assert(run_trace(trace, specs, sv, initial@));
            assert(trace.last() == facts@);
        }
        let t = match find_fact(&facts, &plan.target) {
            None => {
                proof {
                    lemma_fact_index_contains(facts@, plan.target@, 0);
                    if sv.len() == 0 && fact_types(initial@).contains(plan.target@) {
                        assert(fact_types(start).contains(plan.target@));
                        let w = choose|w: int| 0 <= w < fact_types(start).len() && fact_types(start)[w] == plan.target@;
                        assert(start[w].fact_type@ == plan.target@);
                    }
                }
                return Err(ExecutionError::MissingTarget(plan.target.duplicate()));
            },
            Some(t) => t,
        };
        proof {
            lemma_fact_index_contains(facts@, plan.target@, 0);
            if sv.len() == 0 {
                assert(facts@ == start);
                let w = choose|w: int| 0 <= w < initial@.len() && same_fact(facts@[t as int], initial@[w]);
                assert(fact_types(initial@)[w] == plan.target@);
                lemma_fact_index_contains(initial@, plan.target@, 0);
                let k = fact_index(initial@, plan.target@, 0).unwrap();
                if k != w {
                    if k < w {
                        lemma_no_repeat_distinct(fact_types(initial@), 0, k, w);
                    } else {
                        lemma_no_repeat_distinct(fact_types(initial@), 0, w, k);
                    }
                }
                assert(fact_types(initial@).contains(plan.target@));
            }
        }
        let target = copy_fact(&facts[t]);
        Ok(ExecutionReport { target, facts, steps: copy_steps(&plan.steps) })
    }
}


// ---- the door ----

/// One question: the facts a caller holds, and the fact it wants.
#[derive(Debug)]
pub struct DerivationRequest {
    pub target: ExactId,
    pub inputs: Vec<FactInstance>,
}

/// Why a request could not be accepted as asked; the remedy belongs to the
/// caller or the invocation adapter, not to a provider.
#[derive(Debug)]
pub enum RequestRefusal {
    /// Two inputs declare the same fact type.
    AmbiguousInput(ExactId),
    /// The legacy adapter cannot bind two named input roles of one kind.
    LegacyAdapterRepeatedInputKind { capability: Box<ExactId>, value_kind: Box<ExactId> },
    /// The legacy adapter cannot tell apart two named output roles of one
    /// kind.
    LegacyAdapterRepeatedOutputKind { capability: Box<ExactId>, value_kind: Box<ExactId> },
}

/// Everything there is to say about one derivation request: every outcome
/// is an answer, and each names its own remedy.
#[derive(Debug)]
pub enum Answer {
    /// The fact exists; its coverage says whether it is complete.
    Produced(Box<ExecutionReport>),
    /// A route exists, but a capability on it has no provider; its needs
    /// are assignable work.
    Blocked(DerivationPlan),
    /// No route at all.
    Unreachable(PlanError),
    /// The request could not be accepted as asked.
    Refused(RequestRefusal),
    /// A provider on an executable route failed while running.
    Failed(ExecutionError),
}

pub open spec fn produced_remedy() -> Seq<char> {
    "use the fact; read its coverage before assuming it is complete"@
}

pub open spec fn blocked_remedy() -> Seq<char> {
    "assign the open needs to a provider, an agent, or a person"@
}

pub open spec fn unreachable_remedy() -> Seq<char> {
    "declare a capability that produces this fact"@
}

pub open spec fn ambiguous_remedy() -> Seq<char> {
    "bind one unambiguous fact for each requested value kind"@
}

pub open spec fn adapter_remedy() -> Seq<char> {
    "use an invocation adapter that binds exact named ports to fact identities"@
}

pub open spec fn failed_remedy() -> Seq<char> {
    "fix or replace the provider that failed"@
}

pub open spec fn remedy_of(a: Answer) -> Seq<char> {
    match a {
        Answer::Produced(_) => produced_remedy(),
        Answer::Blocked(_) => blocked_remedy(),
        Answer::Unreachable(_) => unreachable_remedy(),
        Answer::Refused(RequestRefusal::AmbiguousInput(_)) => ambiguous_remedy(),
        Answer::Refused(_) => adapter_remedy(),
        Answer::Failed(_) => failed_remedy(),
    }
}

impl RequestRefusal {
    fn remedy(&self) -> (r: &'static str)
        ensures
            r@ == (if self is AmbiguousInput { ambiguous_remedy() } else { adapter_remedy() }),
    {
        match self {
            RequestRefusal::AmbiguousInput(_) => "bind one unambiguous fact for each requested value kind",
            _ => "use an invocation adapter that binds exact named ports to fact identities",
        }
    }
}

impl Answer {
    /// What the caller should do next.
    pub fn remedy(&self) -> (r: &'static str)
        ensures
            r@ == remedy_of(*self),
    {
        match self {
            Answer::Produced(_) => "use the fact; read its coverage before assuming it is complete",
            Answer::Blocked(_) => "assign the open needs to a provider, an agent, or a person",
            Answer::Unreachable(_) => "declare a capability that produces this fact",
            Answer::Refused(refusal) => refusal.remedy(),
            Answer::Failed(_) => "fix or replace the provider that failed",
        }
    }

    /// The assignable work this answer names, read from the plan.
    pub fn needs(&self) -> (r: &[CapabilityNeed])
        ensures
            match *self {
                Answer::Blocked(p) => r@ == p.needs@,
                _ => r@.len() == 0,
            },
    {
        match self {
            Answer::Blocked(plan) => plan.needs.as_slice(),
            _ => &[],
        }
    }
}

/// No two outcome categories, and no two refusal causes, share a remedy.
pub proof fn lemma_remedies_distinct()
    ensures
        produced_remedy() != blocked_remedy(),
        produced_remedy() != unreachable_remedy(),
        produced_remedy() != ambiguous_remedy(),
        produced_remedy() != adapter_remedy(),
        produced_remedy() != failed_remedy(),
        blocked_remedy() != unreachable_remedy(),
        blocked_remedy() != ambiguous_remedy(),
        blocked_remedy() != adapter_remedy(),
        blocked_remedy() != failed_remedy(),
        unreachable_remedy() != ambiguous_remedy(),
        unreachable_remedy() != adapter_remedy(),
        unreachable_remedy() != failed_remedy(),
        ambiguous_remedy() != adapter_remedy(),
        ambiguous_remedy() != failed_remedy(),
        adapter_remedy() != failed_remedy(),
{
    reveal_strlit("use the fact; read its coverage before assuming it is complete");
    reveal_strlit("assign the open needs to a provider, an agent, or a person");
    reveal_strlit("declare a capability that produces this fact");
    reveal_strlit("bind one unambiguous fact for each requested value kind");
    reveal_strlit("use an invocation adapter that binds exact named ports to fact identities");
    reveal_strlit("fix or replace the provider that failed");
    assert(produced_remedy()[4] != adapter_remedy()[4]);
    assert(produced_remedy()[0] != blocked_remedy()[0]);
    assert(produced_remedy()[0] != unreachable_remedy()[0]);
    assert(produced_remedy()[0] != ambiguous_remedy()[0]);
    assert(produced_remedy()[0] != failed_remedy()[0]);
    assert(blocked_remedy()[0] != unreachable_remedy()[0]);
    assert(blocked_remedy()[0] != ambiguous_remedy()[0]);
    assert(blocked_remedy()[0] != adapter_remedy()[0]);
    assert(blocked_remedy()[0] != failed_remedy()[0]);
    assert(unreachable_remedy()[0] != ambiguous_remedy()[0]);
    assert(unreachable_remedy()[0] != adapter_remedy()[0]);
    assert(unreachable_remedy()[0] != failed_remedy()[0]);
    assert(ambiguous_remedy()[0] != adapter_remedy()[0]);
    assert(ambiguous_remedy()[0] != failed_remedy()[0]);
    assert(adapter_remedy()[0] != failed_remedy()[0]);
}

/// Every step of the route has a provider.
pub open spec fn route_provided(steps: Seq<StepView>) -> bool {
    forall|i: int| 0 <= i < steps.len() ==> (#[trigger] steps[i]).1 is Some
}

proof fn lemma_missing_caps_empty(steps: Seq<StepView>)
    ensures
        missing_caps(steps).len() == 0 <==> route_provided(steps),
    decreases steps.len(),
{
    if steps.len() > 0 {
        lemma_missing_caps_empty(steps.drop_last());
        if route_provided(steps) {
            assert forall|i: int| 0 <= i < steps.drop_last().len() implies (#[trigger] steps.drop_last()[i]).1 is Some by {
                assert(steps.drop_last()[i] == steps[i]);
            }
            assert(steps[steps.len() - 1].1 is Some);
        } else if missing_caps(steps).len() == 0 {
            assert(steps.last().1 is Some);
            assert forall|i: int| 0 <= i < steps.len() implies (#[trigger] steps[i]).1 is Some by {
                if i < steps.len() - 1 {
                    assert(steps.drop_last()[i] == steps[i]);
                }
            }
        }
    }
}

/// Answers one derivation request; never fails: ambiguous inputs are
/// refused, a missing route is unreachable, a route with open needs is
/// blocked, a route the legacy adapter cannot represent is refused, and
/// otherwise the route runs through `execute` on copies of the inputs: the
/// answer is `Produced` with the report `execute` returned, holding all
/// that `execute` promises of a report, or `Failed` with its error.
pub fn answer<P: CapabilityProvider>(registry: &CapabilityRegistry<P>, request: &DerivationRequest) -> (r: Answer)
    requires
        registry.wf(),
    ensures
        ({
            let types = fact_types(request.inputs@);
            let routes = planned_routes(registry.declared(), registry.bindings(), types);
            let pids = descriptor_ids(registry.registered());
            &&& first_repeat(types, 0) matches Some(j) ==> (r matches Answer::Refused(RequestRefusal::AmbiguousInput(t))
                && t@ == types[j])
            &&& first_repeat(types, 0) is None && !routes.contains_key(request.target@) ==> (r matches Answer::Unreachable(
                PlanError::Unreachable(t),
            ) && t@ == request.target@)
            &&& first_repeat(types, 0) is None && routes.contains_key(request.target@) && !route_provided(routes[request.target@])
                ==> (r matches Answer::Blocked(p) && p.target@ == request.target@ && steps_view(p.steps@) == routes[request.target@]
                && needs_for(p.needs@, steps_view(p.steps@), registry.declared()))
            &&& first_repeat(types, 0) is None && routes.contains_key(request.target@) && route_provided(routes[request.target@])
                ==> match preflight_fault(registry.declared(), pids, routes[request.target@], 0) {
                Some(ExecFault::RepeatedInput(c, k)) => r matches Answer::Refused(
                    RequestRefusal::LegacyAdapterRepeatedInputKind { capability, value_kind },
                ) && capability@ == c && value_kind@ == k,
                Some(ExecFault::RepeatedOutput(c, k)) => r matches Answer::Refused(
                    RequestRefusal::LegacyAdapterRepeatedOutputKind { capability, value_kind },
                ) && capability@ == c && value_kind@ == k,
                Some(f) => r matches Answer::Failed(e) && exec_fault_of(e) == f,
                None => {
                    let route = routes[request.target@];
                    &&& r is Produced || r is Failed
                    &&& r matches Answer::Produced(report) ==> exists|ini: Seq<FactInstance>|
                        #[trigger] copies(ini, request.inputs@) && run_report(*report, registry.declared(), route, request.target@, ini)
                    &&& r matches Answer::Failed(e) ==> exists|ini: Seq<FactInstance>|
                        #[trigger] copies(ini, request.inputs@) && run_fault(exec_fault_of(e), registry.declared(), route, request.target@, ini)
                    &&& start_fault(registry.declared(), route, request.inputs@) matches Some(f) ==> (r matches Answer::Failed(e)
                        && exec_fault_of(e) == f)
                    &&& route.len() == 0 ==> (r is Produced <==> types.contains(request.target@))
                },
            }
            &&& r is Produced ==> first_repeat(types, 0) is None && routes.contains_key(request.target@) && route_provided(
                routes[request.target@],
            ) && preflight_fault(registry.declared(), pids, routes[request.target@], 0) is None
            &&& r is Blocked ==> routes.contains_key(request.target@) && !route_provided(routes[request.target@])
        }),
{
    let types = fact_type_vec(&request.inputs);
    assert(id_views(types@) =~= fact_types(request.inputs@));
    match first_repeat_in(&types) {
        Some(j) => {
            assert(id_views(types@)[j as int] == types@[j as int]@);
            return Answer::Refused(RequestRefusal::AmbiguousInput(request.inputs[j].fact_type.duplicate()));
        },
        None => {},
    }
    let plan = match registry.plan(types, &request.target) {
        Ok(p) => p,
        Err(e) => return Answer::Unreachable(e),
    };
    proof {
        lemma_missing_caps_empty(steps_view(plan.steps@));
    }
    if !plan.has_provider_for_every_step() {
        proof {
            if route_provided(steps_view(plan.steps@)) {
                assert forall|i: int| 0 <= i < plan.steps@.len() implies (#[trigger] plan.steps@[i]).provider is Some by {
                    assert(steps_view(plan.steps@)[i].1 is Some);
                }
            }
        }
        return Answer::Blocked(plan);
    }
    assert(route_provided(steps_view(plan.steps@))) by {
        assert forall|i: int| 0 <= i < steps_view(plan.steps@).len() implies (#[trigger] steps_view(plan.steps@)[i]).1 is Some by {
            assert(plan.steps@[i].provider is Some);
        }
    }
    match registry.preflight_legacy_execution(&plan) {
        Ok(()) => {},
        Err(ExecutionError::RepeatedInputValueKindPortsUnsupported { capability, value_kind }) => {
            return Answer::Refused(RequestRefusal::LegacyAdapterRepeatedInputKind { capability, value_kind });
        },
        Err(ExecutionError::RepeatedOutputValueKindPortsUnsupported { capability, value_kind }) => {
            return Answer::Refused(RequestRefusal::LegacyAdapterRepeatedOutputKind { capability, value_kind });
        },
        Err(other) => return Answer::Failed(other),
    }
    let mut inputs: Vec<FactInstance> = Vec::new();
    let mut i: usize = 0;
    while i < request.inputs.len()
        invariant
            i <= request.inputs.len(),
            copies(inputs@, request.inputs@.subrange(0, i as int)),
        decreases request.inputs.len() - i,
    {
        inputs.push(copy_fact(&request.inputs[i]));
        i = i + 1;
    }
    proof {
        assert(request.inputs@.subrange(0, request.inputs@.len() as int) =~= request.inputs@);
        lemma_copies_meet_steps_alike(inputs@, request.inputs@);
        if steps_view(plan.steps@).len() > 0 {
            lemma_copies_fault_alike(spec_of(registry.declared(), steps_view(plan.steps@)[0].0), inputs@, request.inputs@, 0);
        }
    }
    let ghost ini = inputs@;
    match registry.execute(&plan, inputs) {
        Ok(report) => {
            assert(copies(ini, request.inputs@));
            Answer::Produced(Box::new(report))
        },
        Err(e) => {
            assert(copies(ini, request.inputs@));
            Answer::Failed(e)
        },
    }
}


// ---- the value kinds a registry names ----

/// Every value kind the declarations name, outputs before inputs, in
/// registry order, repeats included.
pub open spec fn all_kinds(specs: Seq<CapabilitySpec>) -> Seq<IdView>
    decreases specs.len(),
{
    if specs.len() == 0 {
        Seq::empty()
    } else {
        all_kinds(specs.drop_last()) + output_kinds(specs.last().output_ports@) + input_kinds(specs.last().input_ports@)
    }
}

/// The value kinds the declarations name, each once, in identity order.
pub open spec fn known_kinds(specs: Seq<CapabilitySpec>) -> Seq<IdView> {
    choose|s: Seq<IdView>| ascending(s) && forall|k: IdView| s.contains(k) <==> all_kinds(specs).contains(k)
}

/// Two ascending sequences with the same members are equal.
pub proof fn lemma_ascending_unique(a: Seq<IdView>, b: Seq<IdView>)
    requires
        ascending(a),
        ascending(b),
        forall|k: IdView| a.contains(k) <==> b.contains(k),
    ensures
        a == b,
    decreases a.len(),
{
    if a.len() == 0 {
        if b.len() > 0 {
            assert(b.contains(b[0]));
        }
        assert(a =~= b);
    } else {
        assert(a.contains(a[0]));
        assert(b.len() > 0);
        assert(b.contains(b[0]));
        let j = choose|j: int| 0 <= j < b.len() && b[j] == a[0];
        let i = choose|i: int| 0 <= i < a.len() && a[i] == b[0];
        if a[0] != b[0] {
            assert(j > 0 && i > 0);
            lemma_id_less_transitive(a[0], b[0], a[0]);
            lemma_id_less_irreflexive(a[0]);
        }
        let (ra, rb) = (a.drop_first(), b.drop_first());
        assert forall|k: IdView| ra.contains(k) <==> rb.contains(k) by {
            if ra.contains(k) {
                let x = choose|x: int| 0 <= x < ra.len() && ra[x] == k;
                assert(a[x + 1] == k);
                assert(b.contains(k));
                let y = choose|y: int| 0 <= y < b.len() && b[y] == k;
                if y == 0 {
                    lemma_id_less_irreflexive(a[0]);
                }
                assert(rb[y - 1] == k);
            }
            if rb.contains(k) {
                let y = choose|y: int| 0 <= y < rb.len() && rb[y] == k;
                assert(b[y + 1] == k);
                assert(a.contains(k));
                let x = choose|x: int| 0 <= x < a.len() && a[x] == k;
                if x == 0 {
                    lemma_id_less_irreflexive(b[0]);
                }
                assert(ra[x - 1] == k);
            }
        }
        lemma_ascending_unique(ra, rb);
        assert(a =~= seq![a[0]] + ra);
        assert(b =~= seq![b[0]] + rb);
    }
}

/// Adds `k` to an ascending sequence of distinct identities, unless it is
/// there.
fn insert_kind(out: &mut Vec<ExactId>, k: &ExactId)
    requires
        ascending(id_views(old(out)@)),
    ensures
        ascending(id_views(final(out)@)),
        forall|x: IdView| id_views(final(out)@).contains(x) <==> (id_views(old(out)@).contains(x) || x == k@),
{
    let ghost before = id_views(out@);
    let pos = first_not_below(out, k);
    assert(Seq::new(out@.len(), |j: int| out@[j]@) =~= before);
    if pos < out.len() && out[pos].same_as(k) {
        assert(before[pos as int] == k@);
        return;
    }
    proof {
        lemma_insert_ascending(before, k@, pos as int);
    }
    out.insert(pos, k.duplicate());
    assert(id_views(out@) =~= before.insert(pos as int, k@));
    assert forall|x: IdView| id_views(out@).contains(x) <==> (before.contains(x) || x == k@) by {
        let after = id_views(out@);
        if after.contains(x) {
            let w = choose|w: int| 0 <= w < after.len() && after[w] == x;
            if w < pos {
                assert(before[w] == x);
            } else if w > pos {
                assert(before[w - 1] == x);
            }
        }
        if before.contains(x) {
            let w = choose|w: int| 0 <= w < before.len() && before[w] == x;
            if w < pos {
                assert(after[w] == x);
            } else {
                assert(after[w + 1] == x);
            }
        }
        assert(after[pos as int] == k@);
    }
}

/// Every value kind the installed declarations name, each once, in
/// identity order.
pub fn known_facts<P>(registry: &CapabilityRegistry<P>) -> (r: Vec<ExactId>)
    ensures
        id_views(r@) == known_kinds(registry.declared()),
        ascending(id_views(r@)),
        forall|k: IdView| id_views(r@).contains(k) <==> all_kinds(registry.declared()).contains(k),
{
    let ghost specs = registry.declared();
    let mut out: Vec<ExactId> = Vec::new();
    let ghost mut seen: Seq<IdView> = Seq::empty();
    assert(id_views(out@) =~= Seq::<IdView>::empty());
    let mut i: usize = 0;
    while i < registry.specs.len()
        invariant
            i <= registry.specs.len(),
            specs == registry.declared(),
            seen == all_kinds(specs.subrange(0, i as int)),
            ascending(id_views(out@)),
            forall|k: IdView| id_views(out@).contains(k) <==> seen.contains(k),
        decreases registry.specs.len() - i,
    {
        let spec = &registry.specs[i];
        let ghost start = seen;
        let mut o: usize = 0;
        while o < spec.output_ports.len()
            invariant
                o <= spec.output_ports.len(),
                seen == start + output_kinds(spec.output_ports@).subrange(0, o as int),
                ascending(id_views(out@)),
                forall|k: IdView| id_views(out@).contains(k) <==> seen.contains(k),
            decreases spec.output_ports.len() - o,
        {
            let ghost prev = seen;
            insert_kind(&mut out, &spec.output_ports[o].value_kind);
            proof {
                seen = seen.push(spec.output_ports@[o as int].value_kind@);
                assert(start + output_kinds(spec.output_ports@).subrange(0, o + 1) =~= seen);
                assert forall|k: IdView| id_views(out@).contains(k) <==> seen.contains(k) by {
                    if seen.contains(k) && k != spec.output_ports@[o as int].value_kind@ {
                        let w = choose|w: int| 0 <= w < seen.len() && seen[w] == k;
                        assert(prev[w] == k);
                    }
                    if prev.contains(k) {
                        let w = choose|w: int| 0 <= w < prev.len() && prev[w] == k;
                        assert(seen[w] == k);
                    }
                    assert(seen[prev.len() as int] == spec.output_ports@[o as int].value_kind@);
                }
            }
            o = o + 1;
        }
        let ghost mid = seen;
        assert(mid =~= start + output_kinds(spec.output_ports@));
        let mut p: usize = 0;
        while p < spec.input_ports.len()
            invariant
                p <= spec.input_ports.len(),
                seen == mid + input_kinds(spec.input_ports@).subrange(0, p as int),
                ascending(id_views(out@)),
                forall|k: IdView| id_views(out@).contains(k) <==> seen.contains(k),
            decreases spec.input_ports.len() - p,
        {
            let ghost prev = seen;
            insert_kind(&mut out, &spec.input_ports[p].value_kind);
            proof {
                seen = seen.push(spec.input_ports@[p as int].value_kind@);
                assert(mid + input_kinds(spec.input_ports@).subrange(0, p + 1) =~= seen);
                assert forall|k: IdView| id_views(out@).contains(k) <==> seen.contains(k) by {
                    if seen.contains(k) && k != spec.input_ports@[p as int].value_kind@ {
                        let w = choose|w: int| 0 <= w < seen.len() && seen[w] == k;
                        assert(prev[w] == k);
                    }
                    if prev.contains(k) {
                        let w = choose|w: int| 0 <= w < prev.len() && prev[w] == k;
                        assert(seen[w] == k);
                    }
                    assert(seen[prev.len() as int] == spec.input_ports@[p as int].value_kind@);
                }
            }
            p = p + 1;
        }
        proof {
            assert(specs.subrange(0, i + 1).drop_last() =~= specs.subrange(0, i as int));
            assert(seen =~= mid + input_kinds(spec.input_ports@));
        }
        i = i + 1;
    }
    proof {
        assert(specs.subrange(0, registry.specs.len() as int) =~= specs);
        let known = known_kinds(specs);
        assert(ascending(id_views(out@)) && forall|k: IdView| id_views(out@).contains(k) <==> all_kinds(specs).contains(k));
        lemma_ascending_unique(id_views(out@), known);
    }
    out
}

/// The first kind, from `i` on, whose display form is `wanted`.
pub open spec fn first_rendered(kinds: Seq<IdView>, wanted: Seq<char>, i: int) -> Option<int>
    decreases kinds.len() - i,
{
    if i < 0 || i >= kinds.len() {
        None
    } else if render_id(kinds[i]) == wanted {
        Some(i)
    } else {
        first_rendered(kinds, wanted, i + 1)
    }
}

/// The kinds whose bare name is `wanted`, in order.
pub open spec fn named(kinds: Seq<IdView>, wanted: Seq<char>) -> Seq<IdView>
    decreases kinds.len(),
{
    if kinds.len() == 0 {
        Seq::empty()
    } else {
        named(kinds.drop_last(), wanted) + (if kinds.last().name == wanted { seq![kinds.last()] } else { Seq::empty() })
    }
}

pub open spec fn unknown_msg(wanted: Seq<char>) -> Seq<char> {
    "no fact type named `"@ + wanted + "`. `gooir facts` lists them."@
}

/// The display forms of the kinds, each on its own indented line.
pub open spec fn candidate_lines(kinds: Seq<IdView>) -> Seq<char>
    decreases kinds.len(),
{
    if kinds.len() == 0 {
        Seq::empty()
    } else if kinds.len() == 1 {
        render_id(kinds[0])
    } else {
        candidate_lines(kinds.drop_last()) + "\n  "@ + render_id(kinds.last())
    }
}

pub open spec fn ambiguous_msg(wanted: Seq<char>, kinds: Seq<IdView>) -> Seq<char> {
    "`"@ + wanted + "` is ambiguous; name one exactly:\n  "@ + candidate_lines(kinds)
}

pub open spec fn legacy_unknown_msg(wanted: Seq<char>) -> Seq<char> {
    "no legacy fact type named `"@ + wanted + "`"@
}

pub open spec fn legacy_ambiguous_msg(wanted: Seq<char>, kinds: Seq<IdView>) -> Seq<char> {
    "legacy fact type `"@ + wanted + "` is ambiguous; name one exactly:\n  "@ + candidate_lines(kinds)
}

/// The refusal of an unresolvable name: the plain or the legacy wording.
pub open spec fn resolve_refusal(legacy: bool, wanted: Seq<char>, hits: Seq<IdView>) -> Seq<char> {
    if hits.len() == 0 {
        if legacy { legacy_unknown_msg(wanted) } else { unknown_msg(wanted) }
    } else {
        if legacy { legacy_ambiguous_msg(wanted, hits) } else { ambiguous_msg(wanted, hits) }
    }
}

/// Accepts a full identity or an unambiguous bare name among the known
/// kinds; ambiguity is reported rather than resolved by preference.
pub fn resolve<P>(registry: &CapabilityRegistry<P>, wanted: &str) -> (r: Result<ExactId, String>)
    ensures
        ({
            let known = known_kinds(registry.declared());
            let hits = named(known, wanted@);
            &&& r is Ok <==> first_rendered(known, wanted@, 0) is Some || hits.len() == 1
            &&& r matches Ok(id) ==> match first_rendered(known, wanted@, 0) {
                Some(x) => id@ == known[x],
                None => id@ == hits[0],
            }
            &&& r matches Err(e) ==> e@ == (if hits.len() == 0 { unknown_msg(wanted@) } else { ambiguous_msg(wanted@, hits) })
        }),
{
    resolve_worded(registry, wanted, false)
}

/// Resolves a fact type for the legacy derive bridge: the same rule as
/// `resolve`, in the bridge's own wording.
pub fn resolve_legacy<P>(registry: &CapabilityRegistry<P>, wanted: &str) -> (r: Result<ExactId, String>)
    ensures
        ({
            let known = known_kinds(registry.declared());
            let hits = named(known, wanted@);
            &&& r is Ok <==> first_rendered(known, wanted@, 0) is Some || hits.len() == 1
            &&& r matches Ok(id) ==> match first_rendered(known, wanted@, 0) {
                Some(x) => id@ == known[x],
                None => id@ == hits[0],
            }
            &&& r matches Err(e) ==> e@ == (if hits.len() == 0 { legacy_unknown_msg(wanted@) } else { legacy_ambiguous_msg(wanted@, hits) })
        }),
{
    resolve_worded(registry, wanted, true)
}

fn resolve_worded<P>(registry: &CapabilityRegistry<P>, wanted: &str, legacy: bool) -> (r: Result<ExactId, String>)
    ensures
        ({
            let known = known_kinds(registry.declared());
            let hits = named(known, wanted@);
            &&& r is Ok <==> first_rendered(known, wanted@, 0) is Some || hits.len() == 1
            &&& r matches Ok(id) ==> match first_rendered(known, wanted@, 0) {
                Some(x) => id@ == known[x],
                None => id@ == hits[0],
            }
            &&& r matches Err(e) ==> e@ == resolve_refusal(legacy, wanted@, hits)
        }),
{
    let facts = known_facts(registry);
    let ghost known = id_views(facts@);
    let mut i: usize = 0;
    while i < facts.len()
        invariant
            i <= facts.len(),
            known == id_views(facts@),
            known == known_kinds(registry.declared()),
            first_rendered(known, wanted@, 0) == first_rendered(known, wanted@, i as int),
        decreases facts.len() - i,
    {
        let text = facts[i].render();
        assert(known[i as int] == facts@[i as int]@);
        if crate::text::str_eq(text.as_str(), wanted) {
            assert(render_id(known[i as int]) == wanted@);
            assert(first_rendered(known, wanted@, i as int) == Some(i as int));
            assert(known == known_kinds(registry.declared()));
            return Ok(facts[i].duplicate());
        }
        i = i + 1;
    }
    let mut hits: Vec<ExactId> = Vec::new();
    let mut j: usize = 0;
    while j < facts.len()
        invariant
            j <= facts.len(),
            known == id_views(facts@),
            id_views(hits@) == named(known.subrange(0, j as int), wanted@),
        decreases facts.len() - j,
    {
        assert(known.subrange(0, j + 1).drop_last() =~= known.subrange(0, j as int));
        if crate::text::str_eq(facts[j].name.as_str(), wanted) {
            let ghost before = id_views(hits@);
            hits.push(facts[j].duplicate());
            assert(id_views(hits@) =~= before.push(known[j as int]));
        } else {
            assert(named(known.subrange(0, j + 1), wanted@) =~= named(known.subrange(0, j as int), wanted@));
        }
        j = j + 1;
    }
    assert(known.subrange(0, facts.len() as int) =~= known);
    if hits.len() == 1 {
        return Ok(hits[0].duplicate());
    }
    if hits.len() == 0 {
        if legacy {
            let mut m = owned("no legacy fact type named `");
            m.append(wanted);
            m.append("`");
            return Err(m);
        }
        let mut m = owned("no fact type named `");
        m.append(wanted);
        m.append("`. `gooir facts` lists them.");
        return Err(m);
    }
    let mut m = if legacy { owned("legacy fact type `") } else { owned("`") };
    m.append(wanted);
    m.append("` is ambiguous; name one exactly:\n  ");
    let ghost prefix = m@;
    let mut k: usize = 0;
    while k < hits.len()
        invariant
            k <= hits.len(),
            m@ == prefix + candidate_lines(id_views(hits@).subrange(0, k as int)),
        decreases hits.len() - k,
    {
        let ghost lines = id_views(hits@).subrange(0, k + 1);
        assert(lines.drop_last() =~= id_views(hits@).subrange(0, k as int));
        if k > 0 {
            m.append("\n  ");
        }
        let text = hits[k].render();
        m.append(text.as_str());
        proof {
            reveal_strlit("\n  ");
            assert(lines.last() == hits@[k as int]@);
            if k == 0 {
                assert(lines.len() == 1);
            }
        }
        assert(m@ =~= prefix + candidate_lines(lines));
        k = k + 1;
    }
    assert(id_views(hits@).subrange(0, hits.len() as int) =~= id_views(hits@));
    Err(m)
}

} // verus!