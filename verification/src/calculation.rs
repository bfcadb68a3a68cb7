//! The demand solver: a net-flow ledger balanced step by step.
//!
//! The ledger maps each item seen so far to its signed net flow:
//! negative is a deficit still to satisfy, positive a surplus. A solve
//! seeds the ledger with the targets' demands, then repeatedly picks a
//! deficient item, resolves its producer, and applies a step whose
//! throughput exactly cancels that deficit, until every entry is
//! balanced or the iteration budget runs out.

use vstd::prelude::*;
use crate::assoc::{assoc_get, keys_distinct, lemma_assoc_absent, lemma_assoc_found,
    lemma_assoc_push, lemma_assoc_some_index, lemma_assoc_update};
use crate::calc_step::{step_net, CalcStep};
use crate::calc_target::CalcTarget;
use crate::calc_target_rate::CalcTargetRate;
use crate::constants::{very_small, RECURSION_LIMIT};
use crate::data::GameData;
use crate::factory::{resolved_for, Factory};
use crate::rational::{
    lemma_rat_add_congr, lemma_rat_add_sub_shuffle, lemma_rat_add_zero, lemma_rat_eq_sym,
    lemma_rat_eq_trans, lemma_rat_mul_congr, lemma_rat_mul_sub_distrib, lemma_rat_mul_zero,
    rat_add, rat_eq, rat_le, rat_lt, rat_mul, rat_neg, rat_of_int, rat_pos, rat_sub, Rat, Ratio,
};
use crate::usersettings::UserSettings;

verus! {

/// Why a solve stopped without a result. Every error aborts the solve
/// immediately and is surfaced verbatim; nothing is retried.
#[derive(Debug, Clone)]
pub enum CalculationError {
    /// No pump, resource, or eligible recipe produces the item.
    RecipeOrResourceNotFound(String),
    /// A recipe needs an assembler of this category and none qualifies.
    AssemblingMachineNotFound(String),
    /// A resource needs a drill of this category and none qualifies.
    MiningDrillNotFound(String),
    /// The iteration budget ran out before the ledger balanced.
    RecursionLimit,
    /// The ledger reports unbalanced, yet no entry qualifies as deficient.
    NoItemToPick,
    /// An exact amount left the representable 64-bit range.
    ValueOutOfRange,
}

/// The balance tolerance as a value; equal to `constants::very_small`.
pub open spec fn eps() -> Ratio {
    Ratio { n: 1, d: 10_000_000_000 }
}

/// The signed net flow the ledger records for `name`; zero when the
/// item has not been seen.
pub open spec fn ledger_val(s: Seq<(String, Rat)>, name: Seq<char>) -> Ratio {
    match assoc_get(s, name) {
        Some(v) => v@,
        None => rat_of_int(0),
    }
}

/// Distinct keys and well-formed values.
pub open spec fn ledger_wf(s: Seq<(String, Rat)>) -> bool {
    &&& keys_distinct(s)
    &&& forall|i: int| 0 <= i < s.len() ==> (#[trigger] s[i]).1.wf()
}

/// Non-negative, or within the tolerance of zero from below.
pub open spec fn entry_balanced(v: Ratio) -> bool {
    rat_le(rat_of_int(0), v) || rat_lt(rat_neg(v), eps())
}

pub open spec fn ledger_balanced(s: Seq<(String, Rat)>) -> bool {
    forall|i: int| 0 <= i < s.len() ==> entry_balanced((#[trigger] s[i]).1@)
}

/// Strictly below zero by more than the tolerance: still to satisfy.
pub open spec fn deficient(v: Ratio) -> bool {
    rat_lt(v, rat_of_int(0)) && rat_lt(eps(), rat_neg(v))
}

/// The entry for `name` once the step's produced amounts are folded
/// in: the exact stored value after the produced pass.
pub open spec fn after_produced(step: CalcStep, v0: Seq<(String, Rat)>, name: Seq<char>) -> Ratio {
    if step.factory.spec_produces(name) {
        crate::rational::rat_norm(
            rat_add(ledger_val(v0, name), step.repr_scaled_produced(name)),
        )
    } else {
        ledger_val(v0, name)
    }
}

/// Every intermediate of applying `step` to ledger `v0` is
/// representable: the scaled rates themselves, each produced update,
/// and each consumed update against the state after the produced pass.
pub open spec fn step_applicable(step: CalcStep, v0: Seq<(String, Rat)>) -> bool {
    &&& step.produced_fit()
    &&& step.consumed_fit()
    &&& forall|name: Seq<char>|
        #[trigger] step.factory.spec_produces(name) ==> crate::rational::rat_fits(
            crate::rational::rat_norm(
                rat_add(ledger_val(v0, name), step.repr_scaled_produced(name)),
            ),
        )
    &&& forall|name: Seq<char>|
        #[trigger] step.factory.spec_consumes(name) ==> crate::rational::rat_fits(
            crate::rational::rat_norm(
                rat_sub(after_produced(step, v0, name), step.repr_scaled_consumed(name)),
            ),
        )
}

/// `b` is the output rate of the producer that resolution selects for
/// the target's item.
pub open spec fn base_matches(
    data: GameData,
    settings: UserSettings,
    t: CalcTarget,
    b: Ratio,
) -> bool {
    &&& rat_pos(b)
    &&& exists|f: Factory|
        #[trigger] resolved_for(data, settings, t.name@, f) && rat_eq(b, f.spec_item_rate(t.name@))
}

/// One conversion baseline per target, each the resolved producer's
/// output rate of that target's item.
pub open spec fn target_bases_ok(
    data: GameData,
    settings: UserSettings,
    targets: Seq<CalcTarget>,
    bases: Seq<Ratio>,
) -> bool {
    &&& bases.len() == targets.len()
    &&& forall|k: int|
        0 <= k < targets.len() ==> #[trigger] base_matches(data, settings, targets[k], bases[k])
}

/// Some binding resolves for the item.
pub open spec fn resolvable(data: GameData, settings: UserSettings, item: Seq<char>) -> bool {
    exists|f: Factory| #[trigger] resolved_for(data, settings, item, f)
}

/// `item` can come up during a solve over these inputs, within `n`
/// resolution steps: it is a target, it was already in deficit in the
/// starting ledger, or it is consumed by the resolved producer of a
/// reachable item — the chain the balancing loop walks.
pub open spec fn reachable_in(
    data: GameData,
    settings: UserSettings,
    targets: Seq<CalcTarget>,
    init: Seq<(String, Rat)>,
    item: Seq<char>,
    n: nat,
) -> bool
    decreases n,
{
    ||| exists|k: int| 0 <= k < targets.len() && (#[trigger] targets[k]).name@ == item
    ||| rat_lt(ledger_val(init, item), rat_of_int(0))
    ||| (n > 0 && exists|prev: Seq<char>, f: Factory|
        #![auto]
        reachable_in(data, settings, targets, init, prev, (n - 1) as nat) && resolved_for(
            data,
            settings,
            prev,
            f,
        ) && f.spec_consumes(item))
}

/// `item` can come up during a solve over these inputs.
pub open spec fn reachable_item(
    data: GameData,
    settings: UserSettings,
    targets: Seq<CalcTarget>,
    init: Seq<(String, Rat)>,
    item: Seq<char>,
) -> bool {
    exists|n: nat| #[trigger] reachable_in(data, settings, targets, init, item, n)
}

/// A step can only push an item's ledger entry below zero by genuinely
/// consuming it: a fresh deficit traces back to the step's ingredients.
proof fn lemma_deficit_origin(step: CalcStep, name: Seq<char>, oldv: Ratio, newv: Ratio)
    requires
        step.wf(),
        step.amount@.n >= 1,
        rat_pos(oldv),
        rat_pos(newv),
        rat_eq(newv, rat_add(oldv, step_net(step, name))),
        newv.n < 0,
    ensures
        oldv.n < 0 || step.factory.spec_consumes(name),
{
    if oldv.n >= 0 && !step.factory.spec_consumes(name) {
        step.amount.lemma_wf_pos();
        step.factory.lemma_item_rate_sign(name);
        step.factory.lemma_item_rates_pos(name);
        let ir = step.factory.spec_item_rate(name);
        assert(rat_sub(ir, rat_of_int(0)).n == ir.n);
        assert(rat_sub(ir, rat_of_int(0)).d == ir.d);
        crate::rational::lemma_rat_sign_ops(step.amount@, rat_sub(ir, rat_of_int(0)));
        lemma_step_net_pos(step, name);
        crate::rational::lemma_rat_sign_ops(oldv, step_net(step, name));
        crate::rational::lemma_rat_ops_pos(oldv, step_net(step, name));
        crate::rational::lemma_rat_sign_transfer(newv, rat_add(oldv, step_net(step, name)));
    }
}

/// The ledger value seeding leaves for `name`: the initial entry, less
/// each matching target's demand in items per second — repeated targets
/// accumulate.
pub open spec fn seed_of_targets(
    init: Seq<(String, Rat)>,
    targets: Seq<CalcTarget>,
    bases: Seq<Ratio>,
    name: Seq<char>,
) -> Ratio
    decreases targets.len(),
{
    if targets.len() == 0 {
        ledger_val(init, name)
    } else {
        let rest = seed_of_targets(init, targets.drop_last(), bases.drop_last(), name);
        if targets.last().name@ == name {
            rat_sub(rest, targets.last().rate.spec_as_ips(bases.last()))
        } else {
            rest
        }
    }
}

/// The summed net per-second effect of a step list on one item.
pub open spec fn net_of_steps(steps: Seq<CalcStep>, name: Seq<char>) -> Ratio
    decreases steps.len(),
{
    if steps.len() == 0 {
        rat_of_int(0)
    } else {
        rat_add(net_of_steps(steps.drop_last(), name), step_net(steps.last(), name))
    }
}

/// The step is one the balancing rule could emit: its binding is the
/// resolved producer of some item, and its amount is that item's
/// deficit times the time cost, over speed and per-execution yield.
pub open spec fn solver_step_ok(data: GameData, settings: UserSettings, step: CalcStep) -> bool {
    exists|item: Seq<char>, d: Ratio|
        #![auto]
        resolved_for(data, settings, item, step.factory) && rat_pos(d) && rat_lt(eps(), d)
            && rat_eq(
            step.amount@,
            crate::rational::rat_div(
                crate::rational::rat_div(
                    rat_mul(d, step.factory.spec_energy()),
                    step.factory.spec_speed(),
                ),
                step.factory.spec_per_execution(item),
            ),
        )
}

/// A full budget of balancing steps was spent: exactly the limit of
/// solver-rule steps, folded over the seeded demands, yields a
/// well-formed ledger — the state the solve was in when it gave up.
pub open spec fn budget_spent(
    data: GameData,
    settings: UserSettings,
    targets: Seq<CalcTarget>,
    init: Seq<(String, Rat)>,
) -> bool {
    exists|bases: Seq<Ratio>, steps: Seq<CalcStep>, v: Seq<(String, Rat)>|
        #![auto]
        target_bases_ok(data, settings, targets, bases) && steps.len() == RECURSION_LIMIT && (
        forall|k: int|
            0 <= k < steps.len() ==> (#[trigger] steps[k]).wf() && solver_step_ok(
                data,
                settings,
                steps[k],
            )) && ledger_wf(v) && (forall|name: Seq<char>|
            rat_eq(
                #[trigger] ledger_val(v, name),
                rat_add(seed_of_targets(init, targets, bases, name), net_of_steps(steps, name)),
            ))
}

/// The defensive boundary was hit: some sequence of at most the budget
/// of solver-rule steps, folded over the seeded demands, yields a
/// ledger that is unbalanced yet holds no deficient entry — every
/// negative value sits exactly at the tolerance.
pub open spec fn boundary_state_reached(
    data: GameData,
    settings: UserSettings,
    targets: Seq<CalcTarget>,
    init: Seq<(String, Rat)>,
) -> bool {
    exists|bases: Seq<Ratio>, steps: Seq<CalcStep>, v: Seq<(String, Rat)>|
        #![auto]
        target_bases_ok(data, settings, targets, bases) && steps.len() <= RECURSION_LIMIT && (
        forall|k: int|
            0 <= k < steps.len() ==> (#[trigger] steps[k]).wf() && solver_step_ok(
                data,
                settings,
                steps[k],
            )) && ledger_wf(v) && (forall|name: Seq<char>|
            rat_eq(
                #[trigger] ledger_val(v, name),
                rat_add(seed_of_targets(init, targets, bases, name), net_of_steps(steps, name)),
            )) && !ledger_balanced(v) && (forall|i: int|
            0 <= i < v.len() ==> !deficient((#[trigger] v[i]).1@))
}

pub proof fn lemma_step_net_pos(step: CalcStep, name: Seq<char>)
    requires
        step.wf(),
    ensures
        rat_pos(step_net(step, name)),
{
    step.amount.lemma_wf_pos();
    step.factory.lemma_item_rates_pos(name);
    crate::rational::lemma_rat_ops_pos(
        step.factory.spec_item_rate(name),
        step.factory.spec_item_consumed_rate(name),
    );
    crate::rational::lemma_rat_ops_pos(
        step.amount@,
        rat_sub(step.factory.spec_item_rate(name), step.factory.spec_item_consumed_rate(name)),
    );
}

pub proof fn lemma_net_of_steps_pos(steps: Seq<CalcStep>, name: Seq<char>)
    requires
        forall|k: int| 0 <= k < steps.len() ==> (#[trigger] steps[k]).wf(),
    ensures
        rat_pos(net_of_steps(steps, name)),
    decreases steps.len(),
{
    if steps.len() > 0 {
        lemma_net_of_steps_pos(steps.drop_last(), name);
        lemma_step_net_pos(steps.last(), name);
        crate::rational::lemma_rat_ops_pos(
            net_of_steps(steps.drop_last(), name),
            step_net(steps.last(), name),
        );
    }
}

pub proof fn lemma_as_ips_pos(rate: CalcTargetRate, b: Ratio)
    requires
        rate.wf(),
        rat_pos(b),
    ensures
        rat_pos(rate.spec_as_ips(b)),
{
    match rate {
        CalcTargetRate::Factories(fr) => {
            fr.lemma_wf_pos();
            crate::rational::lemma_rat_ops_pos(fr@, b);
        },
        CalcTargetRate::ItemsPerSecond(iv) => {
            iv.lemma_wf_pos();
        },
    }
}

pub proof fn lemma_seed_pos(
    init: Seq<(String, Rat)>,
    targets: Seq<CalcTarget>,
    bases: Seq<Ratio>,
    name: Seq<char>,
)
    requires
        ledger_wf(init),
        bases.len() == targets.len(),
        forall|k: int| 0 <= k < targets.len() ==> (#[trigger] targets[k]).wf(),
        forall|k: int| 0 <= k < targets.len() ==> rat_pos(#[trigger] bases[k]),
    ensures
        rat_pos(seed_of_targets(init, targets, bases, name)),
    decreases targets.len(),
{
    if targets.len() == 0 {
        lemma_ledger_val_pos(init, name);
    } else {
        lemma_seed_pos(init, targets.drop_last(), bases.drop_last(), name);
        lemma_as_ips_pos(targets.last().rate, bases.last());
        crate::rational::lemma_rat_ops_pos(
            seed_of_targets(init, targets.drop_last(), bases.drop_last(), name),
            targets.last().rate.spec_as_ips(bases.last()),
        );
    }
}

/// The executed multiplier chain equals the documented formula.
proof fn lemma_formula_chain(
    f: Factory,
    item: Seq<char>,
    d: Ratio,
    scaled: Ratio,
    per_machine: Ratio,
    amount: Ratio,
)
    requires
        f.wf(),
        rat_pos(d),
        d.n >= 1,
        rat_pos(scaled),
        rat_pos(per_machine),
        rat_pos(amount),
        f.spec_per_execution(item).n >= 1,
        rat_pos(f.spec_per_execution(item)),
        rat_eq(scaled, rat_mul(d, f.spec_energy())),
        rat_eq(per_machine, crate::rational::rat_div(scaled, f.spec_speed())),
        rat_eq(amount, crate::rational::rat_div(per_machine, f.spec_per_execution(item))),
    ensures
        rat_eq(
            amount,
            crate::rational::rat_div(
                crate::rational::rat_div(rat_mul(d, f.spec_energy()), f.spec_speed()),
                f.spec_per_execution(item),
            ),
        ),
        amount.n >= 1,
{
    let e = f.spec_energy();
    let s = f.spec_speed();
    let per = f.spec_per_execution(item);
    match f {
        Factory::AssemblingMachine(am, re) => {
            am.crafting_speed.lemma_wf_pos();
            re.data.energy_required.lemma_wf_pos();
        },
        Factory::MiningDrill(md, res) => {
            md.mining_speed.lemma_wf_pos();
            res.mining_time.lemma_wf_pos();
        },
        Factory::OffshorePump(op) => {
            op.pumping_speed.lemma_wf_pos();
        },
    }
    assert(s.n >= 1);
    let mid1 = crate::rational::rat_div(scaled, s);
    assert(rat_pos(mid1)) by (nonlinear_arith)
        requires
            scaled.d >= 1,
            s.n >= 1,
            mid1.d == scaled.d * s.n,
    ;
    crate::rational::lemma_rat_div_congr_l(scaled, rat_mul(d, e), s);
    lemma_rat_eq_trans(per_machine, mid1, crate::rational::rat_div(rat_mul(d, e), s));
    let mid2 = crate::rational::rat_div(per_machine, per);
    assert(rat_pos(mid2)) by (nonlinear_arith)
        requires
            per_machine.d >= 1,
            per.n >= 1,
            mid2.d == per_machine.d * per.n,
    ;
    crate::rational::lemma_rat_div_congr_l(
        per_machine,
        crate::rational::rat_div(rat_mul(d, e), s),
        per,
    );
    lemma_rat_eq_trans(
        amount,
        mid2,
        crate::rational::rat_div(
            crate::rational::rat_div(rat_mul(d, e), s),
            per,
        ),
    );
    // The multiplier denotes a positive value: every factor does.
    crate::rational::lemma_rat_sign_ops(d, e);
    assert(rat_pos(rat_mul(d, e))) by (nonlinear_arith)
        requires
            d.d >= 1,
            e.d >= 1,
    ;
    crate::rational::lemma_rat_sign_transfer(scaled, rat_mul(d, e));
    crate::rational::lemma_rat_sign_ops(scaled, s);
    crate::rational::lemma_rat_sign_transfer(per_machine, mid1);
    crate::rational::lemma_rat_sign_ops(per_machine, per);
    crate::rational::lemma_rat_sign_transfer(amount, mid2);
}

/// The ledger's recorded values have positive denominators and fit.
pub proof fn lemma_ledger_val_pos(s: Seq<(String, Rat)>, name: Seq<char>)
    requires
        ledger_wf(s),
    ensures
        rat_pos(ledger_val(s, name)),
        crate::rational::rat_fits(ledger_val(s, name)),
{
    if assoc_get(s, name) is Some {
        let i = lemma_assoc_some_index(s, name);
        s[i].1.lemma_wf_pos();
    }
}

/// Adds `delta` to the entry for `name`, creating it at zero first if
/// absent; every other entry is untouched. `false` exactly when the
/// reduced sum is not representable, in which case nothing has changed.
fn ledger_add(v: &mut Vec<(String, Rat)>, name: &String, delta: &Rat) -> (ok: bool)
    requires
        ledger_wf(old(v)@),
        delta.wf(),
    ensures
        ok ==> ledger_wf(final(v)@) && ledger_val(final(v)@, name@) == crate::rational::rat_norm(
            rat_add(ledger_val(old(v)@, name@), delta@),
        ) && rat_eq(
            ledger_val(final(v)@, name@),
            rat_add(ledger_val(old(v)@, name@), delta@),
        ) && (forall|k: Seq<char>|
            k != name@ ==> ledger_val(final(v)@, k) == ledger_val(old(v)@, k)),
        !ok ==> !crate::rational::rat_fits(
            crate::rational::rat_norm(rat_add(ledger_val(old(v)@, name@), delta@)),
        ) && final(v)@ == old(v)@,
{
    let n = v.len();
    let mut i: usize = 0;
    while i < n
        invariant
            n == v@.len(),
            0 <= i <= n,
            v@ == old(v)@,
            ledger_wf(v@),
            delta.wf(),
            forall|j: int| 0 <= j < i ==> (#[trigger] v@[j]).0@ != name@,
        decreases n - i,
    {
        if v[i].0 == *name {
            proof {
                lemma_assoc_found(v@, name@, i as int);
            }
            let cur = v[i].1;
            match cur.add(delta) {
                Some(nv) => {
                    proof {
                        lemma_assoc_update(v@, i as int, nv);
                    }
                    v[i].1 = nv;
                    return true;
                },
                None => {
                    return false;
                },
            }
        }
        i += 1;
    }
    proof {
        lemma_assoc_absent(v@, name@);
    }
    let zero = Rat::zero();
    let stored = match zero.add(delta) {
        Some(s) => s,
        None => {
            proof {
                delta.lemma_wf_pos();
                assert(rat_add(rat_of_int(0), delta@) == delta@);
                crate::rational::lemma_norm_props(delta@);
            }
            return false;
        },
    };
    proof {
        lemma_assoc_push(v@, *name, stored);
        assert(rat_add(rat_of_int(0), delta@) == delta@);
    }
    v.push((name.clone(), stored));
    true
}

/// Subtracts `delta` from the entry for `name`, creating it at zero
/// first if absent; every other entry is untouched. `false` exactly
/// when the reduced difference is not representable, in which case
/// nothing has changed.
fn ledger_sub(v: &mut Vec<(String, Rat)>, name: &String, delta: &Rat) -> (ok: bool)
    requires
        ledger_wf(old(v)@),
        delta.wf(),
    ensures
        ok ==> ledger_wf(final(v)@) && ledger_val(final(v)@, name@) == crate::rational::rat_norm(
            rat_sub(ledger_val(old(v)@, name@), delta@),
        ) && rat_eq(
            ledger_val(final(v)@, name@),
            rat_sub(ledger_val(old(v)@, name@), delta@),
        ) && (forall|k: Seq<char>|
            k != name@ ==> ledger_val(final(v)@, k) == ledger_val(old(v)@, k)),
        !ok ==> !crate::rational::rat_fits(
            crate::rational::rat_norm(rat_sub(ledger_val(old(v)@, name@), delta@)),
        ) && final(v)@ == old(v)@,
{
    let n = v.len();
    let mut i: usize = 0;
    while i < n
        invariant
            n == v@.len(),
            0 <= i <= n,
            v@ == old(v)@,
            ledger_wf(v@),
            delta.wf(),
            forall|j: int| 0 <= j < i ==> (#[trigger] v@[j]).0@ != name@,
        decreases n - i,
    {
        if v[i].0 == *name {
            proof {
                lemma_assoc_found(v@, name@, i as int);
            }
            let cur = v[i].1;
            match cur.sub(delta) {
                Some(nv) => {
                    proof {
                        lemma_assoc_update(v@, i as int, nv);
                    }
                    v[i].1 = nv;
                    return true;
                },
                None => {
                    return false;
                },
            }
        }
        i += 1;
    }
    proof {
        lemma_assoc_absent(v@, name@);
    }
    let zero = Rat::zero();
    let stored = match zero.sub(delta) {
        Some(s) => s,
        None => {
            proof {
                delta.lemma_wf_pos();
                assert(rat_sub(rat_of_int(0), delta@) == rat_neg(delta@));
                crate::rational::lemma_norm_props(rat_neg(delta@));
            }
            return false;
        },
    };
    proof {
        lemma_assoc_push(v@, *name, stored);
        assert(rat_sub(rat_of_int(0), delta@) == rat_neg(delta@));
    }
    v.push((name.clone(), stored));
    true
}

/// A copy of a ledger, equal entry by entry.
fn duplicate_ledger(v: &Vec<(String, Rat)>) -> (c: Vec<(String, Rat)>)
    ensures
        c@ == v@,
{
    let mut c: Vec<(String, Rat)> = Vec::new();
    let n = v.len();
    let mut i: usize = 0;
    while i < n
        invariant
            n == v@.len(),
            0 <= i <= n,
            c@ =~= v@.take(i as int),
        decreases n - i,
    {
        c.push((v[i].0.clone(), v[i].1));
        i += 1;
    }
    proof {
        assert(c@ =~= v@);
    }
    c
}

/// A solve in progress: the net-flow ledger and the steps applied so
/// far, in application order.
#[derive(Debug)]
pub struct Calculation {
    pub vector: Vec<(String, Rat)>,
    pub steps: Vec<CalcStep>,
}

impl Default for Calculation {
    /// An empty ledger and no steps.
    fn default() -> (r: Calculation)
        ensures
            r.wf(),
            r.vector@ =~= Seq::<(String, Rat)>::empty(),
            r.steps@ =~= Seq::<CalcStep>::empty(),
    {
        Calculation { vector: Vec::new(), steps: Vec::new() }
    }
}

impl Calculation {
    pub open spec fn wf(self) -> bool {
        &&& ledger_wf(self.vector@)
        &&& forall|i: int| 0 <= i < self.steps@.len() ==> (#[trigger] self.steps@[i]).wf()
    }

    /// Every ledger entry is balanced: at or above zero, or within the
    /// tolerance below it.
    fn is_solved(&self) -> (r: bool)
        requires
            self.wf(),
        ensures
            r == ledger_balanced(self.vector@),
    {
        let n = self.vector.len();
        let zero = Rat::zero();
        let tolerance = very_small();
        let mut i: usize = 0;
        while i < n
            invariant
                n == self.vector@.len(),
                0 <= i <= n,
                self.wf(),
                zero.wf(),
                zero@ == rat_of_int(0),
                tolerance.wf(),
                tolerance@ == eps(),
                forall|j: int| 0 <= j < i ==> entry_balanced((#[trigger] self.vector@[j]).1@),
            decreases n - i,
        {
            let val = self.vector[i].1;
            if !(zero.le(&val) || val.neg().lt(&tolerance)) {
                return false;
            }
            i += 1;
        }
        true
    }

    /// The first item still in deficit, with the deficit as a positive
    /// number; `None` when no entry is deficient.
    fn pick_item(&self) -> (r: Option<(String, Rat)>)
        requires
            self.wf(),
        ensures
            match r {
                Some(p) => p.1.wf() && exists|i: int|
                    #![auto]
                    0 <= i < self.vector@.len() && self.vector@[i].0@ == p.0@ && deficient(
                        self.vector@[i].1@,
                    ) && p.1@ == rat_neg(self.vector@[i].1@) && (forall|j: int|
                        0 <= j < i ==> !deficient((#[trigger] self.vector@[j]).1@)),
                None => forall|i: int|
                    0 <= i < self.vector@.len() ==> !deficient((#[trigger] self.vector@[i]).1@),
            },
    {
        let n = self.vector.len();
        let zero = Rat::zero();
        let tolerance = very_small();
        let mut i: usize = 0;
        while i < n
            invariant
                n == self.vector@.len(),
                0 <= i <= n,
                self.wf(),
                zero.wf(),
                zero@ == rat_of_int(0),
                tolerance.wf(),
                tolerance@ == eps(),
                forall|j: int| 0 <= j < i ==> !deficient((#[trigger] self.vector@[j]).1@),
            decreases n - i,
        {
            let val = self.vector[i].1;
            if val.lt(&zero) && tolerance.lt(&val.neg()) {
                return Some((self.vector[i].0.clone(), val.neg()));
            }
            i += 1;
        }
        None
    }

    /// Folds one step's scaled flows into the ledger and records the
    /// step: each produced amount is added, each consumed amount
    /// subtracted, so the ledger change for every item is exactly the
    /// step's net rate. On overflow nothing changes and no step is
    /// recorded.
    pub fn apply_step(&mut self, step: CalcStep) -> (ok: bool)
        requires
            old(self).wf(),
            step.wf(),
        ensures
            ok ==> final(self).wf() && final(self).steps@ == old(self).steps@.push(step) && (forall|
                name: Seq<char>,
            |
                rat_eq(
                    #[trigger] ledger_val(final(self).vector@, name),
                    rat_add(ledger_val(old(self).vector@, name), step_net(step, name)),
                )),
            !ok ==> *final(self) == *old(self),
            step_applicable(step, old(self).vector@) ==> ok,
    {
        let produced = match step.produced_per_sec() {
            Some(p) => p,
            None => {
                return false;
            },
        };
        let consumed = match step.consumed_per_sec() {
            Some(c) => c,
            None => {
                return false;
            },
        };
        let ghost v0 = self.vector@;
        let mut work = duplicate_ledger(&self.vector);
        let np = produced.len();
        let mut i: usize = 0;
        while i < np
            invariant
                np == produced@.len(),
                0 <= i <= np,
                v0 == old(self).vector@,
                step.wf(),
                ledger_wf(work@),
                keys_distinct(produced@),
                forall|k: int|
                    0 <= k < produced@.len() ==> ((#[trigger] produced@[k]).1.wf() && rat_pos(
                        produced@[k].1@,
                    ) && rat_eq(
                        produced@[k].1@,
                        rat_mul(step.amount@, step.factory.spec_item_rate(produced@[k].0@)),
                    ) && step.factory.spec_produces(produced@[k].0@) && produced@[k].1@
                        == step.repr_scaled_produced(produced@[k].0@)),
                ledger_wf(v0),
                forall|j: int|
                    0 <= j < i ==> rat_eq(
                        ledger_val(work@, (#[trigger] produced@[j]).0@),
                        rat_add(ledger_val(v0, produced@[j].0@), produced@[j].1@),
                    ),
                forall|j: int|
                    0 <= j < i ==> ledger_val(work@, (#[trigger] produced@[j]).0@)
                        == crate::rational::rat_norm(
                        rat_add(ledger_val(v0, produced@[j].0@), produced@[j].1@),
                    ),
                forall|name: Seq<char>|
                    (forall|j: int| 0 <= j < i ==> (#[trigger] produced@[j]).0@ != name)
                        ==> #[trigger] ledger_val(work@, name) == ledger_val(v0, name),
            decreases np - i,
        {
            let ghost before = work@;
            proof {
                assert(ledger_val(before, produced@[i as int].0@) == ledger_val(
                    v0,
                    produced@[i as int].0@,
                ));
            }
            if !ledger_add(&mut work, &produced[i].0, &produced[i].1) {
                proof {
                    assert(!step_applicable(step, v0)) by {
                        assert(step.factory.spec_produces(produced@[i as int].0@));
                    }
                }
                return false;
            }
            proof {
                assert forall|j: int| 0 <= j < i + 1 implies rat_eq(
                    ledger_val(work@, (#[trigger] produced@[j]).0@),
                    rat_add(ledger_val(v0, produced@[j].0@), produced@[j].1@),
                ) && ledger_val(work@, (#[trigger] produced@[j]).0@)
                    == crate::rational::rat_norm(
                    rat_add(ledger_val(v0, produced@[j].0@), produced@[j].1@),
                ) by {
                    if j < i {
                        assert(produced@[j].0@ != produced@[i as int].0@);
                    }
                }
            }
            i += 1;
        }
        let ghost v1 = work@;
        proof {
            assert forall|name: Seq<char>|
                #[trigger] ledger_val(v1, name) == after_produced(step, v0, name) by {
                if crate::factory::lists_item(produced@, name) {
                    let k = choose|k: int|
                        0 <= k < produced@.len() && (#[trigger] produced@[k]).0@ == name;
                    assert(ledger_val(v1, produced@[k].0@) == crate::rational::rat_norm(
                        rat_add(ledger_val(v0, produced@[k].0@), produced@[k].1@),
                    ));
                } else {
                    assert(ledger_val(v1, name) == ledger_val(v0, name));
                    assert(!step.factory.spec_produces(name));
                }
            }
        }
        let nc = consumed.len();
        let mut i2: usize = 0;
        while i2 < nc
            invariant
                nc == consumed@.len(),
                0 <= i2 <= nc,
                v0 == old(self).vector@,
                step.wf(),
                ledger_wf(work@),
                ledger_wf(v0),
                keys_distinct(consumed@),
                forall|k: int|
                    0 <= k < consumed@.len() ==> ((#[trigger] consumed@[k]).1.wf() && rat_pos(
                        consumed@[k].1@,
                    ) && rat_eq(
                        consumed@[k].1@,
                        rat_mul(step.amount@, step.factory.spec_item_consumed_rate(consumed@[k].0@)),
                    ) && step.factory.spec_consumes(consumed@[k].0@) && consumed@[k].1@
                        == step.repr_scaled_consumed(consumed@[k].0@)),
                ledger_wf(v1),
                forall|name: Seq<char>|
                    #[trigger] ledger_val(v1, name) == after_produced(step, v0, name),
                forall|j: int|
                    0 <= j < i2 ==> rat_eq(
                        ledger_val(work@, (#[trigger] consumed@[j]).0@),
                        rat_sub(ledger_val(v1, consumed@[j].0@), consumed@[j].1@),
                    ),
                forall|name: Seq<char>|
                    (forall|j: int| 0 <= j < i2 ==> (#[trigger] consumed@[j]).0@ != name)
                        ==> #[trigger] ledger_val(work@, name) == ledger_val(v1, name),
            decreases nc - i2,
        {
            let ghost before = work@;
            proof {
                assert(ledger_val(before, consumed@[i2 as int].0@) == ledger_val(
                    v1,
                    consumed@[i2 as int].0@,
                ));
            }
            if !ledger_sub(&mut work, &consumed[i2].0, &consumed[i2].1) {
                proof {
                    assert(!step_applicable(step, v0)) by {
                        assert(step.factory.spec_consumes(consumed@[i2 as int].0@));
                        assert(ledger_val(v1, consumed@[i2 as int].0@) == after_produced(
                            step,
                            v0,
                            consumed@[i2 as int].0@,
                        ));
                    }
                }
                return false;
            }
            proof {
                assert forall|j: int| 0 <= j < i2 + 1 implies rat_eq(
                    ledger_val(work@, (#[trigger] consumed@[j]).0@),
                    rat_sub(ledger_val(v1, consumed@[j].0@), consumed@[j].1@),
                ) by {
                    if j < i2 {
                        assert(consumed@[j].0@ != consumed@[i2 as int].0@);
                    } else {
                        assert(ledger_val(before, consumed@[i2 as int].0@) == ledger_val(
                            v1,
                            consumed@[i2 as int].0@,
                        ));
                    }
                }
            }
            i2 += 1;
        }
        proof {
            step.amount.lemma_wf_pos();
            step.factory.lemma_step_totals(produced@, consumed@, v0, v1, work@, step.amount@);
        }
        self.vector = work;
        self.steps.push(step);
        true
    }

    /// Seeds the ledger by subtracting each target's demand in items
    /// per second — repeated targets accumulate — then balances it one
    /// producer step at a time: pick the first deficient item, resolve
    /// its producer, and apply a step sized to cancel the deficit
    /// exactly. Stops with `RecursionLimit` when the budget runs out.
    pub fn solve(self, input: &[CalcTarget], data: &GameData, settings: &UserSettings) -> (r:
        Result<Calculation, CalculationError>)
        requires
            self.wf(),
            data.wf(),
            settings.wf(),
            forall|k: int| 0 <= k < input@.len() ==> (#[trigger] input@[k]).wf(),
        ensures
            match r {
                Ok(c) => {
                    &&& c.wf()
                    &&& ledger_balanced(c.vector@)
                    &&& c.steps@.len() >= self.steps@.len()
                    &&& c.steps@.len() <= self.steps@.len() + RECURSION_LIMIT
                    &&& c.steps@.take(self.steps@.len() as int) == self.steps@
                    &&& forall|k: int|
                        self.steps@.len() <= k < c.steps@.len() ==> (#[trigger] c.steps@[k]).wf()
                            && solver_step_ok(*data, *settings, c.steps@[k])
                    &&& forall|k: int|
                        0 <= k < input@.len() ==> resolvable(
                            *data,
                            *settings,
                            (#[trigger] input@[k]).name@,
                        )
                    &&& exists|bases: Seq<Ratio>|
                        #[trigger] target_bases_ok(*data, *settings, input@, bases) && (forall|
                            name: Seq<char>,
                        |
                            rat_eq(
                                #[trigger] ledger_val(c.vector@, name),
                                rat_add(
                                    seed_of_targets(self.vector@, input@, bases, name),
                                    net_of_steps(
                                        c.steps@.skip(self.steps@.len() as int),
                                        name,
                                    ),
                                ),
                            ))
                },
                Err(e) => match e {
                    CalculationError::RecipeOrResourceNotFound(_) => exists|item: Seq<char>|
                        #[trigger] reachable_item(*data, *settings, input@, self.vector@, item)
                            && crate::factory::resolution_fails(*data, *settings, item, e),
                    CalculationError::MiningDrillNotFound(_) => exists|item: Seq<char>|
                        #[trigger] reachable_item(*data, *settings, input@, self.vector@, item)
                            && crate::factory::resolution_fails(*data, *settings, item, e),
                    CalculationError::AssemblingMachineNotFound(_) => exists|item: Seq<char>|
                        #[trigger] reachable_item(*data, *settings, input@, self.vector@, item)
                            && crate::factory::resolution_fails(*data, *settings, item, e),
                    CalculationError::RecursionLimit => (forall|k: int|
                        0 <= k < input@.len() ==> resolvable(
                            *data,
                            *settings,
                            (#[trigger] input@[k]).name@,
                        )) && budget_spent(*data, *settings, input@, self.vector@),
                    CalculationError::NoItemToPick => (forall|k: int|
                        0 <= k < input@.len() ==> resolvable(
                            *data,
                            *settings,
                            (#[trigger] input@[k]).name@,
                        )) && boundary_state_reached(*data, *settings, input@, self.vector@),
                    CalculationError::ValueOutOfRange => input@.len() > 0 ==> resolvable(
                        *data,
                        *settings,
                        input@[0].name@,
                    ),
                },
            },
    {
        let mut this = self;
        let ghost init0 = this.vector@;
        let ghost len0 = this.steps@.len();
        let ghost mut bases: Seq<Ratio> = Seq::empty();
        proof {
            assert forall|name: Seq<char>|
                rat_lt(#[trigger] ledger_val(this.vector@, name), rat_of_int(0))
                    implies reachable_item(*data, *settings, input@, init0, name) by {
                assert(reachable_in(*data, *settings, input@, init0, name, 0));
            }
        }
        let nt = input.len();
        let mut t: usize = 0;
        while t < nt
            invariant
                nt == input@.len(),
                0 <= t <= nt,
                this.wf(),
                data.wf(),
                settings.wf(),
                forall|k: int| 0 <= k < input@.len() ==> (#[trigger] input@[k]).wf(),
                init0 == self.vector@,
                ledger_wf(init0),
                this.steps@ == self.steps@,
                bases.len() == t,
                forall|k: int|
                    0 <= k < t ==> #[trigger] base_matches(*data, *settings, input@[k], bases[k]),
                forall|k: int| 0 <= k < t ==> rat_pos(#[trigger] bases[k]),
                forall|k: int|
                    0 <= k < t ==> resolvable(*data, *settings, (#[trigger] input@[k]).name@),
                forall|name: Seq<char>|
                    rat_eq(
                        #[trigger] ledger_val(this.vector@, name),
                        seed_of_targets(init0, input@.take(t as int), bases, name),
                    ),
                forall|name: Seq<char>|
                    rat_lt(#[trigger] ledger_val(this.vector@, name), rat_of_int(0))
                        ==> reachable_item(*data, *settings, input@, init0, name),
            decreases nt - t,
        {
            proof {
                assert(input@.take(t as int).len() == t);
            }
            let target = &input[t];
            let factory = match Factory::for_item(&target.name, data, settings) {
                Ok(f) => f,
                Err(e) => {
                    proof {
                        assert(reachable_in(
                            *data,
                            *settings,
                            input@,
                            init0,
                            input@[t as int].name@,
                            0,
                        ));
                        assert(reachable_item(
                            *data,
                            *settings,
                            input@,
                            init0,
                            input@[t as int].name@,
                        ));
                    }
                    return Err(e);
                },
            };
            let base = match factory.item_produced_per_sec(&target.name) {
                Some(b) => b,
                None => {
                    proof {
                        if t == 0 {
                            assert(resolvable(*data, *settings, input@[0].name@));
                        }
                    }
                    return Err(CalculationError::ValueOutOfRange);
                },
            };
            let ips = match target.rate.as_ips(&base) {
                Some(v) => v,
                None => {
                    proof {
                        if t == 0 {
                            assert(resolvable(*data, *settings, input@[0].name@));
                        }
                    }
                    return Err(CalculationError::ValueOutOfRange);
                },
            };
            let ghost pre = this.vector@;
            if !ledger_sub(&mut this.vector, &target.name, &ips) {
                proof {
                    if t == 0 {
                        assert(resolvable(*data, *settings, input@[0].name@));
                    }
                }
                return Err(CalculationError::ValueOutOfRange);
            }
            proof {
                let ghost prevb = bases;
                bases = bases.push(base@);
                base.lemma_wf_pos();
                assert(base_matches(*data, *settings, input@[t as int], bases[t as int]));
                let tgs = input@.take(t + 1 as int);
                assert(tgs.drop_last() =~= input@.take(t as int));
                assert(bases.drop_last() =~= prevb);
                assert(tgs.last() == input@[t as int]);
                assert(bases.last() == base@);
                assert forall|name: Seq<char>|
                    rat_eq(
                        #[trigger] ledger_val(this.vector@, name),
                        seed_of_targets(init0, tgs, bases, name),
                    ) by {
                    let seed_prev = seed_of_targets(init0, input@.take(t as int), prevb, name);
                    lemma_seed_pos(init0, input@.take(t as int), prevb, name);
                    lemma_ledger_val_pos(pre, name);
                    if input@[t as int].name@ == name {
                        lemma_as_ips_pos(input@[t as int].rate, base@);
                        ips.lemma_wf_pos();
                        crate::rational::lemma_rat_sub_congr(
                            ledger_val(pre, name),
                            seed_prev,
                            ips@,
                            input@[t as int].rate.spec_as_ips(base@),
                        );
                        crate::rational::lemma_rat_ops_pos(ledger_val(pre, name), ips@);
                        lemma_rat_eq_trans(
                            ledger_val(this.vector@, name),
                            rat_sub(ledger_val(pre, name), ips@),
                            rat_sub(seed_prev, input@[t as int].rate.spec_as_ips(base@)),
                        );
                    } else {
                        assert(ledger_val(this.vector@, name) == ledger_val(pre, name));
                    }
                }
                assert forall|name: Seq<char>|
                    rat_lt(#[trigger] ledger_val(this.vector@, name), rat_of_int(0))
                        implies reachable_item(*data, *settings, input@, init0, name) by {
                    if name == input@[t as int].name@ {
                        assert(reachable_in(*data, *settings, input@, init0, name, 0));
                    } else {
                        assert(ledger_val(this.vector@, name) == ledger_val(pre, name));
                    }
                }
            }
            t += 1;
        }
        proof {
            assert(input@.take(nt as int) =~= input@);
            assert(target_bases_ok(*data, *settings, input@, bases));
            assert(this.steps@.skip(len0 as int) =~= Seq::<CalcStep>::empty());
            assert forall|name: Seq<char>|
                rat_eq(
                    #[trigger] ledger_val(this.vector@, name),
                    rat_add(
                        seed_of_targets(init0, input@, bases, name),
                        net_of_steps(this.steps@.skip(len0 as int), name),
                    ),
                ) by {
                let seedv = seed_of_targets(init0, input@, bases, name);
                lemma_seed_pos(init0, input@, bases, name);
                lemma_ledger_val_pos(this.vector@, name);
                crate::rational::lemma_rat_add_zero(seedv, rat_of_int(0));
                lemma_rat_eq_sym(rat_add(seedv, rat_of_int(0)), seedv);
                lemma_rat_eq_trans(
                    ledger_val(this.vector@, name),
                    seedv,
                    rat_add(seedv, rat_of_int(0)),
                );
            }
        }
        let mut recursion_limit: usize = RECURSION_LIMIT;
        loop
            invariant
                this.wf(),
                data.wf(),
                settings.wf(),
                forall|k: int| 0 <= k < input@.len() ==> (#[trigger] input@[k]).wf(),
                recursion_limit <= RECURSION_LIMIT,
                init0 == self.vector@,
                len0 == self.steps@.len(),
                ledger_wf(init0),
                bases.len() == input@.len(),
                forall|k: int|
                    0 <= k < input@.len() ==> #[trigger] base_matches(
                        *data,
                        *settings,
                        input@[k],
                        bases[k],
                    ),
                forall|k: int| 0 <= k < input@.len() ==> rat_pos(#[trigger] bases[k]),
                forall|k: int|
                    0 <= k < input@.len() ==> resolvable(
                        *data,
                        *settings,
                        (#[trigger] input@[k]).name@,
                    ),
                this.steps@.len() >= len0,
                this.steps@.len() + recursion_limit == len0 + RECURSION_LIMIT,
                this.steps@.take(len0 as int) == self.steps@,
                forall|k: int|
                    len0 <= k < this.steps@.len() ==> (#[trigger] this.steps@[k]).wf()
                        && solver_step_ok(*data, *settings, this.steps@[k]),
                forall|name: Seq<char>|
                    rat_eq(
                        #[trigger] ledger_val(this.vector@, name),
                        rat_add(
                            seed_of_targets(init0, input@, bases, name),
                            net_of_steps(this.steps@.skip(len0 as int), name),
                        ),
                    ),
                forall|name: Seq<char>|
                    rat_lt(#[trigger] ledger_val(this.vector@, name), rat_of_int(0))
                        ==> reachable_item(*data, *settings, input@, init0, name),
            ensures
                this.wf(),
                ledger_balanced(this.vector@) || recursion_limit == 0,
                this.steps@.len() >= len0,
                this.steps@.len() + recursion_limit == len0 + RECURSION_LIMIT,
                this.steps@.take(len0 as int) == self.steps@,
                forall|k: int|
                    len0 <= k < this.steps@.len() ==> (#[trigger] this.steps@[k]).wf()
                        && solver_step_ok(*data, *settings, this.steps@[k]),
                forall|name: Seq<char>|
                    rat_eq(
                        #[trigger] ledger_val(this.vector@, name),
                        rat_add(
                            seed_of_targets(init0, input@, bases, name),
                            net_of_steps(this.steps@.skip(len0 as int), name),
                        ),
                    ),
            decreases recursion_limit,
        {
            if this.is_solved() {
                break;
            }
            if recursion_limit == 0 {
                break;
            }
            recursion_limit -= 1;
            let picked = match this.pick_item() {
                Some(p) => p,
                None => {
                    proof {
                        let app = this.steps@.skip(len0 as int);
                        assert forall|k: int|
                            0 <= k < app.len() implies (#[trigger] app[k]).wf() && solver_step_ok(
                            *data,
                            *settings,
                            app[k],
                        ) by {
                            assert(app[k] == this.steps@[len0 + k]);
                        }
                        assert(boundary_state_reached(*data, *settings, input@, self.vector@)) by {
                            assert(target_bases_ok(*data, *settings, input@, bases) && app.len()
                                <= RECURSION_LIMIT && (forall|k: int|
                                0 <= k < app.len() ==> (#[trigger] app[k]).wf() && solver_step_ok(
                                    *data,
                                    *settings,
                                    app[k],
                                )) && ledger_wf(this.vector@) && (forall|name: Seq<char>|
                                rat_eq(
                                    #[trigger] ledger_val(this.vector@, name),
                                    rat_add(
                                        seed_of_targets(self.vector@, input@, bases, name),
                                        net_of_steps(app, name),
                                    ),
                                )) && !ledger_balanced(this.vector@) && (forall|i: int|
                                0 <= i < this.vector@.len() ==> !deficient(
                                    (#[trigger] this.vector@[i]).1@,
                                )));
                        }
                    }
                    return Err(CalculationError::NoItemToPick);
                },
            };
            proof {
                // The picked entry is a recorded deficit, so the item
                // is reachable from the inputs.
                let i = choose|i: int|
                    #![auto]
                    0 <= i < this.vector@.len() && this.vector@[i].0@ == picked.0@ && deficient(
                        this.vector@[i].1@,
                    ) && picked.1@ == rat_neg(this.vector@[i].1@) && (forall|j: int|
                        0 <= j < i ==> !deficient((#[trigger] this.vector@[j]).1@));
                lemma_assoc_found(this.vector@, picked.0@, i);
                assert(rat_lt(ledger_val(this.vector@, picked.0@), rat_of_int(0)));
                assert(reachable_item(*data, *settings, input@, init0, picked.0@));
            }
            let factory = match Factory::for_item(&picked.0, data, settings) {
                Ok(f) => f,
                Err(e) => {
                    return Err(e);
                },
            };
            let energy = factory.energy_required();
            let speed = factory.crafting_speed();
            let per = factory.item_produced_per_recipe(&picked.0);
            let scaled = match picked.1.mul(&energy) {
                Some(v) => v,
                None => {
                    return Err(CalculationError::ValueOutOfRange);
                },
            };
            let per_machine = match scaled.div(&speed) {
                Some(v) => v,
                None => {
                    return Err(CalculationError::ValueOutOfRange);
                },
            };
            let amount = match per_machine.div(&per) {
                Some(v) => v,
                None => {
                    return Err(CalculationError::ValueOutOfRange);
                },
            };
            let step = CalcStep { factory, amount };
            proof {
                crate::factory::lemma_resolved_produces(
                    *data,
                    *settings,
                    picked.0@,
                    step.factory,
                );
                picked.1.lemma_wf_pos();
                scaled.lemma_wf_pos();
                per_machine.lemma_wf_pos();
                amount.lemma_wf_pos();
                lemma_formula_chain(
                    step.factory,
                    picked.0@,
                    picked.1@,
                    scaled@,
                    per_machine@,
                    amount@,
                );
                assert(solver_step_ok(*data, *settings, step)) by {
                    assert(resolved_for(*data, *settings, picked.0@, step.factory) && rat_pos(
                        picked.1@,
                    ) && rat_lt(eps(), picked.1@) && rat_eq(
                        step.amount@,
                        crate::rational::rat_div(
                            crate::rational::rat_div(
                                rat_mul(picked.1@, step.factory.spec_energy()),
                                step.factory.spec_speed(),
                            ),
                            step.factory.spec_per_execution(picked.0@),
                        ),
                    ));
                }
            }
            let ghost pre_vec = this.vector@;
            let ghost pre_steps = this.steps@;
            if !this.apply_step(step) {
                return Err(CalculationError::ValueOutOfRange);
            }
            proof {
                assert(this.steps@ =~= pre_steps.push(step));
                assert(this.steps@.take(len0 as int) =~= pre_steps.take(len0 as int));
                let app_pre = pre_steps.skip(len0 as int);
                let app_new = this.steps@.skip(len0 as int);
                assert(app_new =~= app_pre.push(step));
                assert(app_new.drop_last() =~= app_pre);
                assert(app_new.last() == step);
                assert forall|name: Seq<char>|
                    rat_eq(
                        #[trigger] ledger_val(this.vector@, name),
                        rat_add(
                            seed_of_targets(init0, input@, bases, name),
                            net_of_steps(app_new, name),
                        ),
                    ) by {
                    let seedv = seed_of_targets(init0, input@, bases, name);
                    let netp = net_of_steps(app_pre, name);
                    lemma_seed_pos(init0, input@, bases, name);
                    assert(forall|k: int|
                        0 <= k < app_pre.len() ==> (#[trigger] app_pre[k]).wf());
                    lemma_net_of_steps_pos(app_pre, name);
                    lemma_step_net_pos(step, name);
                    lemma_ledger_val_pos(pre_vec, name);
                    crate::rational::lemma_rat_ops_pos(seedv, netp);
                    crate::rational::lemma_rat_ops_pos(rat_add(seedv, netp), step_net(step, name));
                    crate::rational::lemma_rat_ops_pos(
                        ledger_val(pre_vec, name),
                        step_net(step, name),
                    );
                    crate::rational::lemma_rat_ops_pos(netp, step_net(step, name));
                    crate::rational::lemma_rat_ops_pos(seedv, rat_add(netp, step_net(step, name)));
                    lemma_rat_add_congr(
                        ledger_val(pre_vec, name),
                        rat_add(seedv, netp),
                        step_net(step, name),
                        step_net(step, name),
                    );
                    lemma_rat_eq_trans(
                        ledger_val(this.vector@, name),
                        rat_add(ledger_val(pre_vec, name), step_net(step, name)),
                        rat_add(rat_add(seedv, netp), step_net(step, name)),
                    );
                    crate::rational::lemma_rat_add_assoc(seedv, netp, step_net(step, name));
                    lemma_rat_eq_trans(
                        ledger_val(this.vector@, name),
                        rat_add(rat_add(seedv, netp), step_net(step, name)),
                        rat_add(seedv, rat_add(netp, step_net(step, name))),
                    );
                    assert(net_of_steps(app_new, name) == rat_add(netp, step_net(step, name)));
                }
                assert forall|name: Seq<char>|
                    rat_lt(#[trigger] ledger_val(this.vector@, name), rat_of_int(0))
                        implies reachable_item(*data, *settings, input@, init0, name) by {
                    lemma_ledger_val_pos(pre_vec, name);
                    lemma_ledger_val_pos(this.vector@, name);
                    lemma_deficit_origin(
                        step,
                        name,
                        ledger_val(pre_vec, name),
                        ledger_val(this.vector@, name),
                    );
                    if ledger_val(pre_vec, name).n < 0 {
                        assert(rat_lt(ledger_val(pre_vec, name), rat_of_int(0)));
                    } else {
                        // The step consumed the item; chain one link
                        // further back to the picked deficit.
                        assert(step.factory.spec_consumes(name));
                        assert(rat_lt(ledger_val(pre_vec, picked.0@), rat_of_int(0)));
                        let n0 = choose|n: nat|
                            #[trigger] reachable_in(
                                *data,
                                *settings,
                                input@,
                                init0,
                                picked.0@,
                                n,
                            );
                        assert(reachable_in(
                            *data,
                            *settings,
                            input@,
                            init0,
                            name,
                            n0 + 1,
                        ));
                    }
                }
            }
        }
        if recursion_limit == 0 {
            proof {
                let app = this.steps@.skip(len0 as int);
                assert forall|k: int|
                    0 <= k < app.len() implies (#[trigger] app[k]).wf() && solver_step_ok(
                    *data,
                    *settings,
                    app[k],
                ) by {
                    assert(app[k] == this.steps@[len0 + k]);
                }
                assert(budget_spent(*data, *settings, input@, self.vector@)) by {
                    assert(target_bases_ok(*data, *settings, input@, bases) && app.len()
                        == RECURSION_LIMIT && (forall|k: int|
                        0 <= k < app.len() ==> (#[trigger] app[k]).wf() && solver_step_ok(
                            *data,
                            *settings,
                            app[k],
                        )) && ledger_wf(this.vector@) && (forall|name: Seq<char>|
                        rat_eq(
                            #[trigger] ledger_val(this.vector@, name),
                            rat_add(
                                seed_of_targets(self.vector@, input@, bases, name),
                                net_of_steps(app, name),
                            ),
                        )));
                }
            }
            return Err(CalculationError::RecursionLimit);
        }
        proof {
            assert(target_bases_ok(*data, *settings, input@, bases));
        }
        Ok(this)
    }
}



impl Factory {
    /// After adding every produced amount and subtracting every
    /// consumed amount, each item's ledger change is the step's net
    /// rate.
    proof fn lemma_step_totals(
        self,
        produced: Seq<(String, Rat)>,
        consumed: Seq<(String, Rat)>,
        v0: Seq<(String, Rat)>,
        v1: Seq<(String, Rat)>,
        v2: Seq<(String, Rat)>,
        amount: Ratio,
    )
        requires
            self.wf(),
            rat_pos(amount),
            ledger_wf(v0),
            ledger_wf(v1),
            ledger_wf(v2),
            forall|k: int|
                0 <= k < produced.len() ==> ((#[trigger] produced[k]).1.wf() && rat_pos(
                    produced[k].1@,
                ) && rat_eq(
                    produced[k].1@,
                    rat_mul(amount, self.spec_item_rate(produced[k].0@)),
                )),
            forall|name: Seq<char>| #[trigger] self.spec_produces(name) ==> crate::factory::lists_item(
                produced,
                name,
            ),
            forall|k: int|
                0 <= k < consumed.len() ==> ((#[trigger] consumed[k]).1.wf() && rat_pos(
                    consumed[k].1@,
                ) && rat_eq(
                    consumed[k].1@,
                    rat_mul(amount, self.spec_item_consumed_rate(consumed[k].0@)),
                )),
            forall|name: Seq<char>| #[trigger] self.spec_consumes(name) ==> crate::factory::lists_item(
                consumed,
                name,
            ),
            forall|j: int|
                0 <= j < produced.len() ==> rat_eq(
                    ledger_val(v1, (#[trigger] produced[j]).0@),
                    rat_add(ledger_val(v0, produced[j].0@), produced[j].1@),
                ),
            forall|name: Seq<char>|
                (forall|j: int| 0 <= j < produced.len() ==> (#[trigger] produced[j]).0@ != name)
                    ==> #[trigger] ledger_val(v1, name) == ledger_val(v0, name),
            forall|j: int|
                0 <= j < consumed.len() ==> rat_eq(
                    ledger_val(v2, (#[trigger] consumed[j]).0@),
                    rat_sub(ledger_val(v1, consumed[j].0@), consumed[j].1@),
                ),
            forall|name: Seq<char>|
                (forall|j: int| 0 <= j < consumed.len() ==> (#[trigger] consumed[j]).0@ != name)
                    ==> #[trigger] ledger_val(v2, name) == ledger_val(v1, name),
        ensures
            forall|name: Seq<char>|
                rat_eq(
                    #[trigger] ledger_val(v2, name),
                    rat_add(
                        ledger_val(v0, name),
                        rat_mul(
                            amount,
                            rat_sub(
                                self.spec_item_rate(name),
                                self.spec_item_consumed_rate(name),
                            ),
                        ),
                    ),
                ),
    {
        assert forall|name: Seq<char>|
            rat_eq(
                #[trigger] ledger_val(v2, name),
                rat_add(
                    ledger_val(v0, name),
                    rat_mul(
                        amount,
                        rat_sub(self.spec_item_rate(name), self.spec_item_consumed_rate(name)),
                    ),
                ),
            ) by {
            self.lemma_item_rates_pos(name);
            lemma_ledger_val_pos(v0, name);
            lemma_ledger_val_pos(v1, name);
            lemma_ledger_val_pos(v2, name);
            let a = ledger_val(v0, name);
            let b = ledger_val(v1, name);
            let c2 = ledger_val(v2, name);
            let ir = self.spec_item_rate(name);
            let cr = self.spec_item_consumed_rate(name);
            let scaled_p = rat_mul(amount, ir);
            let scaled_c = rat_mul(amount, cr);
            assert(rat_pos(scaled_p) && rat_pos(scaled_c)) by (nonlinear_arith)
                requires
                    amount.d >= 1,
                    ir.d >= 1,
                    cr.d >= 1,
                    scaled_p == rat_mul(amount, ir),
                    scaled_c == rat_mul(amount, cr),
            ;
            // The ledger after the produced pass: shifted by the scaled
            // produced rate, whether or not the item is listed.
            if crate::factory::lists_item(produced, name) {
                let j = choose|j: int|
                    0 <= j < produced.len() && (#[trigger] produced[j]).0@ == name;
                produced[j].1.lemma_wf_pos();
                lemma_rat_add_congr(a, a, produced[j].1@, scaled_p);
                crate::rational::lemma_rat_ops_pos(a, produced[j].1@);
                lemma_rat_eq_trans(b, rat_add(a, produced[j].1@), rat_add(a, scaled_p));
            } else {
                assert(!self.spec_produces(name));
                assert(ir == rat_of_int(0));
                lemma_rat_mul_zero(amount, ir);
                lemma_rat_add_zero(a, scaled_p);
                lemma_rat_eq_sym(rat_add(a, scaled_p), a);
            }
            assert(rat_eq(b, rat_add(a, scaled_p)));
            // The ledger after the consumed pass: further shifted down
            // by the scaled consumed rate.
            if crate::factory::lists_item(consumed, name) {
                let j = choose|j: int|
                    0 <= j < consumed.len() && (#[trigger] consumed[j]).0@ == name;
                consumed[j].1.lemma_wf_pos();
                crate::rational::lemma_rat_sub_congr(b, b, consumed[j].1@, scaled_c);
                crate::rational::lemma_rat_ops_pos(b, consumed[j].1@);
                lemma_rat_eq_trans(c2, rat_sub(b, consumed[j].1@), rat_sub(b, scaled_c));
            } else {
                assert(!self.spec_consumes(name));
                assert(cr == rat_of_int(0));
                lemma_rat_mul_zero(amount, cr);
                lemma_rat_add_zero(b, scaled_c);
                lemma_rat_eq_sym(rat_sub(b, scaled_c), b);
            }
            assert(rat_eq(c2, rat_sub(b, scaled_c)));
            // Combine: c2 ~ (a + P) - C ~ a + (P - C) ~ a + amount*(ir - cr).
            crate::rational::lemma_rat_ops_pos(a, scaled_p);
            crate::rational::lemma_rat_ops_pos(b, scaled_c);
            crate::rational::lemma_rat_ops_pos(rat_add(a, scaled_p), scaled_c);
            crate::rational::lemma_rat_ops_pos(scaled_p, scaled_c);
            crate::rational::lemma_rat_ops_pos(a, rat_sub(scaled_p, scaled_c));
            crate::rational::lemma_rat_ops_pos(ir, cr);
            crate::rational::lemma_rat_ops_pos(amount, rat_sub(ir, cr));
            crate::rational::lemma_rat_sub_congr(b, rat_add(a, scaled_p), scaled_c, scaled_c);
            lemma_rat_eq_trans(c2, rat_sub(b, scaled_c), rat_sub(rat_add(a, scaled_p), scaled_c));
            lemma_rat_add_sub_shuffle(a, scaled_p, scaled_c);
            lemma_rat_eq_trans(
                c2,
                rat_sub(rat_add(a, scaled_p), scaled_c),
                rat_add(a, rat_sub(scaled_p, scaled_c)),
            );
            lemma_rat_mul_sub_distrib(amount, ir, cr);
            lemma_rat_eq_sym(rat_mul(amount, rat_sub(ir, cr)), rat_sub(scaled_p, scaled_c));
            lemma_rat_add_congr(a, a, rat_sub(scaled_p, scaled_c), rat_mul(amount, rat_sub(ir, cr)));
            lemma_rat_eq_trans(
                c2,
                rat_add(a, rat_sub(scaled_p, scaled_c)),
                rat_add(a, rat_mul(amount, rat_sub(ir, cr))),
            );
        }
    }
}

} // verus!
