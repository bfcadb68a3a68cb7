//! The machine binding and the resolver.
//!
//! A `Factory` pairs a production unit with what it produces: an
//! assembler with a recipe, a drill with a resource, or an offshore pump
//! alone. Resolution (`Factory::for_item`) finds the binding responsible
//! for producing an item: raw extraction takes priority over recipes, so
//! a byproduct recipe can never become the root producer of a raw
//! resource. Bindings own copies of their table rows and are
//! reconstructed on each resolution; their identity is the pair of
//! names.

use vstd::prelude::*;
use crate::calculation::CalculationError;
use crate::constants::{is_blacklisted, spec_blacklisted};
use crate::data::{
    amount_of, amounts_wf, contains_name, find_amount, first_drill_named_at,
    first_machine_named_at, has_amount, names_contain, names_distinct, same_assembler, same_drill,
    same_recipe, same_resource, some_drill_named, some_machine_named, AssemblingMachine, GameData,
    MiningDrill, OffshorePump, Recipe, Resource,
};
use crate::rational::{
    rat_div, rat_eq, rat_fits, rat_lt, rat_mul, rat_norm, rat_of_int, rat_pos, rat_quot, Rat,
    Ratio,
};
use crate::usersettings::UserSettings;
use crate::assoc::assoc_get;
use crate::data::ItemAmount;

verus! {

/// A resolved production unit: what runs, and what it runs on.
#[derive(Debug)]
pub enum Factory {
    AssemblingMachine(AssemblingMachine, Recipe),
    MiningDrill(MiningDrill, Resource),
    OffshorePump(OffshorePump),
}

/// Binding identity: the pair (machine name, recipe-or-resource name).
pub open spec fn same_binding(a: Factory, b: Factory) -> bool {
    match (a, b) {
        (Factory::AssemblingMachine(m1, r1), Factory::AssemblingMachine(m2, r2)) => m1.name@
            == m2.name@ && r1.name@ == r2.name@,
        (Factory::MiningDrill(m1, r1), Factory::MiningDrill(m2, r2)) => m1.name@ == m2.name@
            && r1.name@ == r2.name@,
        (Factory::OffshorePump(p1), Factory::OffshorePump(p2)) => p1.name@ == p2.name@,
        _ => false,
    }
}

impl PartialEq for Factory {
    fn eq(&self, other: &Factory) -> (r: bool) {
        match (self, other) {
            (Factory::AssemblingMachine(m1, r1), Factory::AssemblingMachine(m2, r2)) => {
                m1.name == m2.name && r1.name == r2.name
            },
            (Factory::MiningDrill(m1, r1), Factory::MiningDrill(m2, r2)) => {
                m1.name == m2.name && r1.name == r2.name
            },
            (Factory::OffshorePump(p1), Factory::OffshorePump(p2)) => p1.name == p2.name,
            _ => false,
        }
    }
}

impl vstd::std_specs::cmp::PartialEqSpecImpl for Factory {
    open spec fn obeys_eq_spec() -> bool {
        true
    }

    open spec fn eq_spec(&self, other: &Factory) -> bool {
        same_binding(*self, *other)
    }
}

/* Which table rows can serve an item or category. */

pub open spec fn pump_matches(p: OffshorePump, item: Seq<char>) -> bool {
    p.fluid@ == item
}

pub open spec fn resource_matches(r: Resource, item: Seq<char>) -> bool {
    has_amount(r.results@, item)
}

/// Only decomposition-eligible, non-blacklisted recipes may be chosen.
pub open spec fn recipe_eligible(r: Recipe, item: Seq<char>) -> bool {
    &&& has_amount(r.data.results@, item)
    &&& r.data.allow_decomposition
    &&& !spec_blacklisted(r.name@)
}

pub open spec fn drill_matches(d: MiningDrill, category: Seq<char>) -> bool {
    contains_name(d.resource_categories@, category)
}

pub open spec fn machine_matches(m: AssemblingMachine, category: Seq<char>) -> bool {
    contains_name(m.crafting_categories@, category)
}

/* Existence of a serving row, and the first such row. */

pub open spec fn some_pump_for(data: GameData, item: Seq<char>) -> bool {
    exists|i: int|
        0 <= i < data.offshore_pumps@.len() && pump_matches(#[trigger] data.offshore_pumps@[i], item)
}

pub open spec fn first_pump_at(data: GameData, item: Seq<char>, i: int) -> bool {
    &&& 0 <= i < data.offshore_pumps@.len()
    &&& pump_matches(data.offshore_pumps@[i], item)
    &&& forall|j: int| 0 <= j < i ==> !pump_matches(#[trigger] data.offshore_pumps@[j], item)
}

pub open spec fn some_resource_for(data: GameData, item: Seq<char>) -> bool {
    exists|i: int|
        0 <= i < data.resources@.len() && resource_matches(#[trigger] data.resources@[i], item)
}

pub open spec fn first_resource_at(data: GameData, item: Seq<char>, i: int) -> bool {
    &&& 0 <= i < data.resources@.len()
    &&& resource_matches(data.resources@[i], item)
    &&& forall|j: int| 0 <= j < i ==> !resource_matches(#[trigger] data.resources@[j], item)
}

pub open spec fn some_recipe_for(data: GameData, item: Seq<char>) -> bool {
    exists|i: int|
        0 <= i < data.recipes@.len() && recipe_eligible(#[trigger] data.recipes@[i], item)
}

pub open spec fn first_recipe_at(data: GameData, item: Seq<char>, i: int) -> bool {
    &&& 0 <= i < data.recipes@.len()
    &&& recipe_eligible(data.recipes@[i], item)
    &&& forall|j: int| 0 <= j < i ==> !recipe_eligible(#[trigger] data.recipes@[j], item)
}

pub open spec fn some_drill_for(data: GameData, category: Seq<char>) -> bool {
    exists|i: int|
        0 <= i < data.mining_drills@.len() && drill_matches(
            #[trigger] data.mining_drills@[i],
            category,
        )
}

pub open spec fn first_drill_at(data: GameData, category: Seq<char>, i: int) -> bool {
    &&& 0 <= i < data.mining_drills@.len()
    &&& drill_matches(data.mining_drills@[i], category)
    &&& forall|j: int| 0 <= j < i ==> !drill_matches(#[trigger] data.mining_drills@[j], category)
}

pub open spec fn some_machine_for(data: GameData, category: Seq<char>) -> bool {
    exists|i: int|
        0 <= i < data.assembling_machines@.len() && machine_matches(
            #[trigger] data.assembling_machines@[i],
            category,
        )
}

pub open spec fn first_machine_at(data: GameData, category: Seq<char>, i: int) -> bool {
    &&& 0 <= i < data.assembling_machines@.len()
    &&& machine_matches(data.assembling_machines@[i], category)
    &&& forall|j: int|
        0 <= j < i ==> !machine_matches(#[trigger] data.assembling_machines@[j], category)
}

/* The drill or assembler that resolution binds for a category: the
 * user's resolvable preference first, else the first matching row. */

pub open spec fn drill_choice_at(
    data: GameData,
    settings: UserSettings,
    category: Seq<char>,
    i: int,
) -> bool {
    match assoc_get(settings.resource_category_prefs@, category) {
        Some(r) => if some_drill_named(data, r@) {
            first_drill_named_at(data, r@, i)
        } else {
            first_drill_at(data, category, i)
        },
        None => first_drill_at(data, category, i),
    }
}

pub open spec fn drill_available(data: GameData, settings: UserSettings, category: Seq<char>) -> bool {
    ||| (match assoc_get(settings.resource_category_prefs@, category) {
        Some(r) => some_drill_named(data, r@),
        None => false,
    })
    ||| some_drill_for(data, category)
}

pub open spec fn machine_choice_at(
    data: GameData,
    settings: UserSettings,
    category: Seq<char>,
    i: int,
) -> bool {
    match assoc_get(settings.recipe_category_prefs@, category) {
        Some(r) => if some_machine_named(data, r@) {
            first_machine_named_at(data, r@, i)
        } else {
            first_machine_at(data, category, i)
        },
        None => first_machine_at(data, category, i),
    }
}

pub open spec fn machine_available(
    data: GameData,
    settings: UserSettings,
    category: Seq<char>,
) -> bool {
    ||| (match assoc_get(settings.recipe_category_prefs@, category) {
        Some(r) => some_machine_named(data, r@),
        None => false,
    })
    ||| some_machine_for(data, category)
}

/* What a successful or failed resolution means. */

/// `f` is exactly the binding the priority rules select for `item`:
/// first a pump, then mining, then an eligible recipe.
pub open spec fn resolved_for(
    data: GameData,
    settings: UserSettings,
    item: Seq<char>,
    f: Factory,
) -> bool {
    match f {
        Factory::OffshorePump(op) => exists|i: int|
            #[trigger] first_pump_at(data, item, i) && op == data.offshore_pumps@[i],
        Factory::MiningDrill(md, res) => {
            &&& !some_pump_for(data, item)
            &&& exists|i: int|
                #[trigger] first_resource_at(data, item, i) && same_resource(
                    res,
                    data.resources@[i],
                )
            &&& exists|j: int|
                #[trigger] drill_choice_at(data, settings, res.category@, j) && same_drill(
                    md,
                    data.mining_drills@[j],
                )
        },
        Factory::AssemblingMachine(am, re) => {
            &&& !some_pump_for(data, item)
            &&& !some_resource_for(data, item)
            &&& exists|i: int|
                #[trigger] first_recipe_at(data, item, i) && same_recipe(re, data.recipes@[i])
            &&& exists|j: int|
                #[trigger] machine_choice_at(data, settings, re.category@, j) && same_assembler(
                    am,
                    data.assembling_machines@[j],
                )
        },
    }
}

/// The exact conditions under which resolution fails with `e`.
pub open spec fn resolution_fails(
    data: GameData,
    settings: UserSettings,
    item: Seq<char>,
    e: CalculationError,
) -> bool {
    match e {
        CalculationError::RecipeOrResourceNotFound(s) => {
            &&& s@ == item
            &&& !some_pump_for(data, item)
            &&& !some_resource_for(data, item)
            &&& !some_recipe_for(data, item)
        },
        CalculationError::MiningDrillNotFound(c) => {
            &&& !some_pump_for(data, item)
            &&& exists|i: int|
                #[trigger] first_resource_at(data, item, i) && c@ == data.resources@[i].category@
            &&& !drill_available(data, settings, c@)
        },
        CalculationError::AssemblingMachineNotFound(c) => {
            &&& !some_pump_for(data, item)
            &&& !some_resource_for(data, item)
            &&& exists|i: int|
                #[trigger] first_recipe_at(data, item, i) && c@ == data.recipes@[i].category@
            &&& !machine_available(data, settings, c@)
        },
        _ => false,
    }
}

/// A resolution cannot both select a binding and fail: each failure's
/// conditions contradict every arm of `resolved_for`.
pub proof fn lemma_resolution_exclusive(
    data: GameData,
    settings: UserSettings,
    item: Seq<char>,
    f: Factory,
    e: CalculationError,
)
    requires
        resolution_fails(data, settings, item, e),
    ensures
        !resolved_for(data, settings, item, f),
{
    if !resolved_for(data, settings, item, f) {
        return;
    }
    match f {
        Factory::OffshorePump(op) => {
            let i = choose|i: int| #[trigger] first_pump_at(data, item, i) && op
                == data.offshore_pumps@[i];
            assert(some_pump_for(data, item));
        },
        Factory::MiningDrill(md, res) => {
            let i = choose|i: int| #[trigger] first_resource_at(data, item, i) && same_resource(
                res,
                data.resources@[i],
            );
            assert(some_resource_for(data, item));
            let j = choose|j: int| #[trigger] drill_choice_at(data, settings, res.category@, j)
                && same_drill(md, data.mining_drills@[j]);
            match e {
                CalculationError::MiningDrillNotFound(c) => {
                    let i2 = choose|i2: int|
                        #[trigger] first_resource_at(data, item, i2) && c@
                            == data.resources@[i2].category@;
                    assert(i == i2);
                    assert(drill_available(data, settings, c@)) by {
                        match assoc_get(settings.resource_category_prefs@, res.category@) {
                            Some(rf) => {
                                if some_drill_named(data, rf@) {
                                } else {
                                    assert(first_drill_at(data, res.category@, j));
                                    assert(some_drill_for(data, res.category@));
                                }
                            },
                            None => {
                                assert(first_drill_at(data, res.category@, j));
                                assert(some_drill_for(data, res.category@));
                            },
                        }
                    }
                },
                _ => {},
            }
        },
        Factory::AssemblingMachine(am, re) => {
            let i = choose|i: int| #[trigger] first_recipe_at(data, item, i) && same_recipe(
                re,
                data.recipes@[i],
            );
            assert(some_recipe_for(data, item));
            let j = choose|j: int| #[trigger] machine_choice_at(data, settings, re.category@, j)
                && same_assembler(am, data.assembling_machines@[j]);
            match e {
                CalculationError::AssemblingMachineNotFound(c) => {
                    let i2 = choose|i2: int|
                        #[trigger] first_recipe_at(data, item, i2) && c@
                            == data.recipes@[i2].category@;
                    assert(i == i2);
                    assert(machine_available(data, settings, c@)) by {
                        match assoc_get(settings.recipe_category_prefs@, re.category@) {
                            Some(rf) => {
                                if some_machine_named(data, rf@) {
                                } else {
                                    assert(first_machine_at(data, re.category@, j));
                                    assert(some_machine_for(data, re.category@));
                                }
                            },
                            None => {
                                assert(first_machine_at(data, re.category@, j));
                                assert(some_machine_for(data, re.category@));
                            },
                        }
                    }
                },
                _ => {},
            }
        },
    }
}

impl Factory {
    /// The tables this binding was built from are well formed.
    pub open spec fn wf(self) -> bool {
        match self {
            Factory::AssemblingMachine(am, re) => am.wf() && re.wf(),
            Factory::MiningDrill(md, res) => md.wf() && res.wf(),
            Factory::OffshorePump(op) => op.wf(),
        }
    }

    /// The machine's speed multiplier.
    pub open spec fn spec_speed(self) -> Ratio {
        match self {
            Factory::AssemblingMachine(am, _) => am.crafting_speed@,
            Factory::MiningDrill(md, _) => md.mining_speed@,
            Factory::OffshorePump(op) => op.pumping_speed@,
        }
    }

    /// Seconds per execution at speed one; a pump counts as one.
    pub open spec fn spec_energy(self) -> Ratio {
        match self {
            Factory::AssemblingMachine(_, re) => re.data.energy_required@,
            Factory::MiningDrill(_, res) => res.mining_time@,
            Factory::OffshorePump(_) => rat_of_int(1),
        }
    }

    pub open spec fn spec_name(self) -> Seq<char> {
        match self {
            Factory::AssemblingMachine(am, _) => am.name@,
            Factory::MiningDrill(md, _) => md.name@,
            Factory::OffshorePump(op) => op.name@,
        }
    }

    /// The amount of `item` one execution yields; a pump counts as one.
    pub open spec fn spec_per_execution(self, item: Seq<char>) -> Ratio {
        match self {
            Factory::AssemblingMachine(_, re) => amount_of(re.data.results@, item),
            Factory::MiningDrill(_, res) => amount_of(res.results@, item),
            Factory::OffshorePump(_) => rat_of_int(1),
        }
    }

    pub open spec fn spec_produces(self, item: Seq<char>) -> bool {
        match self {
            Factory::AssemblingMachine(_, re) => has_amount(re.data.results@, item),
            Factory::MiningDrill(_, res) => has_amount(res.results@, item),
            Factory::OffshorePump(op) => op.fluid@ == item,
        }
    }

    /// The amount of `item` one execution consumes.
    pub open spec fn spec_consumed_per_execution(self, item: Seq<char>) -> Ratio {
        match self {
            Factory::AssemblingMachine(_, re) => amount_of(re.data.ingredients@, item),
            Factory::MiningDrill(_, res) => match res.fluid_requirement {
                Some(f) => if f.required_fluid@ == item {
                    f.fluid_amount@
                } else {
                    rat_of_int(0)
                },
                None => rat_of_int(0),
            },
            Factory::OffshorePump(_) => rat_of_int(0),
        }
    }

    pub open spec fn spec_consumes(self, item: Seq<char>) -> bool {
        match self {
            Factory::AssemblingMachine(_, re) => has_amount(re.data.ingredients@, item),
            Factory::MiningDrill(_, res) => match res.fluid_requirement {
                Some(f) => f.required_fluid@ == item,
                None => false,
            },
            Factory::OffshorePump(_) => false,
        }
    }

    /// Speed over time cost: executions per second.
    pub open spec fn spec_executions_per_sec(self) -> Ratio {
        rat_quot(self.spec_speed(), self.spec_energy())
    }

    /// Items of `item` per second of continuous operation.
    pub open spec fn spec_produced_rate(self, item: Seq<char>) -> Ratio {
        rat_mul(self.spec_per_execution(item), self.spec_executions_per_sec())
    }

    /// Items of `item` per second consumed by continuous operation.
    pub open spec fn spec_consumed_rate(self, item: Seq<char>) -> Ratio {
        rat_mul(self.spec_consumed_per_execution(item), self.spec_executions_per_sec())
    }

    /// The produced rate of `item`, or zero where `item` is not produced;
    /// for list-based bindings the two coincide.
    pub open spec fn spec_item_rate(self, item: Seq<char>) -> Ratio {
        if self.spec_produces(item) {
            self.spec_produced_rate(item)
        } else {
            rat_of_int(0)
        }
    }

    /// The consumed rate of `item`, or zero where `item` is not consumed.
    pub open spec fn spec_item_consumed_rate(self, item: Seq<char>) -> Ratio {
        if self.spec_consumes(item) {
            self.spec_consumed_rate(item)
        } else {
            rat_of_int(0)
        }
    }

    /// Both per-item rates have positive denominators, so they can be
    /// compared and combined as values.
    pub proof fn lemma_item_rates_pos(self, item: Seq<char>)
        requires
            self.wf(),
        ensures
            rat_pos(self.spec_item_rate(item)),
            rat_pos(self.spec_item_consumed_rate(item)),
            rat_pos(self.spec_produced_rate(item)),
            rat_pos(self.spec_consumed_rate(item)),
    {
        let s = self.spec_speed();
        let e = self.spec_energy();
        match self {
            Factory::AssemblingMachine(am, re) => {
                am.crafting_speed.lemma_wf_pos();
                re.data.energy_required.lemma_wf_pos();
                crate::data::lemma_amount_of_pos(re.data.results@, item);
                crate::data::lemma_amount_of_pos(re.data.ingredients@, item);
            },
            Factory::MiningDrill(md, res) => {
                md.mining_speed.lemma_wf_pos();
                res.mining_time.lemma_wf_pos();
                crate::data::lemma_amount_of_pos(res.results@, item);
                if res.fluid_requirement is Some {
                    res.fluid_requirement->Some_0.fluid_amount.lemma_wf_pos();
                }
            },
            Factory::OffshorePump(op) => {
                op.pumping_speed.lemma_wf_pos();
            },
        }
        assert(e.n >= 1);
        assert(self.spec_executions_per_sec().d >= 1) by (nonlinear_arith)
            requires
                e.n >= 1,
                s.d >= 1,
                self.spec_executions_per_sec().d == e.n * s.d,
        ;
        let q = self.spec_executions_per_sec();
        let pp = self.spec_per_execution(item);
        let cc = self.spec_consumed_per_execution(item);
        assert(rat_pos(pp) && rat_pos(cc));
        assert(pp.d * q.d >= 1 && cc.d * q.d >= 1) by (nonlinear_arith)
            requires
                pp.d >= 1,
                cc.d >= 1,
                q.d >= 1,
        ;
    }

    /// The reduced executions-per-second value is representable.
    pub open spec fn quot_fits(self) -> bool {
        rat_fits(rat_norm(self.spec_executions_per_sec()))
    }

    /// The reduced per-second rate for one produced entry is representable.
    pub open spec fn rate_fits(self, per_execution: Ratio) -> bool {
        rat_fits(rat_norm(rat_mul(per_execution, rat_norm(self.spec_executions_per_sec()))))
    }

    /// The per-item rates never denote negative values, and a consumed
    /// item's rate is strictly positive: a step can only lower an
    /// item's ledger entry through genuine consumption.
    pub proof fn lemma_item_rate_sign(self, item: Seq<char>)
        requires
            self.wf(),
        ensures
            self.spec_item_rate(item).n >= 0,
            !self.spec_consumes(item) ==> self.spec_item_consumed_rate(item) == rat_of_int(0),
            self.spec_consumes(item) ==> self.spec_item_consumed_rate(item).n >= 1,
    {
        self.lemma_item_rates_pos(item);
        let q = self.spec_executions_per_sec();
        match self {
            Factory::AssemblingMachine(am, re) => {
                am.crafting_speed.lemma_wf_pos();
                re.data.energy_required.lemma_wf_pos();
            },
            Factory::MiningDrill(md, res) => {
                md.mining_speed.lemma_wf_pos();
                res.mining_time.lemma_wf_pos();
                if res.fluid_requirement is Some {
                    res.fluid_requirement->Some_0.fluid_amount.lemma_wf_pos();
                }
            },
            Factory::OffshorePump(op) => {
                op.pumping_speed.lemma_wf_pos();
            },
        }
        assert(q.n >= 1) by (nonlinear_arith)
            requires
                q.n == self.spec_speed().n * self.spec_energy().d,
                self.spec_speed().n >= 1,
                self.spec_energy().d >= 1,
        ;
        assert(q.d >= 1) by (nonlinear_arith)
            requires
                q.d == self.spec_energy().n * self.spec_speed().d,
                self.spec_energy().n >= 1,
                self.spec_speed().d >= 1,
        ;
        match self {
            Factory::AssemblingMachine(_, re) => {
                crate::data::lemma_amount_of_pos(re.data.results@, item);
                crate::data::lemma_amount_of_pos(re.data.ingredients@, item);
            },
            Factory::MiningDrill(_, res) => {
                crate::data::lemma_amount_of_pos(res.results@, item);
            },
            Factory::OffshorePump(_) => {},
        }
        if self.spec_produces(item) {
            match self {
                Factory::AssemblingMachine(_, re) => {
                    crate::data::lemma_amount_of_present_pos(re.data.results@, item);
                },
                Factory::MiningDrill(_, res) => {
                    crate::data::lemma_amount_of_present_pos(res.results@, item);
                },
                Factory::OffshorePump(_) => {},
            }
            crate::rational::lemma_rat_sign_ops(self.spec_per_execution(item), q);
        }
        if self.spec_consumes(item) {
            match self {
                Factory::AssemblingMachine(_, re) => {
                    crate::data::lemma_amount_of_present_pos(re.data.ingredients@, item);
                },
                _ => {},
            }
            crate::rational::lemma_rat_sign_ops(self.spec_consumed_per_execution(item), q);
        }
    }

    /// The reduced representative of the produced rate: the exact value
    /// the per-second functions store for a produced item.
    pub open spec fn repr_produced_rate(self, name: Seq<char>) -> Ratio {
        rat_norm(
            rat_mul(self.spec_per_execution(name), rat_norm(self.spec_executions_per_sec())),
        )
    }

    /// The reduced representative of the consumed rate.
    pub open spec fn repr_consumed_rate(self, name: Seq<char>) -> Ratio {
        rat_norm(
            rat_mul(
                self.spec_consumed_per_execution(name),
                rat_norm(self.spec_executions_per_sec()),
            ),
        )
    }

    /// Every produced entry's per-second rate is representable.
    pub open spec fn produced_rates_fit(self) -> bool {
        match self {
            Factory::AssemblingMachine(_, re) => self.quot_fits() && forall|k: int|
                0 <= k < re.data.results@.len() ==> self.rate_fits(
                    (#[trigger] re.data.results@[k]).amount@,
                ),
            Factory::MiningDrill(_, res) => self.quot_fits() && forall|k: int|
                0 <= k < res.results@.len() ==> self.rate_fits((#[trigger] res.results@[k]).amount@),
            Factory::OffshorePump(_) => true,
        }
    }

    /// Every consumed entry's per-second rate is representable.
    pub open spec fn consumed_rates_fit(self) -> bool {
        match self {
            Factory::AssemblingMachine(_, re) => self.quot_fits() && forall|k: int|
                0 <= k < re.data.ingredients@.len() ==> self.rate_fits(
                    (#[trigger] re.data.ingredients@[k]).amount@,
                ),
            Factory::MiningDrill(_, res) => match res.fluid_requirement {
                Some(f) => self.quot_fits() && self.rate_fits(f.fluid_amount@),
                None => true,
            },
            Factory::OffshorePump(_) => true,
        }
    }

    pub open spec fn spec_icon_prefix(self) -> Seq<char> {
        match self {
            Factory::AssemblingMachine(_, _) => "assembling-machine"@,
            Factory::MiningDrill(_, _) => "mining-drill"@,
            Factory::OffshorePump(_) => "offshore-pump"@,
        }
    }

    pub fn icon_prefix(&self) -> (r: &str)
        ensures
            r@ == self.spec_icon_prefix(),
    {
        match self {
            Factory::AssemblingMachine(_, _) => "assembling-machine",
            Factory::MiningDrill(_, _) => "mining-drill",
            Factory::OffshorePump(_) => "offshore-pump",
        }
    }

    pub fn name(&self) -> (r: String)
        ensures
            r@ == self.spec_name(),
    {
        match self {
            Factory::AssemblingMachine(am, _) => am.name.clone(),
            Factory::MiningDrill(md, _) => md.name.clone(),
            Factory::OffshorePump(op) => op.name.clone(),
        }
    }

    /// The machine's speed multiplier, as stored in the tables.
    pub fn crafting_speed(&self) -> (r: Rat)
        requires
            self.wf(),
        ensures
            r.wf(),
            r@ == self.spec_speed(),
            rat_lt(rat_of_int(0), r@),
            rat_pos(r@),
    {
        let r = match self {
            Factory::AssemblingMachine(am, _) => am.crafting_speed,
            Factory::MiningDrill(md, _) => md.mining_speed,
            Factory::OffshorePump(op) => op.pumping_speed,
        };
        proof {
            r.lemma_wf_pos();
        }
        r
    }

    /// Seconds per execution at speed one; one for a pump.
    pub fn energy_required(&self) -> (r: Rat)
        requires
            self.wf(),
        ensures
            r.wf(),
            r@ == self.spec_energy(),
            rat_lt(rat_of_int(0), r@),
            rat_pos(r@),
    {
        let r = match self {
            Factory::AssemblingMachine(_, re) => re.energy_required(),
            Factory::MiningDrill(_, res) => res.mining_time,
            Factory::OffshorePump(_) => Rat::one(),
        };
        proof {
            r.lemma_wf_pos();
        }
        r
    }

    /// The raw per-execution amount of `item` in the result list; zero
    /// where absent, one for a pump.
    pub fn item_produced_per_recipe(&self, item: &String) -> (r: Rat)
        requires
            self.wf(),
        ensures
            r.wf(),
            r@ == self.spec_per_execution(item@),
    {
        match self {
            Factory::AssemblingMachine(_, re) => match find_amount(&re.data.results, item) {
                Some(v) => v,
                None => {
                    proof {
                        crate::data::lemma_amount_of_absent(re.data.results@, item@);
                    }
                    Rat::zero()
                },
            },
            Factory::MiningDrill(_, res) => match find_amount(&res.results, item) {
                Some(v) => v,
                None => {
                    proof {
                        crate::data::lemma_amount_of_absent(res.results@, item@);
                    }
                    Rat::zero()
                },
            },
            Factory::OffshorePump(_) => Rat::one(),
        }
    }

    /// Executions per second: speed over time cost, reduced; `None` when
    /// even the reduced value leaves the 64-bit range.
    fn executions_per_sec(&self) -> (r: Option<Rat>)
        requires
            self.wf(),
        ensures
            r is Some <==> self.quot_fits(),
            r matches Some(q) ==> q.wf() && rat_pos(q@) && q@ == rat_norm(
                self.spec_executions_per_sec(),
            ) && rat_eq(q@, self.spec_executions_per_sec()),
    {
        let s = self.crafting_speed();
        let e = self.energy_required();
        let r = s.div(&e);
        proof {
            let sn: int = s@.n;
            let sd: int = s@.d;
            let en: int = e@.n;
            let ed: int = e@.d;
            assert(en >= 1);
            let dv = rat_div(s@, e@);
            let qt = self.spec_executions_per_sec();
            assert((sn * ed) * (en * sd) == (sn * ed) * (sd * en)) by (nonlinear_arith);
            assert(sd * en >= 1) by (nonlinear_arith)
                requires
                    sd >= 1,
                    en >= 1;
            assert(rat_eq(dv, qt));
            if r is Some {
                crate::rational::lemma_rat_eq_trans(r->Some_0@, dv, qt);
            }
        }
        r
    }
}

/// Some pair in the list names `name`.
pub open spec fn lists_item(s: Seq<(String, Rat)>, name: Seq<char>) -> bool {
    exists|k: int| 0 <= k < s.len() && (#[trigger] s[k]).0@ == name
}

/// Idempotent resolution: two resolutions of the same item against the
/// same tables and preferences select the same binding — the same pair
/// of machine and recipe-or-resource names, with the same content.
pub proof fn lemma_resolution_unique(
    data: GameData,
    settings: UserSettings,
    item: Seq<char>,
    f1: Factory,
    f2: Factory,
)
    requires
        resolved_for(data, settings, item, f1),
        resolved_for(data, settings, item, f2),
    ensures
        same_binding(f1, f2),
        same_factory(f1, f2),
{
    match (f1, f2) {
        (Factory::OffshorePump(p1), Factory::OffshorePump(p2)) => {
            let i1 = choose|i: int| #[trigger] first_pump_at(data, item, i) && p1
                == data.offshore_pumps@[i];
            let i2 = choose|i: int| #[trigger] first_pump_at(data, item, i) && p2
                == data.offshore_pumps@[i];
            assert(i1 == i2);
        },
        (Factory::MiningDrill(m1, r1), Factory::MiningDrill(m2, r2)) => {
            let i1 = choose|i: int| #[trigger] first_resource_at(data, item, i) && same_resource(
                r1,
                data.resources@[i],
            );
            let i2 = choose|i: int| #[trigger] first_resource_at(data, item, i) && same_resource(
                r2,
                data.resources@[i],
            );
            assert(i1 == i2);
            assert(r1.name@ == r2.name@ && r1.category@ == r2.category@);
            let j1 = choose|j: int| #[trigger] drill_choice_at(data, settings, r1.category@, j)
                && same_drill(m1, data.mining_drills@[j]);
            let j2 = choose|j: int| #[trigger] drill_choice_at(data, settings, r2.category@, j)
                && same_drill(m2, data.mining_drills@[j]);
            assert(drill_choice_at(data, settings, r1.category@, j2));
            assert(j1 == j2);
        },
        (Factory::AssemblingMachine(m1, r1), Factory::AssemblingMachine(m2, r2)) => {
            let i1 = choose|i: int| #[trigger] first_recipe_at(data, item, i) && same_recipe(
                r1,
                data.recipes@[i],
            );
            let i2 = choose|i: int| #[trigger] first_recipe_at(data, item, i) && same_recipe(
                r2,
                data.recipes@[i],
            );
            assert(i1 == i2);
            assert(r1.name@ == r2.name@ && r1.category@ == r2.category@);
            let j1 = choose|j: int| #[trigger] machine_choice_at(data, settings, r1.category@, j)
                && same_assembler(m1, data.assembling_machines@[j]);
            let j2 = choose|j: int| #[trigger] machine_choice_at(data, settings, r2.category@, j)
                && same_assembler(m2, data.assembling_machines@[j]);
            assert(machine_choice_at(data, settings, r1.category@, j2));
            assert(j1 == j2);
        },
        (Factory::OffshorePump(p1), _) => {
            let i1 = choose|i: int| #[trigger] first_pump_at(data, item, i) && p1
                == data.offshore_pumps@[i];
            assert(some_pump_for(data, item));
        },
        (_, Factory::OffshorePump(p2)) => {
            let i2 = choose|i: int| #[trigger] first_pump_at(data, item, i) && p2
                == data.offshore_pumps@[i];
            assert(some_pump_for(data, item));
        },
        (Factory::MiningDrill(_, r1), Factory::AssemblingMachine(_, _)) => {
            let i1 = choose|i: int| #[trigger] first_resource_at(data, item, i) && same_resource(
                r1,
                data.resources@[i],
            );
            assert(some_resource_for(data, item));
        },
        (Factory::AssemblingMachine(_, _), Factory::MiningDrill(_, r2)) => {
            let i2 = choose|i: int| #[trigger] first_resource_at(data, item, i) && same_resource(
                r2,
                data.resources@[i],
            );
            assert(some_resource_for(data, item));
        },
    }
}

/// A binding resolution selects always produces the requested item,
/// with a strictly positive per-execution amount.
pub proof fn lemma_resolved_produces(
    data: GameData,
    settings: UserSettings,
    item: Seq<char>,
    f: Factory,
)
    requires
        data.wf(),
        resolved_for(data, settings, item, f),
    ensures
        f.spec_produces(item),
        f.wf(),
        f.spec_per_execution(item).n >= 1,
        rat_pos(f.spec_per_execution(item)),
{
    match f {
        Factory::OffshorePump(op) => {
            let i = choose|i: int| #[trigger] first_pump_at(data, item, i) && op
                == data.offshore_pumps@[i];
            assert(data.offshore_pumps@[i].wf());
            assert(op.fluid@ == item);
            assert(f.spec_per_execution(item) == rat_of_int(1));
        },
        Factory::MiningDrill(md, res) => {
            let i = choose|i: int| #[trigger] first_resource_at(data, item, i) && same_resource(
                res,
                data.resources@[i],
            );
            assert(data.resources@[i].wf());
            assert(amounts_wf(res.results@) && names_distinct(res.results@));
            let j = choose|j: int| #[trigger] drill_choice_at(data, settings, res.category@, j)
                && same_drill(md, data.mining_drills@[j]);
            assert(data.mining_drills@[j].wf());
            crate::data::lemma_amount_of_present_pos(res.results@, item);
            crate::data::lemma_amount_of_pos(res.results@, item);
        },
        Factory::AssemblingMachine(am, re) => {
            let i = choose|i: int| #[trigger] first_recipe_at(data, item, i) && same_recipe(
                re,
                data.recipes@[i],
            );
            assert(data.recipes@[i].wf());
            assert(amounts_wf(re.data.results@) && names_distinct(re.data.results@));
            let j = choose|j: int| #[trigger] machine_choice_at(data, settings, re.category@, j)
                && same_assembler(am, data.assembling_machines@[j]);
            assert(data.assembling_machines@[j].wf());
            crate::data::lemma_amount_of_present_pos(re.data.results@, item);
            crate::data::lemma_amount_of_pos(re.data.results@, item);
        },
    }
}

/// `a` produces an item that `b` consumes: `a` should come first.
pub open spec fn feeds(a: Factory, b: Factory) -> bool {
    exists|name: Seq<char>|
        #![trigger a.spec_produces(name), b.spec_consumes(name)]
        a.spec_produces(name) && b.spec_consumes(name)
}

/// The two bindings have the same content, variant by variant.
pub open spec fn same_factory(a: Factory, b: Factory) -> bool {
    match (a, b) {
        (Factory::AssemblingMachine(m1, r1), Factory::AssemblingMachine(m2, r2)) => same_assembler(
            m1,
            m2,
        ) && same_recipe(r1, r2),
        (Factory::MiningDrill(m1, r1), Factory::MiningDrill(m2, r2)) => same_drill(m1, m2)
            && same_resource(r1, r2),
        (Factory::OffshorePump(p1), Factory::OffshorePump(p2)) => p1 == p2,
        _ => false,
    }
}

/// Scales each entry of an amount list by `q`, preserving names and
/// order; `None` exactly when one scaled entry cannot be represented.
fn rates_from(list: &Vec<ItemAmount>, q: &Rat) -> (r: Option<Vec<(String, Rat)>>)
    requires
        amounts_wf(list@),
        q.wf(),
    ensures
        r is Some <==> forall|k: int|
            0 <= k < list@.len() ==> rat_fits(
                rat_norm(rat_mul((#[trigger] list@[k]).amount@, q@)),
            ),
        r matches Some(v) ==> v@.len() == list@.len() && forall|k: int|
            0 <= k < v@.len() ==> ((#[trigger] v@[k]).0@ == list@[k].name@ && v@[k].1.wf()
                && rat_pos(v@[k].1@) && rat_eq(v@[k].1@, rat_mul(list@[k].amount@, q@)) && v@[k].1@
                == rat_norm(rat_mul(list@[k].amount@, q@))),
{
    let n = list.len();
    let mut out: Vec<(String, Rat)> = Vec::new();
    let mut i: usize = 0;
    while i < n
        invariant
            n == list@.len(),
            0 <= i <= n,
            amounts_wf(list@),
            q.wf(),
            out@.len() == i,
            forall|k: int|
                0 <= k < i ==> ((#[trigger] out@[k]).0@ == list@[k].name@ && out@[k].1.wf()
                    && rat_pos(out@[k].1@) && rat_eq(out@[k].1@, rat_mul(list@[k].amount@, q@))
                    && out@[k].1@ == rat_norm(rat_mul(list@[k].amount@, q@))),
            forall|k: int|
                0 <= k < i ==> rat_fits(rat_norm(rat_mul((#[trigger] list@[k]).amount@, q@))),
        decreases n - i,
    {
        let scaled = match list[i].amount.mul(q) {
            Some(s) => s,
            None => {
                return None;
            },
        };
        out.push((list[i].name.clone(), scaled));
        i += 1;
    }
    Some(out)
}

impl Factory {
    /// Each produced item with its rate per second of continuous
    /// operation: per-execution amount times executions per second.
    pub fn produced_per_sec(&self) -> (r: Option<Vec<(String, Rat)>>)
        requires
            self.wf(),
        ensures
            r is Some <==> self.produced_rates_fit(),
            r matches Some(v) ==> ({
                &&& crate::assoc::keys_distinct(v@)
                &&& forall|k: int|
                    0 <= k < v@.len() ==> ((#[trigger] v@[k]).1.wf() && rat_pos(v@[k].1@)
                        && self.spec_produces(v@[k].0@) && rat_eq(
                        v@[k].1@,
                        self.spec_produced_rate(v@[k].0@),
                    ) && v@[k].1@ == self.repr_produced_rate(v@[k].0@))
                &&& forall|name: Seq<char>| #[trigger] self.spec_produces(name) ==> lists_item(
                    v@,
                    name,
                )
            }),
            r matches Some(v) ==> (match self {
                Factory::AssemblingMachine(_, re) => v@.len() == re.data.results@.len() && forall|
                    k: int,
                |
                    0 <= k < v@.len() ==> (#[trigger] v@[k]).0@ == re.data.results@[k].name@,
                Factory::MiningDrill(_, res) => v@.len() == res.results@.len() && forall|k: int|
                    0 <= k < v@.len() ==> (#[trigger] v@[k]).0@ == res.results@[k].name@,
                Factory::OffshorePump(op) => v@.len() == 1 && v@[0].0@ == op.fluid@,
            }),
    {
        match self {
            Factory::OffshorePump(op) => {
                let q = match self.executions_per_sec() {
                    Some(q) => q,
                    None => {
                        proof {
                            self.lemma_pump_quot_fits();
                        }
                        return None;
                    },
                };
                let one = Rat::one();
                let rate = match one.mul(&q) {
                    Some(vv) => vv,
                    None => {
                        proof {
                            q.lemma_wf_pos();
                            assert(rat_mul(rat_of_int(1), q@) == q@);
                            crate::rational::lemma_norm_props(q@);
                        }
                        return None;
                    },
                };
                let mut out: Vec<(String, Rat)> = Vec::new();
                out.push((op.fluid.clone(), rate));
                proof {
                    rate.lemma_wf_pos();
                    crate::rational::lemma_rat_mul_congr(
                        rat_of_int(1),
                        rat_of_int(1),
                        q@,
                        self.spec_executions_per_sec(),
                    );
                    q.lemma_wf_pos();
                    crate::rational::lemma_rat_eq_trans(
                        rate@,
                        rat_mul(rat_of_int(1), q@),
                        self.spec_produced_rate(op.fluid@),
                    );
                    assert(rate@ == self.repr_produced_rate(op.fluid@));
                    assert(forall|name: Seq<char>|
                        #[trigger] self.spec_produces(name) ==> lists_item(out@, name)) by {
                        assert(out@[0].0@ == op.fluid@);
                    }
                }
                Some(out)
            },
            Factory::AssemblingMachine(_, re) => {
                let q = match self.executions_per_sec() {
                    Some(q) => q,
                    None => {
                        return None;
                    },
                };
                let r = rates_from(&re.data.results, &q);
                proof {
                    self.lemma_rates_match(re.data.results@, q, r);
                }
                r
            },
            Factory::MiningDrill(_, res) => {
                let q = match self.executions_per_sec() {
                    Some(q) => q,
                    None => {
                        return None;
                    },
                };
                let r = rates_from(&res.results, &q);
                proof {
                    self.lemma_rates_match(res.results@, q, r);
                }
                r
            },
        }
    }

    /// A pump's executions-per-second value is its speed, which is
    /// representable, so the reduced quotient always fits.
    proof fn lemma_pump_quot_fits(self)
        requires
            self.wf(),
            self matches Factory::OffshorePump(_),
        ensures
            self.quot_fits(),
    {
        let op = self->OffshorePump_0;
        op.pumping_speed.lemma_wf_pos();
        assert(self.spec_executions_per_sec() == op.pumping_speed@);
        crate::rational::lemma_norm_props(op.pumping_speed@);
    }

    /// Connects the scaled list to the per-item rate specification, for
    /// a binding whose produced entries are exactly `list`.
    proof fn lemma_rates_match(self, list: Seq<ItemAmount>, q: Rat, r: Option<Vec<(String, Rat)>>)
        requires
            self.wf(),
            names_distinct(list),
            amounts_wf(list),
            match self {
                Factory::AssemblingMachine(_, re) => list == re.data.results@,
                Factory::MiningDrill(_, res) => list == res.results@,
                Factory::OffshorePump(_) => false,
            },
            q.wf(),
            rat_pos(q@),
            q@ == rat_norm(self.spec_executions_per_sec()),
            rat_eq(q@, self.spec_executions_per_sec()),
            r is Some <==> forall|k: int|
                0 <= k < list.len() ==> rat_fits(
                    rat_norm(rat_mul((#[trigger] list[k]).amount@, q@)),
                ),
            r matches Some(v) ==> v@.len() == list.len() && forall|k: int|
                0 <= k < v@.len() ==> ((#[trigger] v@[k]).0@ == list[k].name@ && v@[k].1.wf()
                    && rat_pos(v@[k].1@) && rat_eq(v@[k].1@, rat_mul(list[k].amount@, q@)) && v@[
                    k].1@ == rat_norm(rat_mul(list[k].amount@, q@))),
        ensures
            r is Some <==> self.produced_rates_fit(),
            r matches Some(v) ==> ({
                &&& crate::assoc::keys_distinct(v@)
                &&& v@.len() == list.len()
                &&& forall|k: int| 0 <= k < v@.len() ==> (#[trigger] v@[k]).0@ == list[k].name@
                &&& forall|k: int|
                    0 <= k < v@.len() ==> ((#[trigger] v@[k]).1.wf() && rat_pos(v@[k].1@)
                        && self.spec_produces(v@[k].0@) && rat_eq(
                        v@[k].1@,
                        self.spec_produced_rate(v@[k].0@),
                    ) && v@[k].1@ == self.repr_produced_rate(v@[k].0@))
                &&& forall|name: Seq<char>| #[trigger] self.spec_produces(name) ==> lists_item(
                    v@,
                    name,
                )
            }),
    {
        q.lemma_wf_pos();
        assert forall|k: int| 0 <= k < list.len() implies self.spec_per_execution(
            list[k].name@,
        ) == list[k].amount@ by {
            crate::data::lemma_amount_of_found(list, list[k].name@, k);
        }
        if r is Some {
            let v = r->Some_0;
            assert forall|k: int| 0 <= k < v@.len() implies (#[trigger] v@[k]).1.wf() && rat_pos(
                v@[k].1@,
            ) && self.spec_produces(v@[k].0@) && rat_eq(
                v@[k].1@,
                self.spec_produced_rate(v@[k].0@),
            ) by {
                let name = v@[k].0@;
                let per = list[k].amount@;
                list[k].amount.lemma_wf_pos();
                assert(self.spec_per_execution(name) == per);
                crate::rational::lemma_rat_mul_congr(per, per, q@, self.spec_executions_per_sec());
                assert(rat_mul(per, q@).d >= 1) by (nonlinear_arith)
                    requires
                        per.d >= 1,
                        q@.d >= 1,
                ;
                crate::rational::lemma_rat_eq_trans(
                    v@[k].1@,
                    rat_mul(per, q@),
                    self.spec_produced_rate(name),
                );
                assert(rat_mul(per, q@) == rat_mul(
                    self.spec_per_execution(name),
                    rat_norm(self.spec_executions_per_sec()),
                ));
                assert(v@[k].1@ == self.repr_produced_rate(name));
            }
            assert forall|name: Seq<char>| #[trigger] self.spec_produces(name) implies lists_item(
                v@,
                name,
            ) by {
                let i = choose|i: int| 0 <= i < list.len() && (#[trigger] list[i]).name@ == name;
                assert(v@[i].0@ == name);
            }
            assert(crate::assoc::keys_distinct(v@)) by {
                assert(forall|a: int, b: int|
                    0 <= a < b < v@.len() ==> (#[trigger] v@[a]).0@ != (#[trigger] v@[b]).0@);
            }
        }
    }

    /// Each consumed item with its rate per second of continuous
    /// operation.
    pub fn consumed_per_sec(&self) -> (r: Option<Vec<(String, Rat)>>)
        requires
            self.wf(),
        ensures
            r is Some <==> self.consumed_rates_fit(),
            r matches Some(v) ==> ({
                &&& crate::assoc::keys_distinct(v@)
                &&& forall|k: int|
                    0 <= k < v@.len() ==> ((#[trigger] v@[k]).1.wf() && rat_pos(v@[k].1@)
                        && self.spec_consumes(v@[k].0@) && rat_eq(
                        v@[k].1@,
                        self.spec_consumed_rate(v@[k].0@),
                    ) && v@[k].1@ == self.repr_consumed_rate(v@[k].0@))
                &&& forall|name: Seq<char>| #[trigger] self.spec_consumes(name) ==> lists_item(
                    v@,
                    name,
                )
            }),
            r matches Some(v) ==> (match self {
                Factory::AssemblingMachine(_, re) => v@.len() == re.data.ingredients@.len()
                    && forall|k: int|
                    0 <= k < v@.len() ==> (#[trigger] v@[k]).0@ == re.data.ingredients@[k].name@,
                Factory::MiningDrill(_, res) => (match res.fluid_requirement {
                    Some(f) => v@.len() == 1 && v@[0].0@ == f.required_fluid@,
                    None => v@.len() == 0,
                }),
                Factory::OffshorePump(_) => v@.len() == 0,
            }),
    {
        match self {
            Factory::OffshorePump(_) => {
                let out: Vec<(String, Rat)> = Vec::new();
                Some(out)
            },
            Factory::AssemblingMachine(_, re) => {
                let q = match self.executions_per_sec() {
                    Some(q) => q,
                    None => {
                        return None;
                    },
                };
                let r = rates_from(&re.data.ingredients, &q);
                proof {
                    self.lemma_consumed_match(re.data.ingredients@, q, r);
                }
                r
            },
            Factory::MiningDrill(_, res) => {
                match &res.fluid_requirement {
                    None => {
                        let out: Vec<(String, Rat)> = Vec::new();
                        Some(out)
                    },
                    Some(f) => {
                        let q = match self.executions_per_sec() {
                            Some(q) => q,
                            None => {
                                return None;
                            },
                        };
                        let scaled = match f.fluid_amount.mul(&q) {
                            Some(s) => s,
                            None => {
                                return None;
                            },
                        };
                        let mut out: Vec<(String, Rat)> = Vec::new();
                        out.push((f.required_fluid.clone(), scaled));
                        proof {
                            let name = f.required_fluid@;
                            let per = f.fluid_amount@;
                            f.fluid_amount.lemma_wf_pos();
                            q.lemma_wf_pos();
                            crate::rational::lemma_rat_mul_congr(
                                per,
                                per,
                                q@,
                                self.spec_executions_per_sec(),
                            );
                            assert(rat_mul(per, q@).d >= 1) by (nonlinear_arith)
                                requires
                                    per.d >= 1,
                                    q@.d >= 1,
                            ;
                            crate::rational::lemma_rat_eq_trans(
                                scaled@,
                                rat_mul(per, q@),
                                self.spec_consumed_rate(name),
                            );
                            assert(scaled@ == self.repr_consumed_rate(name));
                            assert(forall|nm: Seq<char>|
                                #[trigger] self.spec_consumes(nm) ==> lists_item(out@, nm)) by {
                                assert(out@[0].0@ == name);
                            }
                        }
                        Some(out)
                    },
                }
            },
        }
    }

    /// Like `lemma_rates_match`, for the ingredient side of an assembler.
    proof fn lemma_consumed_match(
        self,
        list: Seq<ItemAmount>,
        q: Rat,
        r: Option<Vec<(String, Rat)>>,
    )
        requires
            self.wf(),
            names_distinct(list),
            amounts_wf(list),
            self matches Factory::AssemblingMachine(_, re) && list == re.data.ingredients@,
            q.wf(),
            rat_pos(q@),
            q@ == rat_norm(self.spec_executions_per_sec()),
            rat_eq(q@, self.spec_executions_per_sec()),
            r is Some <==> forall|k: int|
                0 <= k < list.len() ==> rat_fits(
                    rat_norm(rat_mul((#[trigger] list[k]).amount@, q@)),
                ),
            r matches Some(v) ==> v@.len() == list.len() && forall|k: int|
                0 <= k < v@.len() ==> ((#[trigger] v@[k]).0@ == list[k].name@ && v@[k].1.wf()
                    && rat_pos(v@[k].1@) && rat_eq(v@[k].1@, rat_mul(list[k].amount@, q@)) && v@[
                    k].1@ == rat_norm(rat_mul(list[k].amount@, q@))),
        ensures
            r is Some <==> self.consumed_rates_fit(),
            r matches Some(v) ==> ({
                &&& crate::assoc::keys_distinct(v@)
                &&& forall|k: int|
                    0 <= k < v@.len() ==> ((#[trigger] v@[k]).1.wf() && rat_pos(v@[k].1@)
                        && self.spec_consumes(v@[k].0@) && rat_eq(
                        v@[k].1@,
                        self.spec_consumed_rate(v@[k].0@),
                    ) && v@[k].1@ == self.repr_consumed_rate(v@[k].0@))
                &&& forall|name: Seq<char>| #[trigger] self.spec_consumes(name) ==> lists_item(
                    v@,
                    name,
                )
            }),
            r matches Some(v) ==> (match self {
                Factory::AssemblingMachine(_, re) => v@.len() == re.data.ingredients@.len()
                    && forall|k: int|
                    0 <= k < v@.len() ==> (#[trigger] v@[k]).0@ == re.data.ingredients@[k].name@,
                Factory::MiningDrill(_, res) => (match res.fluid_requirement {
                    Some(f) => v@.len() == 1 && v@[0].0@ == f.required_fluid@,
                    None => v@.len() == 0,
                }),
                Factory::OffshorePump(_) => v@.len() == 0,
            }),
    {
        q.lemma_wf_pos();
        assert forall|k: int| 0 <= k < list.len() implies self.spec_consumed_per_execution(
            list[k].name@,
        ) == list[k].amount@ by {
            crate::data::lemma_amount_of_found(list, list[k].name@, k);
        }
        if r is Some {
            let v = r->Some_0;
            assert forall|k: int| 0 <= k < v@.len() implies (#[trigger] v@[k]).1.wf() && rat_pos(
                v@[k].1@,
            ) && self.spec_consumes(v@[k].0@) && rat_eq(
                v@[k].1@,
                self.spec_consumed_rate(v@[k].0@),
            ) by {
                let name = v@[k].0@;
                let per = list[k].amount@;
                list[k].amount.lemma_wf_pos();
                assert(self.spec_consumed_per_execution(name) == per);
                crate::rational::lemma_rat_mul_congr(per, per, q@, self.spec_executions_per_sec());
                assert(rat_mul(per, q@).d >= 1) by (nonlinear_arith)
                    requires
                        per.d >= 1,
                        q@.d >= 1,
                ;
                crate::rational::lemma_rat_eq_trans(
                    v@[k].1@,
                    rat_mul(per, q@),
                    self.spec_consumed_rate(name),
                );
                assert(rat_mul(per, q@) == rat_mul(
                    self.spec_consumed_per_execution(name),
                    rat_norm(self.spec_executions_per_sec()),
                ));
                assert(v@[k].1@ == self.repr_consumed_rate(name));
            }
            assert forall|name: Seq<char>| #[trigger] self.spec_consumes(name) implies lists_item(
                v@,
                name,
            ) by {
                let i = choose|i: int| 0 <= i < list.len() && (#[trigger] list[i]).name@ == name;
                assert(v@[i].0@ == name);
            }
            assert(crate::assoc::keys_distinct(v@)) by {
                assert(forall|a: int, b: int|
                    0 <= a < b < v@.len() ==> (#[trigger] v@[a]).0@ != (#[trigger] v@[b]).0@);
            }
        }
    }

    /// Whether the per-second rate of `item` can be represented; a pump
    /// entry is stored directly and always can.
    pub open spec fn item_rate_fits(self, item: Seq<char>) -> bool {
        match self {
            Factory::OffshorePump(_) => true,
            _ => !self.spec_produces(item) || (self.quot_fits() && self.rate_fits(
                self.spec_per_execution(item),
            )),
        }
    }

    /// The per-second rate at which this binding produces `item`; zero
    /// where it does not produce it.
    pub fn item_produced_per_sec(&self, item: &String) -> (r: Option<Rat>)
        requires
            self.wf(),
        ensures
            r is Some <==> self.item_rate_fits(item@),
            r matches Some(v) ==> v.wf() && rat_pos(v@) && rat_eq(v@, self.spec_item_rate(item@)),
    {
        match self {
            Factory::OffshorePump(op) => {
                if op.fluid == *item {
                    proof {
                        op.pumping_speed.lemma_wf_pos();
                        assert(rat_eq(op.pumping_speed@, self.spec_item_rate(item@)));
                    }
                    Some(op.pumping_speed)
                } else {
                    Some(Rat::zero())
                }
            },
            Factory::AssemblingMachine(_, re) => {
                match find_amount(&re.data.results, item) {
                    None => {
                        proof {
                            crate::data::lemma_amount_of_absent(re.data.results@, item@);
                        }
                        Some(Rat::zero())
                    },
                    Some(per) => {
                        let q = match self.executions_per_sec() {
                            Some(q) => q,
                            None => {
                                return None;
                            },
                        };
                        let r = per.mul(&q);
                        proof {
                            self.lemma_item_rate(per, q, r, item@);
                        }
                        r
                    },
                }
            },
            Factory::MiningDrill(_, res) => {
                match find_amount(&res.results, item) {
                    None => {
                        proof {
                            crate::data::lemma_amount_of_absent(res.results@, item@);
                        }
                        Some(Rat::zero())
                    },
                    Some(per) => {
                        let q = match self.executions_per_sec() {
                            Some(q) => q,
                            None => {
                                return None;
                            },
                        };
                        let r = per.mul(&q);
                        proof {
                            self.lemma_item_rate(per, q, r, item@);
                        }
                        r
                    },
                }
            },
        }
    }

    /// Connects one scaled amount to the per-item rate specification.
    proof fn lemma_item_rate(self, per: Rat, q: Rat, r: Option<Rat>, item: Seq<char>)
        requires
            self.wf(),
            !(self matches Factory::OffshorePump(_)),
            self.spec_produces(item),
            per.wf(),
            per@ == self.spec_per_execution(item),
            q.wf(),
            rat_pos(q@),
            q@ == rat_norm(self.spec_executions_per_sec()),
            rat_eq(q@, self.spec_executions_per_sec()),
            r is Some <==> rat_fits(rat_norm(rat_mul(per@, q@))),
            r matches Some(v) ==> v.wf() && rat_pos(v@) && rat_eq(v@, rat_mul(per@, q@)),
        ensures
            r is Some <==> self.item_rate_fits(item),
            r matches Some(v) ==> v.wf() && rat_pos(v@) && rat_eq(v@, self.spec_item_rate(item)),
    {
        q.lemma_wf_pos();
        per.lemma_wf_pos();
        if r is Some {
            let v = r->Some_0;
            crate::rational::lemma_rat_mul_congr(per@, per@, q@, self.spec_executions_per_sec());
            assert(rat_mul(per@, q@).d >= 1) by (nonlinear_arith)
                requires
                    per@.d >= 1,
                    q@.d >= 1,
            ;
            crate::rational::lemma_rat_eq_trans(v@, rat_mul(per@, q@), self.spec_item_rate(item));
        }
    }

    fn find_offshore_pump_for_item(item: &String, data: &GameData) -> (r: Option<usize>)
        ensures
            match r {
                Some(i) => first_pump_at(*data, item@, i as int),
                None => !some_pump_for(*data, item@),
            },
    {
        let n = data.offshore_pumps.len();
        let mut i: usize = 0;
        while i < n
            invariant
                n == data.offshore_pumps@.len(),
                0 <= i <= n,
                forall|j: int|
                    0 <= j < i ==> !pump_matches(#[trigger] data.offshore_pumps@[j], item@),
            decreases n - i,
        {
            if data.offshore_pumps[i].fluid == *item {
                return Some(i);
            }
            i += 1;
        }
        None
    }

    fn find_resource_for_item(item: &String, data: &GameData) -> (r: Option<usize>)
        ensures
            match r {
                Some(i) => first_resource_at(*data, item@, i as int),
                None => !some_resource_for(*data, item@),
            },
    {
        let n = data.resources.len();
        let mut i: usize = 0;
        while i < n
            invariant
                n == data.resources@.len(),
                0 <= i <= n,
                forall|j: int| 0 <= j < i ==> !resource_matches(#[trigger] data.resources@[j], item@),
            decreases n - i,
        {
            if find_amount(&data.resources[i].results, item).is_some() {
                return Some(i);
            }
            i += 1;
        }
        None
    }

    fn find_recipe_for_item(item: &String, data: &GameData) -> (r: Option<usize>)
        ensures
            match r {
                Some(i) => first_recipe_at(*data, item@, i as int),
                None => !some_recipe_for(*data, item@),
            },
    {
        let n = data.recipes.len();
        let mut i: usize = 0;
        while i < n
            invariant
                n == data.recipes@.len(),
                0 <= i <= n,
                forall|j: int| 0 <= j < i ==> !recipe_eligible(#[trigger] data.recipes@[j], item@),
            decreases n - i,
        {
            let re = &data.recipes[i];
            if find_amount(&re.data.results, item).is_some() && re.data.allow_decomposition
                && !is_blacklisted(&re.name) {
                return Some(i);
            }
            i += 1;
        }
        None
    }

    fn find_mining_drill_for_resource(category: &String, data: &GameData) -> (r: Option<usize>)
        ensures
            match r {
                Some(i) => first_drill_at(*data, category@, i as int),
                None => !some_drill_for(*data, category@),
            },
    {
        let n = data.mining_drills.len();
        let mut i: usize = 0;
        while i < n
            invariant
                n == data.mining_drills@.len(),
                0 <= i <= n,
                forall|j: int|
                    0 <= j < i ==> !drill_matches(#[trigger] data.mining_drills@[j], category@),
            decreases n - i,
        {
            if names_contain(&data.mining_drills[i].resource_categories, category) {
                return Some(i);
            }
            i += 1;
        }
        None
    }

    fn find_assembling_machine_for_recipe(category: &String, data: &GameData) -> (r: Option<usize>)
        ensures
            match r {
                Some(i) => first_machine_at(*data, category@, i as int),
                None => !some_machine_for(*data, category@),
            },
    {
        let n = data.assembling_machines.len();
        let mut i: usize = 0;
        while i < n
            invariant
                n == data.assembling_machines@.len(),
                0 <= i <= n,
                forall|j: int|
                    0 <= j < i ==> !machine_matches(
                        #[trigger] data.assembling_machines@[j],
                        category@,
                    ),
            decreases n - i,
        {
            if names_contain(&data.assembling_machines[i].crafting_categories, category) {
                return Some(i);
            }
            i += 1;
        }
        None
    }

    /// Resolves the binding responsible for producing `item`: an
    /// offshore pump first, then a resource with a drill, then an
    /// eligible recipe with an assembler; the user's resolvable machine
    /// preference overrides the table fallback.
    pub fn for_item(item: &String, data: &GameData, settings: &UserSettings) -> (r: Result<
        Factory,
        CalculationError,
    >)
        requires
            data.wf(),
            settings.wf(),
        ensures
            match r {
                Ok(f) => f.wf() && resolved_for(*data, *settings, item@, f),
                Err(e) => resolution_fails(*data, *settings, item@, e),
            },
    {
        if let Some(pi) = Self::find_offshore_pump_for_item(item, data) {
            let op = data.offshore_pumps[pi].duplicate();
            proof {
                assert(first_pump_at(*data, item@, pi as int));
                assert(data.offshore_pumps@[pi as int].wf());
            }
            Ok(Factory::OffshorePump(op))
        } else if let Some(ri) = Self::find_resource_for_item(item, data) {
            let category = &data.resources[ri].category;
            match Self::choose_drill(category, data, settings) {
                Some(md) => {
                    let res = data.resources[ri].duplicate();
                    proof {
                        assert(first_resource_at(*data, item@, ri as int));
                        assert(data.resources@[ri as int].wf());
                        assert(res.category@ == category@);
                        let j = choose|j: int|
                            #[trigger] drill_choice_at(*data, *settings, category@, j)
                                && same_drill(md, data.mining_drills@[j]);
                        assert(drill_choice_at(*data, *settings, res.category@, j));
                    }
                    Ok(Factory::MiningDrill(md, res))
                },
                None => Err(CalculationError::MiningDrillNotFound(category.clone())),
            }
        } else if let Some(ci) = Self::find_recipe_for_item(item, data) {
            let category = &data.recipes[ci].category;
            match Self::choose_machine(category, data, settings) {
                Some(am) => {
                    let re = data.recipes[ci].duplicate();
                    proof {
                        assert(first_recipe_at(*data, item@, ci as int));
                        assert(data.recipes@[ci as int].wf());
                        assert(re.category@ == category@);
                        let j = choose|j: int|
                            #[trigger] machine_choice_at(*data, *settings, category@, j)
                                && same_assembler(am, data.assembling_machines@[j]);
                        assert(machine_choice_at(*data, *settings, re.category@, j));
                    }
                    Ok(Factory::AssemblingMachine(am, re))
                },
                None => Err(CalculationError::AssemblingMachineNotFound(category.clone())),
            }
        } else {
            Err(CalculationError::RecipeOrResourceNotFound(item.clone()))
        }
    }

    /// The drill resolution binds for a category: the user's resolvable
    /// preference, else the first drill serving the category.
    fn choose_drill(category: &String, data: &GameData, settings: &UserSettings) -> (r: Option<
        MiningDrill,
    >)
        requires
            data.wf(),
            settings.wf(),
        ensures
            match r {
                Some(md) => md.wf() && exists|j: int|
                    #[trigger] drill_choice_at(*data, *settings, category@, j) && same_drill(
                        md,
                        data.mining_drills@[j],
                    ),
                None => !drill_available(*data, *settings, category@),
            },
    {
        match settings.mining_drill(category) {
            Some(pref) => match pref.get_full(data) {
                Some(d) => {
                    let md = d.duplicate();
                    proof {
                        let j = choose|j: int|
                            #[trigger] first_drill_named_at(*data, pref@, j) && *d
                                == data.mining_drills@[j];
                        assert(drill_choice_at(*data, *settings, category@, j));
                    }
                    Some(md)
                },
                None => match Self::find_mining_drill_for_resource(category, data) {
                    Some(di) => {
                        let md = data.mining_drills[di].duplicate();
                        proof {
                            assert(drill_choice_at(*data, *settings, category@, di as int));
                        }
                        Some(md)
                    },
                    None => None,
                },
            },
            None => match Self::find_mining_drill_for_resource(category, data) {
                Some(di) => {
                    let md = data.mining_drills[di].duplicate();
                    proof {
                        assert(drill_choice_at(*data, *settings, category@, di as int));
                    }
                    Some(md)
                },
                None => None,
            },
        }
    }

    /// The assembler resolution binds for a category: the user's
    /// resolvable preference, else the first machine serving it.
    fn choose_machine(category: &String, data: &GameData, settings: &UserSettings) -> (r: Option<
        AssemblingMachine,
    >)
        requires
            data.wf(),
            settings.wf(),
        ensures
            match r {
                Some(am) => am.wf() && exists|j: int|
                    #[trigger] machine_choice_at(*data, *settings, category@, j) && same_assembler(
                        am,
                        data.assembling_machines@[j],
                    ),
                None => !machine_available(*data, *settings, category@),
            },
    {
        match settings.assembling_machine(category) {
            Some(pref) => match pref.get_full(data) {
                Some(m) => {
                    let am = m.duplicate();
                    proof {
                        let j = choose|j: int|
                            #[trigger] first_machine_named_at(*data, pref@, j) && *m
                                == data.assembling_machines@[j];
                        assert(machine_choice_at(*data, *settings, category@, j));
                    }
                    Some(am)
                },
                None => match Self::find_assembling_machine_for_recipe(category, data) {
                    Some(mi) => {
                        let am = data.assembling_machines[mi].duplicate();
                        proof {
                            assert(machine_choice_at(*data, *settings, category@, mi as int));
                        }
                        Some(am)
                    },
                    None => None,
                },
            },
            None => match Self::find_assembling_machine_for_recipe(category, data) {
                Some(mi) => {
                    let am = data.assembling_machines[mi].duplicate();
                    proof {
                        assert(machine_choice_at(*data, *settings, category@, mi as int));
                    }
                    Some(am)
                },
                None => None,
            },
        }
    }

    /// Whether this binding produces `item` at all.
    pub fn produces_item(&self, item: &String) -> (r: bool)
        ensures
            r == self.spec_produces(item@),
    {
        match self {
            Factory::AssemblingMachine(_, re) => find_amount(&re.data.results, item).is_some(),
            Factory::MiningDrill(_, res) => find_amount(&res.results, item).is_some(),
            Factory::OffshorePump(op) => op.fluid == *item,
        }
    }

    /// Whether this binding consumes `item` at all.
    pub fn consumes_item(&self, item: &String) -> (r: bool)
        ensures
            r == self.spec_consumes(item@),
    {
        match self {
            Factory::AssemblingMachine(_, re) => find_amount(&re.data.ingredients, item).is_some(),
            Factory::MiningDrill(_, res) => match &res.fluid_requirement {
                Some(f) => f.required_fluid == *item,
                None => false,
            },
            Factory::OffshorePump(_) => false,
        }
    }

    /// Whether some item this binding produces is consumed by `other`.
    pub fn supplies(&self, other: &Factory) -> (r: bool)
        ensures
            r == feeds(*self, *other),
    {
        match self {
            Factory::OffshorePump(op) => {
                let r = other.consumes_item(&op.fluid);
                proof {
                    if r {
                        assert(self.spec_produces(op.fluid@) && other.spec_consumes(op.fluid@));
                    } else {
                        assert forall|name: Seq<char>|
                            !(#[trigger] self.spec_produces(name) && other.spec_consumes(
                                name,
                            )) by {
                            if self.spec_produces(name) {
                                assert(name == op.fluid@);
                            }
                        }
                    }
                }
                r
            },
            Factory::AssemblingMachine(_, re) => Self::list_feeds(&re.data.results, self, other),
            Factory::MiningDrill(_, res) => Self::list_feeds(&res.results, self, other),
        }
    }

    /// Scans a result list for an entry `other` consumes; `list` must be
    /// exactly the binding's own result list.
    fn list_feeds(list: &Vec<ItemAmount>, own: &Factory, other: &Factory) -> (r: bool)
        requires
            match *own {
                Factory::AssemblingMachine(_, re) => list@ == re.data.results@,
                Factory::MiningDrill(_, res) => list@ == res.results@,
                Factory::OffshorePump(_) => false,
            },
        ensures
            r == feeds(*own, *other),
    {
        let n = list.len();
        let mut i: usize = 0;
        while i < n
            invariant
                n == list@.len(),
                0 <= i <= n,
                match *own {
                    Factory::AssemblingMachine(_, re) => list@ == re.data.results@,
                    Factory::MiningDrill(_, res) => list@ == res.results@,
                    Factory::OffshorePump(_) => false,
                },
                forall|j: int|
                    0 <= j < i ==> !other.spec_consumes((#[trigger] list@[j]).name@),
            decreases n - i,
        {
            if other.consumes_item(&list[i].name) {
                proof {
                    assert(own.spec_produces(list@[i as int].name@));
                }
                return true;
            }
            i += 1;
        }
        proof {
            assert forall|name: Seq<char>|
                !(#[trigger] own.spec_produces(name) && other.spec_consumes(name)) by {
                if own.spec_produces(name) {
                    let j = choose|j: int| 0 <= j < list@.len() && (#[trigger] list@[j]).name@
                        == name;
                    assert(!other.spec_consumes(list@[j].name@));
                }
            }
        }
        false
    }

    /// The display order between two bindings: `Less` when only this
    /// one supplies the other, `Greater` when only the other supplies
    /// this one, and `Equal` otherwise — also when each supplies the
    /// other, since such a pair cannot be ordered.
    pub fn sort_by(&self, other: &Factory) -> (r: core::cmp::Ordering)
        ensures
            (r == core::cmp::Ordering::Less) == (feeds(*self, *other) && !feeds(*other, *self)),
            (r == core::cmp::Ordering::Greater) == (feeds(*other, *self) && !feeds(*self, *other)),
    {
        let ab = self.supplies(other);
        let ba = other.supplies(self);
        if ab && !ba {
            core::cmp::Ordering::Less
        } else if ba && !ab {
            core::cmp::Ordering::Greater
        } else {
            core::cmp::Ordering::Equal
        }
    }

    /// A copy with the same content, for reordering owned steps.
    pub fn duplicate(&self) -> (c: Factory)
        ensures
            same_factory(c, *self),
    {
        match self {
            Factory::AssemblingMachine(am, re) => Factory::AssemblingMachine(
                am.duplicate(),
                re.duplicate(),
            ),
            Factory::MiningDrill(md, res) => Factory::MiningDrill(md.duplicate(), res.duplicate()),
            Factory::OffshorePump(op) => Factory::OffshorePump(op.duplicate()),
        }
    }

    /// Bindings with the same content have the same unit economics.
    pub proof fn lemma_same_factory_rates(f1: Factory, f2: Factory, item: Seq<char>)
        requires
            same_factory(f1, f2),
        ensures
            f1.spec_produces(item) == f2.spec_produces(item),
            f1.spec_item_rate(item) == f2.spec_item_rate(item),
            f1.item_rate_fits(item) == f2.item_rate_fits(item),
    {
        match (f1, f2) {
            (Factory::AssemblingMachine(m1, r1), Factory::AssemblingMachine(m2, r2)) => {
                assert(r1.data.results@ == r2.data.results@);
                assert(m1.crafting_speed@ == m2.crafting_speed@);
            },
            (Factory::MiningDrill(m1, r1), Factory::MiningDrill(m2, r2)) => {
                assert(r1.results@ == r2.results@);
                assert(m1.mining_speed@ == m2.mining_speed@);
            },
            (Factory::OffshorePump(p1), Factory::OffshorePump(p2)) => {},
            _ => {},
        }
    }

    /// The per-second output of the binding that would be resolved for
    /// `item`: exactly that binding's item rate, succeeding exactly when
    /// the reduced rate is representable; one where nothing resolves, as
    /// a neutral conversion base.
    pub fn ips_for_item(item: &String, data: &GameData, settings: &UserSettings) -> (r: Option<
        Rat,
    >)
        requires
            data.wf(),
            settings.wf(),
        ensures
            forall|f: Factory|
                #[trigger] resolved_for(*data, *settings, item@, f) ==> ((r is Some
                    <==> f.item_rate_fits(item@)) && (r matches Some(v) ==> v.wf() && rat_pos(v@)
                    && rat_eq(v@, f.spec_item_rate(item@)))),
            (exists|e: CalculationError| #[trigger] resolution_fails(*data, *settings, item@, e))
                ==> (r matches Some(v) ==> v.wf() && rat_pos(v@) && v@ == rat_of_int(1)),
            (exists|e: CalculationError| #[trigger] resolution_fails(*data, *settings, item@, e))
                ==> r is Some,
    {
        match Self::for_item(item, data, settings) {
            Ok(f) => {
                let r = f.item_produced_per_sec(item);
                proof {
                    assert forall|f2: Factory|
                        #[trigger] resolved_for(*data, *settings, item@, f2) implies ((r is Some
                        <==> f2.item_rate_fits(item@)) && (r matches Some(v) ==> v.wf() && rat_pos(
                        v@,
                    ) && rat_eq(v@, f2.spec_item_rate(item@)))) by {
                        lemma_resolution_unique(*data, *settings, item@, f, f2);
                        Factory::lemma_same_factory_rates(f, f2, item@);
                    }
                    if exists|e: CalculationError| #[trigger] resolution_fails(
                        *data,
                        *settings,
                        item@,
                        e,
                    ) {
                        let e = choose|e: CalculationError|
                            #[trigger] resolution_fails(*data, *settings, item@, e);
                        lemma_resolution_exclusive(*data, *settings, item@, f, e);
                    }
                }
                r
            },
            Err(e) => {
                proof {
                    assert(resolution_fails(*data, *settings, item@, e));
                    assert forall|f2: Factory| !(#[trigger] resolved_for(
                        *data,
                        *settings,
                        item@,
                        f2,
                    )) by {
                        if resolved_for(*data, *settings, item@, f2) {
                            lemma_resolution_exclusive(*data, *settings, item@, f2, e);
                        }
                    }
                }
                Some(Rat::one())
            },
        }
    }
}

} // verus!
