use factorio_web_calculator::calc_step::graph_sort;
use factorio_web_calculator::calc_target::CalcTarget;
use factorio_web_calculator::calc_target_rate::CalcTargetRate;
use factorio_web_calculator::calculation::{Calculation, CalculationError};
use factorio_web_calculator::data::{
    AssemblingMachine, GameData, ItemAmount, MiningDrill, OffshorePump, Recipe, RecipeData,
    RecipeItemType, Resource,
};
use factorio_web_calculator::factory::Factory;
use factorio_web_calculator::rational::Rat;
use factorio_web_calculator::usersettings::UserSettings;

fn rat(n: i64, d: i64) -> Rat {
    Rat::new(n, d)
}

fn entry(name: &str, num: i64, den: i64) -> ItemAmount {
    ItemAmount { name: name.to_owned(), amount: rat(num, den), kind: RecipeItemType::Item }
}

fn recipe(name: &str, category: &str, energy: Rat, ins: Vec<ItemAmount>, outs: Vec<ItemAmount>) -> Recipe {
    Recipe {
        name: name.to_owned(),
        category: category.to_owned(),
        data: RecipeData {
            energy_required: energy,
            ingredients: ins,
            results: outs,
            allow_decomposition: true,
        },
    }
}

fn assembler(name: &str, categories: &[&str], speed: Rat) -> AssemblingMachine {
    AssemblingMachine {
        icon: name.to_owned(),
        name: name.to_owned(),
        crafting_categories: categories.iter().map(|c| (*c).to_owned()).collect(),
        crafting_speed: speed,
        allowed_effects: Vec::new(),
        module_specification: None,
    }
}

fn empty_data() -> GameData {
    GameData {
        items: Vec::new(),
        recipes: Vec::new(),
        assembling_machines: Vec::new(),
        item_groups: Vec::new(),
        item_subgroups: Vec::new(),
        mining_drills: Vec::new(),
        offshore_pumps: Vec::new(),
        resources: Vec::new(),
    }
}

fn ledger_entry(c: &Calculation, name: &str) -> Option<Rat> {
    for (n, v) in &c.vector {
        if n == name {
            return Some(*v);
        }
    }
    None
}

fn target_ips(name: &str, num: i64, den: i64) -> CalcTarget {
    CalcTarget { name: name.to_owned(), rate: CalcTargetRate::ItemsPerSecond(rat(num, den)) }
}

fn smelting_data() -> GameData {
    // One furnace recipe: 3.2 s per execution at speed 2 yields one
    // iron plate from one iron ore.
    let mut data = empty_data();
    data.recipes.push(recipe(
        "iron-plate",
        "smelting",
        rat(16, 5),
        vec![entry("iron-ore", 1, 1)],
        vec![entry("iron-plate", 1, 1)],
    ));
    data.assembling_machines.push(assembler("stone-furnace", &["smelting"], rat(2, 1)));
    data
}

fn ore_mining(data: &mut GameData) {
    data.resources.push(Resource {
        icon: "iron-ore".to_owned(),
        name: "iron-ore".to_owned(),
        category: "basic-solid".to_owned(),
        mining_time: rat(2, 1),
        fluid_requirement: None,
        results: vec![entry("iron-ore", 1, 1)],
    });
    data.mining_drills.push(MiningDrill {
        icon: "electric-drill".to_owned(),
        name: "electric-drill".to_owned(),
        mining_speed: rat(1, 1),
        resource_categories: vec!["basic-solid".to_owned()],
        module_specification: None,
    });
}

#[test]
fn one_smelting_step_moves_the_deficit_to_the_ore() {
    // One plate per second demanded; the sized step leaves the plate
    // balanced and the ore as the new deficit: one ore consumed per
    // plate, so one per second.
    let data = smelting_data();
    let settings = UserSettings::empty();
    let item = "iron-plate".to_owned();
    let factory = Factory::for_item(&item, &data, &settings).unwrap();
    // multiplier = (1 * 3.2) / 2 / 1 = 1.6
    let step = factorio_web_calculator::calc_step::CalcStep { factory, amount: rat(8, 5) };
    let mut calc = Calculation::default();
    calc.vector.push(("iron-plate".to_owned(), rat(-1, 1)));
    assert!(calc.apply_step(step));
    assert_eq!(calc.steps.len(), 1);
    assert_eq!(calc.steps[0].machine_name(), "stone-furnace");
    assert!(ledger_entry(&calc, "iron-plate").unwrap().same_value(&Rat::zero()));
    assert!(ledger_entry(&calc, "iron-ore").unwrap().same_value(&rat(-1, 1)));
}

#[test]
fn smelting_chain_balances_exactly() {
    // With mining available the whole chain balances: a furnace step of
    // 1.6 and a drill step sized for the one ore per second it needs.
    let mut data = smelting_data();
    ore_mining(&mut data);
    let settings = UserSettings::empty();
    let targets = vec![target_ips("iron-plate", 1, 1)];
    let result = Calculation::default().solve(&targets, &data, &settings).unwrap();
    assert_eq!(result.steps.len(), 2);
    assert!(result.steps[0].amount.same_value(&rat(8, 5)));
    assert_eq!(result.steps[0].machine_name(), "stone-furnace");
    // drill amount = (1 * 2) / 1 / 1 = 2
    assert!(result.steps[1].amount.same_value(&rat(2, 1)));
    assert_eq!(result.steps[1].machine_name(), "electric-drill");
    assert!(ledger_entry(&result, "iron-plate").unwrap().same_value(&Rat::zero()));
    assert!(ledger_entry(&result, "iron-ore").unwrap().same_value(&Rat::zero()));
}

#[test]
fn offshore_pump_supplies_fluid_directly() {
    let mut data = empty_data();
    data.offshore_pumps.push(OffshorePump {
        icon: "offshore-pump".to_owned(),
        name: "offshore-pump".to_owned(),
        fluid: "water".to_owned(),
        pumping_speed: rat(20, 1),
    });
    let settings = UserSettings::empty();
    let targets = vec![target_ips("water", 10, 1)];
    let result = Calculation::default().solve(&targets, &data, &settings).unwrap();
    assert_eq!(result.steps.len(), 1);
    // multiplier = 10 / 20 = 0.5, with a pump's time cost of one
    assert!(result.steps[0].amount.same_value(&rat(1, 2)));
    let water = ledger_entry(&result, "water").unwrap();
    assert!(water.same_value(&Rat::zero()));
}

#[test]
fn blacklisted_recipe_is_never_chosen() {
    // The blacklisted enrichment recipe also yields the target and sits
    // first in table order; the later plain recipe must win.
    let mut data = empty_data();
    data.recipes.push(recipe(
        "kovarex-enrichment-process",
        "centrifuging",
        rat(1, 1),
        vec![],
        vec![entry("uranium-235", 1, 1)],
    ));
    data.recipes.push(recipe(
        "uranium-processing",
        "centrifuging",
        rat(1, 1),
        vec![],
        vec![entry("uranium-235", 1, 1)],
    ));
    data.assembling_machines.push(assembler("centrifuge", &["centrifuging"], rat(1, 1)));
    let settings = UserSettings::empty();
    let item = "uranium-235".to_owned();
    match Factory::for_item(&item, &data, &settings).unwrap() {
        Factory::AssemblingMachine(machine, chosen) => {
            assert_eq!(chosen.name, "uranium-processing");
            assert_eq!(machine.name, "centrifuge");
        },
        other => panic!("expected an assembling machine, got {:?}", other),
    }
}

#[test]
fn decomposition_flag_excludes_a_recipe() {
    let mut data = empty_data();
    let mut locked = recipe(
        "scrap-recovery",
        "crafting",
        rat(1, 1),
        vec![],
        vec![entry("gear", 1, 1)],
    );
    locked.data.allow_decomposition = false;
    data.recipes.push(locked);
    data.assembling_machines.push(assembler("assembler", &["crafting"], rat(1, 1)));
    let settings = UserSettings::empty();
    let item = "gear".to_owned();
    match Calculation::default().solve(&[target_ips("gear", 1, 1)], &data, &settings) {
        Err(CalculationError::RecipeOrResourceNotFound(name)) => assert_eq!(name, item),
        other => panic!("expected RecipeOrResourceNotFound, got {:?}", other),
    }
}

#[test]
fn genuine_cycle_exhausts_the_budget() {
    // A needs B's output and B needs A's, with no raw escape.
    let mut data = empty_data();
    data.recipes.push(recipe(
        "a",
        "crafting",
        rat(1, 1),
        vec![entry("item-b", 1, 1)],
        vec![entry("item-a", 1, 1)],
    ));
    data.recipes.push(recipe(
        "b",
        "crafting",
        rat(1, 1),
        vec![entry("item-a", 1, 1)],
        vec![entry("item-b", 1, 1)],
    ));
    data.assembling_machines.push(assembler("assembler", &["crafting"], rat(1, 1)));
    let settings = UserSettings::empty();
    match Calculation::default().solve(&[target_ips("item-a", 1, 1)], &data, &settings) {
        Err(CalculationError::RecursionLimit) => {},
        other => panic!("expected RecursionLimit, got {:?}", other),
    }
}

#[test]
fn unknown_item_fails_immediately() {
    let data = empty_data();
    let settings = UserSettings::empty();
    match Calculation::default().solve(&[target_ips("unobtainium", 1, 1)], &data, &settings) {
        Err(CalculationError::RecipeOrResourceNotFound(name)) => {
            assert_eq!(name, "unobtainium");
        },
        other => panic!("expected RecipeOrResourceNotFound, got {:?}", other),
    }
}

#[test]
fn missing_assembler_is_a_hard_error() {
    let mut data = empty_data();
    data.recipes.push(recipe(
        "advanced-oil",
        "oil-processing",
        rat(1, 1),
        vec![],
        vec![entry("petroleum", 1, 1)],
    ));
    let settings = UserSettings::empty();
    match Calculation::default().solve(&[target_ips("petroleum", 1, 1)], &data, &settings) {
        Err(CalculationError::AssemblingMachineNotFound(cat)) => {
            assert_eq!(cat, "oil-processing");
        },
        other => panic!("expected AssemblingMachineNotFound, got {:?}", other),
    }
}

#[test]
fn missing_drill_is_a_hard_error() {
    let mut data = empty_data();
    data.resources.push(Resource {
        icon: "iron-ore".to_owned(),
        name: "iron-ore".to_owned(),
        category: "basic-solid".to_owned(),
        mining_time: rat(1, 1),
        fluid_requirement: None,
        results: vec![entry("iron-ore", 1, 1)],
    });
    let settings = UserSettings::empty();
    match Calculation::default().solve(&[target_ips("iron-ore", 1, 1)], &data, &settings) {
        Err(CalculationError::MiningDrillNotFound(cat)) => assert_eq!(cat, "basic-solid"),
        other => panic!("expected MiningDrillNotFound, got {:?}", other),
    }
}

#[test]
fn raw_extraction_outranks_a_recipe() {
    // Water can also come from a recycling recipe, but the pump wins.
    let mut data = empty_data();
    data.recipes.push(recipe(
        "condense",
        "crafting",
        rat(1, 1),
        vec![],
        vec![entry("water", 1, 1)],
    ));
    data.assembling_machines.push(assembler("assembler", &["crafting"], rat(1, 1)));
    data.offshore_pumps.push(OffshorePump {
        icon: "offshore-pump".to_owned(),
        name: "offshore-pump".to_owned(),
        fluid: "water".to_owned(),
        pumping_speed: rat(1, 1),
    });
    let settings = UserSettings::empty();
    let item = "water".to_owned();
    match Factory::for_item(&item, &data, &settings).unwrap() {
        Factory::OffshorePump(p) => assert_eq!(p.name, "offshore-pump"),
        other => panic!("expected the pump, got {:?}", other),
    }
}

#[test]
fn preferred_drill_overrides_table_order() {
    let mut data = empty_data();
    data.resources.push(Resource {
        icon: "copper-ore".to_owned(),
        name: "copper-ore".to_owned(),
        category: "basic-solid".to_owned(),
        mining_time: rat(1, 1),
        fluid_requirement: None,
        results: vec![entry("copper-ore", 1, 1)],
    });
    for name in ["burner-drill", "electric-drill"] {
        data.mining_drills.push(MiningDrill {
            icon: name.to_owned(),
            name: name.to_owned(),
            mining_speed: rat(1, 1),
            resource_categories: vec!["basic-solid".to_owned()],
            module_specification: None,
        });
    }
    let mut settings = UserSettings::empty();
    let category = "basic-solid".to_owned();
    settings.change_resource_category(
        &category,
        factorio_web_calculator::prototype_ref::MiningDrillRef::new("electric-drill".to_owned()),
    );
    let item = "copper-ore".to_owned();
    match Factory::for_item(&item, &data, &settings).unwrap() {
        Factory::MiningDrill(drill, res) => {
            assert_eq!(drill.name, "electric-drill");
            assert_eq!(res.name, "copper-ore");
        },
        other => panic!("expected a drill, got {:?}", other),
    }
}

#[test]
fn byproducts_become_surplus() {
    // Refining yields the target plus a byproduct; the byproduct ends
    // as a positive ledger entry, the target at zero.
    let mut data = empty_data();
    data.recipes.push(recipe(
        "refine",
        "crafting",
        rat(1, 1),
        vec![],
        vec![entry("wanted", 1, 1), entry("leftover", 2, 1)],
    ));
    data.assembling_machines.push(assembler("assembler", &["crafting"], rat(1, 1)));
    let settings = UserSettings::empty();
    let result = Calculation::default()
        .solve(&[target_ips("wanted", 3, 1)], &data, &settings)
        .unwrap();
    assert!(ledger_entry(&result, "wanted").unwrap().same_value(&Rat::zero()));
    assert!(ledger_entry(&result, "leftover").unwrap().same_value(&rat(6, 1)));
}

#[test]
fn sequencer_puts_supplier_before_consumer() {
    // Step a produces plates that step b consumes; step c is unrelated.
    let mut data = empty_data();
    data.recipes.push(recipe(
        "plate",
        "crafting",
        rat(1, 1),
        vec![entry("ore", 1, 1)],
        vec![entry("plate", 1, 1)],
    ));
    data.recipes.push(recipe(
        "gear",
        "crafting",
        rat(1, 1),
        vec![entry("plate", 2, 1)],
        vec![entry("gear", 1, 1)],
    ));
    data.recipes.push(recipe(
        "brick",
        "crafting",
        rat(1, 1),
        vec![entry("stone", 1, 1)],
        vec![entry("brick", 1, 1)],
    ));
    data.assembling_machines.push(assembler("assembler", &["crafting"], rat(1, 1)));
    let settings = UserSettings::empty();
    let mk = |name: &str| {
        let item = name.to_owned();
        let f = Factory::for_item(&item, &data, &settings).unwrap();
        factorio_web_calculator::calc_step::CalcStep { factory: f, amount: rat(1, 1) }
    };
    // Consumer first in the input on purpose.
    let input = vec![mk("gear"), mk("brick"), mk("plate")];
    let sorted = graph_sort(input);
    let names: Vec<String> = sorted
        .iter()
        .map(|s| match &s.factory {
            Factory::AssemblingMachine(_, r) => r.name.clone(),
            other => panic!("unexpected binding {:?}", other),
        })
        .collect();
    assert_eq!(names.len(), 3);
    let pos = |n: &str| names.iter().position(|x| x == n).unwrap();
    assert!(pos("plate") < pos("gear"));
    assert_eq!(names.iter().filter(|n| *n == "brick").count(), 1);
}

#[test]
fn rate_conversions_round_trip() {
    let baseline = rat(2, 1);
    let as_count = CalcTargetRate::Factories(rat(3, 1));
    let ips = as_count.as_ips(&baseline).unwrap();
    assert!(ips.same_value(&rat(6, 1)));
    let back = CalcTargetRate::ItemsPerSecond(ips).as_factories(&baseline).unwrap();
    assert!(back.same_value(&rat(3, 1)));
    let as_rate = CalcTargetRate::ItemsPerSecond(rat(5, 2));
    let fac = as_rate.as_factories(&baseline).unwrap();
    assert!(fac.same_value(&rat(5, 4)));
    let back_rate = CalcTargetRate::Factories(fac).as_ips(&baseline).unwrap();
    assert!(back_rate.same_value(&rat(5, 2)));
}

#[test]
fn factory_count_targets_scale_by_machine_output() {
    // One machine makes 1 plate / 3.2s * speed 2 = 0.625/s; asking for
    // two machines' worth must demand exactly 1.25/s and solve to an
    // amount of two machines.
    let mut data = smelting_data();
    ore_mining(&mut data);
    let settings = UserSettings::empty();
    let targets = vec![CalcTarget {
        name: "iron-plate".to_owned(),
        rate: CalcTargetRate::Factories(rat(2, 1)),
    }];
    let result = Calculation::default().solve(&targets, &data, &settings).unwrap();
    assert_eq!(result.steps.len(), 2);
    assert!(result.steps[0].amount.same_value(&rat(2, 1)));
    assert!(ledger_entry(&result, "iron-plate").unwrap().same_value(&Rat::zero()));
    assert!(ledger_entry(&result, "iron-ore").unwrap().same_value(&Rat::zero()));
}

#[test]
fn resolving_twice_gives_the_same_binding() {
    let mut data = empty_data();
    data.recipes.push(recipe(
        "pipe",
        "crafting",
        rat(1, 2),
        vec![entry("plate", 1, 1)],
        vec![entry("pipe", 1, 1)],
    ));
    data.assembling_machines.push(assembler("assembler", &["crafting"], rat(3, 4)));
    let settings = UserSettings::empty();
    let item = "pipe".to_owned();
    let first = Factory::for_item(&item, &data, &settings).unwrap();
    let second = Factory::for_item(&item, &data, &settings).unwrap();
    assert!(first == second);
    assert_eq!(first.name(), second.name());
}

#[test]
fn default_target_is_one_machine_of_the_default_item() {
    let t = CalcTarget::default();
    assert_eq!(t.name, "electronic-circuit");
    match t.rate {
        CalcTargetRate::Factories(f) => assert!(f.same_value(&Rat::one())),
        other => panic!("expected a machine count, got {:?}", other),
    }
}

#[test]
fn self_feeding_recipe_converges_within_tolerance() {
    // Each execution consumes one fuel and yields two: a net gain, but
    // every step leaves half the previous deficit, so the solve only
    // finishes once the remainder drops below the balance tolerance.
    let mut data = empty_data();
    data.recipes.push(recipe(
        "breeder",
        "crafting",
        rat(1, 1),
        vec![entry("fuel", 1, 1)],
        vec![entry("fuel", 2, 1)],
    ));
    data.assembling_machines.push(assembler("assembler", &["crafting"], rat(1, 1)));
    let settings = UserSettings::empty();
    let result = Calculation::default()
        .solve(&[target_ips("fuel", 1, 1)], &data, &settings)
        .unwrap();
    assert!(result.steps.len() > 10);
    let fuel = ledger_entry(&result, "fuel").unwrap();
    let tolerance = factorio_web_calculator::constants::very_small();
    // Balanced: at or above zero, or within the tolerance below it.
    assert!(Rat::zero().le(&fuel) || fuel.neg().lt(&tolerance));
}

#[test]
fn repeated_targets_accumulate() {
    // Two targets for the same item add up: demanding one plate per
    // second twice is a demand of two per second, not of the last
    // entry alone.
    let mut data = smelting_data();
    ore_mining(&mut data);
    let settings = UserSettings::empty();
    let targets = vec![target_ips("iron-plate", 1, 1), target_ips("iron-plate", 1, 1)];
    let result = Calculation::default().solve(&targets, &data, &settings).unwrap();
    assert_eq!(result.steps.len(), 2);
    // furnace amount = (2 * 3.2) / 2 / 1 = 3.2
    assert!(result.steps[0].amount.same_value(&rat(16, 5)));
    assert!(ledger_entry(&result, "iron-plate").unwrap().same_value(&Rat::zero()));
    assert!(ledger_entry(&result, "iron-ore").unwrap().same_value(&Rat::zero()));
}
