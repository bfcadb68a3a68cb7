use factorio_web_calculator::calc_step::{graph_sort, CalcStep};
use factorio_web_calculator::constants::is_blacklisted;
use factorio_web_calculator::data::{
    AssemblingMachine, GameData, ItemAmount, MiningDrill, Recipe, RecipeData, RecipeItemType,
};
use factorio_web_calculator::factory::Factory;
use factorio_web_calculator::prototype_ref::{AssemblingMachineRef, MiningDrillRef};
use factorio_web_calculator::rational::Rat;
use factorio_web_calculator::usersettings::UserSettings;

fn rat(n: i64, d: i64) -> Rat {
    Rat::new(n, d)
}

fn entry(name: &str, num: i64, den: i64) -> ItemAmount {
    ItemAmount { name: name.to_owned(), amount: rat(num, den), kind: RecipeItemType::Item }
}

fn recipe(name: &str, category: &str, ins: Vec<ItemAmount>, outs: Vec<ItemAmount>) -> Recipe {
    Recipe {
        name: name.to_owned(),
        category: category.to_owned(),
        data: RecipeData {
            energy_required: rat(1, 1),
            ingredients: ins,
            results: outs,
            allow_decomposition: true,
        },
    }
}

fn assembler(name: &str, categories: &[&str], speed: Rat) -> AssemblingMachine {
    AssemblingMachine {
        icon: name.to_owned(),
        name: name.to_owned(),
        crafting_categories: categories.iter().map(|c| (*c).to_owned()).collect(),
        crafting_speed: speed,
        allowed_effects: Vec::new(),
        module_specification: None,
    }
}

fn drill(name: &str, categories: &[&str]) -> MiningDrill {
    MiningDrill {
        icon: name.to_owned(),
        name: name.to_owned(),
        mining_speed: rat(1, 1),
        resource_categories: categories.iter().map(|c| (*c).to_owned()).collect(),
        module_specification: None,
    }
}

fn empty_data() -> GameData {
    GameData {
        items: Vec::new(),
        recipes: Vec::new(),
        assembling_machines: Vec::new(),
        item_groups: Vec::new(),
        item_subgroups: Vec::new(),
        mining_drills: Vec::new(),
        offshore_pumps: Vec::new(),
        resources: Vec::new(),
    }
}

#[test]
fn preference_changes_replace_and_persist() {
    let mut settings = UserSettings::empty();
    let category = "smelting".to_owned();
    settings.change_recipe_category(&category, AssemblingMachineRef::new("a".to_owned()));
    settings.change_recipe_category(&category, AssemblingMachineRef::new("b".to_owned()));
    let chosen = settings.assembling_machine(&category).unwrap();
    assert_eq!(chosen.get_name(), "b");
    assert!(settings.mining_drill(&category).is_none());
}

#[test]
fn prototype_refs_resolve_by_name() {
    let mut data = empty_data();
    data.assembling_machines.push(assembler("assembler-2", &["crafting"], rat(3, 4)));
    data.mining_drills.push(drill("burner-drill", &["basic-solid"]));
    let am = AssemblingMachineRef::new("assembler-2".to_owned());
    assert_eq!(am.get_name(), "assembler-2");
    assert_eq!(am.get_full(&data).unwrap().name, "assembler-2");
    let md = MiningDrillRef::new("quantum-drill".to_owned());
    assert!(md.get_full(&data).is_none());
}

#[test]
fn multi_machine_categories_are_surveyed_sorted_by_name() {
    let mut data = empty_data();
    data.recipes.push(recipe("gear", "crafting", vec![], vec![entry("gear", 1, 1)]));
    data.recipes.push(recipe("pipe", "crafting", vec![], vec![entry("pipe", 1, 1)]));
    data.recipes.push(recipe("plate", "smelting", vec![], vec![entry("plate", 1, 1)]));
    // Three multi-category machines whose table order disagrees with
    // their name order; one single-category machine never qualifies.
    data.assembling_machines.push(assembler("zeta-works", &["crafting", "smelting"], rat(1, 1)));
    data.assembling_machines.push(assembler("furnace", &["smelting"], rat(1, 1)));
    data.assembling_machines.push(assembler("mid-forge", &["crafting", "smelting"], rat(1, 1)));
    data.assembling_machines.push(assembler("alpha-shop", &["crafting", "smelting"], rat(1, 1)));
    let survey = data.recipe_categories_with_multiple_assemblers();
    assert_eq!(survey.len(), 2);
    for (category, machines) in &survey {
        assert!(category == "crafting" || category == "smelting");
        // Ascending by machine name, not table order.
        assert_eq!(machines.len(), 3);
        assert_eq!(machines[0].name, "alpha-shop");
        assert_eq!(machines[1].name, "mid-forge");
        assert_eq!(machines[2].name, "zeta-works");
    }
}

#[test]
fn default_settings_pick_the_least_name() {
    let mut data = empty_data();
    data.recipes.push(recipe("gear", "crafting", vec![], vec![entry("gear", 1, 1)]));
    // The lexicographically least qualifying name sits last in the table.
    data.assembling_machines.push(assembler("zeta-works", &["crafting", "smelting"], rat(1, 1)));
    data.assembling_machines.push(assembler("alpha-shop", &["crafting", "smelting"], rat(1, 1)));
    let settings = UserSettings::init(&data);
    let category = "crafting".to_owned();
    assert_eq!(settings.assembling_machine(&category).unwrap().get_name(), "alpha-shop");
    let other = "smelting".to_owned();
    // No recipe uses the second category, so no default is recorded.
    assert!(settings.assembling_machine(&other).is_none());
}

#[test]
fn raw_pairs_round_trip_with_last_write_winning() {
    let recipe_pairs = vec![
        ("crafting".to_owned(), "old-machine".to_owned()),
        ("crafting".to_owned(), "new-machine".to_owned()),
    ];
    let resource_pairs = vec![("basic-solid".to_owned(), "big-drill".to_owned())];
    let settings = UserSettings::from_raw(&recipe_pairs, &resource_pairs);
    let c = "crafting".to_owned();
    assert_eq!(settings.assembling_machine(&c).unwrap().get_name(), "new-machine");
    let b = "basic-solid".to_owned();
    assert_eq!(settings.mining_drill(&b).unwrap().get_name(), "big-drill");
}

#[test]
fn blacklist_names_are_fixed() {
    assert!(is_blacklisted(&"coal-liquefaction".to_owned()));
    assert!(is_blacklisted(&"kovarex-enrichment-process".to_owned()));
    assert!(is_blacklisted(&"nuclear-fuel-reprocessing".to_owned()));
    assert!(!is_blacklisted(&"iron-plate".to_owned()));
}

#[test]
fn unit_economics_scale_with_speed_and_time() {
    // 2 circuits per 4 s execution at speed 3: 1.5 circuits per second,
    // consuming 1 plate per execution: 0.75 plates per second.
    let f = Factory::AssemblingMachine(
        assembler("assembler", &["crafting"], rat(3, 1)),
        Recipe {
            name: "circuit".to_owned(),
            category: "crafting".to_owned(),
            data: RecipeData {
                energy_required: rat(4, 1),
                ingredients: vec![entry("plate", 1, 1)],
                results: vec![entry("circuit", 2, 1)],
                allow_decomposition: true,
            },
        },
    );
    let produced = f.produced_per_sec().unwrap();
    assert_eq!(produced.len(), 1);
    assert_eq!(produced[0].0, "circuit");
    assert!(produced[0].1.same_value(&rat(3, 2)));
    let consumed = f.consumed_per_sec().unwrap();
    assert_eq!(consumed.len(), 1);
    assert_eq!(consumed[0].0, "plate");
    assert!(consumed[0].1.same_value(&rat(3, 4)));
    let item = "circuit".to_owned();
    assert!(f.item_produced_per_recipe(&item).same_value(&rat(2, 1)));
    assert!(f.item_produced_per_sec(&item).unwrap().same_value(&rat(3, 2)));
    let absent = "rocket".to_owned();
    assert!(f.item_produced_per_sec(&absent).unwrap().same_value(&Rat::zero()));
    assert_eq!(f.icon_prefix(), "assembling-machine");
    assert_eq!(f.name(), "assembler");
    assert!(f.crafting_speed().same_value(&rat(3, 1)));
    assert!(f.energy_required().same_value(&rat(4, 1)));
}

#[test]
fn unresolvable_items_convert_at_a_neutral_rate() {
    let data = empty_data();
    let settings = UserSettings::empty();
    let item = "nothing".to_owned();
    let base = Factory::ips_for_item(&item, &data, &settings).unwrap();
    assert!(base.same_value(&Rat::one()));
}

#[test]
fn cyclic_steps_are_kept_rather_than_dropped() {
    // Two steps feed each other; neither can come first, but both must
    // still appear exactly once, in input order.
    let data = {
        let mut d = empty_data();
        d.recipes.push(recipe(
            "a",
            "crafting",
            vec![entry("item-b", 1, 1)],
            vec![entry("item-a", 1, 1)],
        ));
        d.recipes.push(recipe(
            "b",
            "crafting",
            vec![entry("item-a", 1, 1)],
            vec![entry("item-b", 1, 1)],
        ));
        d.assembling_machines.push(assembler("assembler", &["crafting"], rat(1, 1)));
        d
    };
    let settings = UserSettings::empty();
    let mk = |name: &str| {
        let item = name.to_owned();
        let f = Factory::for_item(&item, &data, &settings).unwrap();
        CalcStep { factory: f, amount: rat(1, 1) }
    };
    let sorted = graph_sort(vec![mk("item-a"), mk("item-b")]);
    let names: Vec<String> = sorted
        .iter()
        .map(|s| match &s.factory {
            Factory::AssemblingMachine(_, r) => r.name.clone(),
            other => panic!("unexpected binding {:?}", other),
        })
        .collect();
    assert_eq!(names, vec!["a".to_owned(), "b".to_owned()]);
}

#[test]
fn step_flows_are_the_binding_economics_scaled() {
    let f = Factory::AssemblingMachine(
        assembler("assembler", &["crafting"], rat(1, 1)),
        recipe("gear", "crafting", vec![entry("plate", 2, 1)], vec![entry("gear", 1, 1)]),
    );
    let step = CalcStep { factory: f, amount: rat(3, 1) };
    let produced = step.produced_per_sec().unwrap();
    assert_eq!(produced[0].0, "gear");
    assert!(produced[0].1.same_value(&rat(3, 1)));
    let consumed = step.consumed_per_sec().unwrap();
    assert_eq!(consumed[0].0, "plate");
    assert!(consumed[0].1.same_value(&rat(6, 1)));
    assert_eq!(step.machine_name(), "assembler");
}

#[test]
fn duplicate_table_names_fail_the_data_check() {
    let mut data = empty_data();
    data.recipes.push(recipe("gear", "crafting", vec![], vec![entry("gear", 1, 1)]));
    data.assembling_machines.push(assembler("assembler", &["crafting"], rat(1, 1)));
    assert!(data.check_wf());
    // A second recipe under the same name makes the table ambiguous.
    data.recipes.push(recipe("gear", "crafting", vec![], vec![entry("gear-mk2", 1, 1)]));
    assert!(!data.check_wf());
}

#[test]
fn malformed_amounts_fail_the_data_check() {
    let mut data = empty_data();
    data.recipes.push(recipe("void", "crafting", vec![], vec![entry("nothing", 0, 1)]));
    assert!(!data.check_wf());
}
