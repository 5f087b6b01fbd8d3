use satisfactories::chains::{plan, Chain};
use satisfactories::error::PlanError;
use satisfactories::machine::Machine;
use satisfactories::names::{ItemName, RecipeName};
use satisfactories::planner::{
    check_clock, find_entry, find_rate, plan_chain, plan_stage, Flow, Side, Stage, StagePlan,
    MAX_CLOCK_PERCENT,
};
use satisfactories::ratio::Ratio;
use satisfactories::recipes::{recipe, RecipeItem};

fn ratio(n: u64, d: u64) -> Ratio {
    Ratio::new(n, d).unwrap()
}

fn flow(item: ItemName, n: u64, d: u64) -> Flow {
    Flow { item, rate: ratio(n, d) }
}

#[test]
fn iron_refinement_at_sixty_per_minute() {
    let plans = plan(Chain::IronRefinement, ratio(60, 1)).unwrap();
    assert_eq!(plans.len(), 1);
    let p = &plans[0];
    assert_eq!(p.recipe, RecipeName::IronIngot);
    assert_eq!(p.machine, Machine::Smelter);
    assert_eq!(recipe(p.recipe).outputs[0].base_rate(), ratio(30, 1));
    assert_eq!(p.machine_count, 1);
    assert_eq!(p.clock_percent, ratio(200, 1));
    assert_eq!(p.inputs, vec![flow(ItemName::IronOre, 60, 1)]);
    assert_eq!(p.outputs, vec![flow(ItemName::IronIngot, 60, 1)]);
}

#[test]
fn iron_refinement_at_forty_five_per_minute() {
    let plans = plan(Chain::IronRefinement, ratio(45, 1)).unwrap();
    assert_eq!(plans.len(), 1);
    let p = &plans[0];
    assert_eq!(p.recipe, RecipeName::IronIngot);
    assert_eq!(p.machine_count, 1);
    assert_eq!(p.clock_percent, ratio(150, 1));
    assert_eq!(p.inputs, vec![flow(ItemName::IronOre, 45, 1)]);
    assert_eq!(p.outputs, vec![flow(ItemName::IronIngot, 45, 1)]);
}

#[test]
fn a_zero_rate_is_invalid() {
    let zero = ratio(0, 1);
    assert_eq!(plan(Chain::IronRefinement, zero), Err(PlanError::InvalidRate));
    assert_eq!(plan(Chain::Recycling, zero), Err(PlanError::InvalidRate));
    assert_eq!(plan(Chain::FuelPower, zero), Err(PlanError::InvalidRate));
    assert_eq!(plan_chain(&Vec::new(), zero), Err(PlanError::InvalidRate));
    assert_eq!(
        plan_stage(&recipe(RecipeName::IronIngot), Side::Output, ItemName::IronIngot, zero),
        Err(PlanError::InvalidRate)
    );
}

#[test]
fn fuel_power_at_forty_per_minute() {
    let plans = plan(Chain::FuelPower, ratio(40, 1)).unwrap();
    assert_eq!(plans.len(), 1);
    let p = &plans[0];
    assert_eq!(p.recipe, RecipeName::Fuel);
    assert_eq!(p.machine, Machine::Refinery);
    assert_eq!(recipe(p.recipe).outputs[0].base_rate(), ratio(40, 1));
    assert_eq!(p.machine_count, 1);
    assert_eq!(p.clock_percent, ratio(100, 1));
    assert_eq!(p.inputs, vec![flow(ItemName::CrudeOil, 60, 1)]);
    assert_eq!(
        p.outputs,
        vec![flow(ItemName::Fuel, 40, 1), flow(ItemName::PolymerResin, 30, 1)]
    );
}

#[test]
fn the_count_is_the_least_that_reaches_the_rate() {
    let iron = recipe(RecipeName::IronIngot);
    let cases: [(u64, u64, u64); 8] = [
        (1, 100, 1),
        (75, 1, 1),
        (7501, 100, 2),
        (150, 1, 2),
        (151, 1, 3),
        (100, 1, 2),
        (7500, 1, 100),
        (7500001, 1000, 101),
    ];
    for (n, d, count) in cases {
        let p = plan_stage(&iron, Side::Output, ItemName::IronIngot, ratio(n, d)).unwrap();
        assert_eq!(p.machine_count, count);
    }
}

#[test]
fn the_clock_makes_the_machines_meet_the_target_exactly() {
    let iron = recipe(RecipeName::IronIngot);
    let driving = iron.outputs[0];
    let top = Ratio::from_integer(MAX_CLOCK_PERCENT);
    for (n, d) in [(100u64, 1u64), (1, 3), (45, 1), (60, 1), (7501, 100), (1, 1_000_000), (999_983, 7)] {
        let target = ratio(n, d);
        let p = plan_stage(&iron, Side::Output, ItemName::IronIngot, target).unwrap();
        assert!(p.machine_count >= 1);
        assert!(p.clock_percent.is_positive());
        assert!(p.clock_percent.le(top));
        let each = driving.clocked_rate(p.clock_percent).unwrap();
        let total = Ratio::from_wide(
            p.machine_count as u128 * each.numer() as u128,
            each.denom() as u128,
        )
        .unwrap();
        assert_eq!(total, target);
        assert_eq!(p.outputs, vec![Flow { item: ItemName::IronIngot, rate: target }]);
    }
    let hundred = plan_stage(&iron, Side::Output, ItemName::IronIngot, ratio(100, 1)).unwrap();
    assert_eq!(hundred.machine_count, 2);
    assert_eq!(hundred.clock_percent, ratio(500, 3));
}

#[test]
fn planning_twice_gives_identical_plans() {
    for chain in [Chain::IronRefinement, Chain::Recycling, Chain::FuelPower] {
        for (n, d) in [(60u64, 1u64), (45, 1), (1, 3), (123_457, 1000)] {
            let first = plan(chain, ratio(n, d));
            let second = plan(chain, ratio(n, d));
            assert!(first.is_ok());
            assert_eq!(first, second);
        }
    }
}

#[test]
fn recycling_feeds_the_residue_to_the_second_stage() {
    let plans = plan(Chain::Recycling, ratio(20, 1)).unwrap();
    assert_eq!(plans.len(), 2);
    let first = &plans[0];
    assert_eq!(first.recipe, RecipeName::Plastic);
    assert_eq!(first.machine, Machine::Refinery);
    assert_eq!(first.machine_count, 1);
    assert_eq!(first.clock_percent, ratio(100, 1));
    assert_eq!(first.inputs, vec![flow(ItemName::CrudeOil, 30, 1)]);
    assert_eq!(
        first.outputs,
        vec![flow(ItemName::Plastic, 20, 1), flow(ItemName::HeavyOilResidue, 10, 1)]
    );
    let second = &plans[1];
    assert_eq!(second.recipe, RecipeName::ResidualFuel);
    assert_eq!(second.machine, Machine::Refinery);
    assert_eq!(second.machine_count, 1);
    assert_eq!(second.clock_percent, ratio(50, 3));
    assert_eq!(second.inputs, vec![flow(ItemName::HeavyOilResidue, 10, 1)]);
    assert_eq!(second.outputs, vec![flow(ItemName::Fuel, 20, 3)]);
}

#[test]
fn recycling_at_a_high_rate_needs_more_machines() {
    let plans = plan(Chain::Recycling, ratio(1000, 1)).unwrap();
    assert_eq!(plans[0].machine_count, 20);
    assert_eq!(plans[0].clock_percent, ratio(250, 1));
    assert_eq!(plans[0].outputs[1], flow(ItemName::HeavyOilResidue, 500, 1));
    assert_eq!(plans[1].machine_count, 4);
    assert_eq!(plans[1].clock_percent, ratio(625, 3));
    assert_eq!(plans[1].outputs, vec![flow(ItemName::Fuel, 1000, 3)]);
}

#[test]
fn an_input_can_drive_a_stage() {
    let pure = recipe(RecipeName::PureIronIngot);
    let p = plan_stage(&pure, Side::Input, ItemName::IronOre, ratio(35, 1)).unwrap();
    assert_eq!(p.machine_count, 1);
    assert_eq!(p.clock_percent, ratio(100, 1));
    assert_eq!(p.inputs, vec![flow(ItemName::IronOre, 35, 1), flow(ItemName::Water, 20, 1)]);
    assert_eq!(p.outputs, vec![flow(ItemName::IronIngot, 65, 1)]);
}

#[test]
fn an_empty_chain_has_an_empty_plan() {
    assert_eq!(plan_chain(&Vec::new(), ratio(60, 1)), Ok(Vec::<StagePlan>::new()));
}

#[test]
fn a_stage_without_a_recipe_ends_the_planning() {
    let none = Stage { machine: Machine::Assembler, driving_item: ItemName::IronOre, side: Side::Input };
    assert_eq!(plan_chain(&vec![none], ratio(60, 1)), Err(PlanError::NoMatchingRecipe));
    let smelt = Stage { machine: Machine::Smelter, driving_item: ItemName::IronIngot, side: Side::Output };
    assert_eq!(plan_chain(&vec![smelt, none], ratio(60, 1)), Err(PlanError::NoMatchingRecipe));
    let wrong_side = Stage { machine: Machine::Smelter, driving_item: ItemName::IronIngot, side: Side::Input };
    assert_eq!(plan_chain(&vec![wrong_side], ratio(60, 1)), Err(PlanError::NoMatchingRecipe));
}

#[test]
fn a_stage_that_the_one_before_does_not_feed_ends_the_planning() {
    let smelt = Stage { machine: Machine::Smelter, driving_item: ItemName::IronIngot, side: Side::Output };
    let refine = Stage { machine: Machine::Refinery, driving_item: ItemName::CrudeOil, side: Side::Input };
    assert_eq!(plan_chain(&vec![smelt, refine], ratio(60, 1)), Err(PlanError::NoMatchingRecipe));
}

#[test]
fn a_recipe_without_the_driving_item_does_not_match() {
    let iron = recipe(RecipeName::IronIngot);
    assert_eq!(
        plan_stage(&iron, Side::Output, ItemName::Fuel, ratio(60, 1)),
        Err(PlanError::NoMatchingRecipe)
    );
    assert_eq!(
        plan_stage(&iron, Side::Input, ItemName::IronIngot, ratio(60, 1)),
        Err(PlanError::NoMatchingRecipe)
    );
}

#[test]
fn a_rate_outside_the_exact_range_is_invalid() {
    let pure = recipe(RecipeName::PureIronIngot);
    assert_eq!(
        plan_stage(&pure, Side::Output, ItemName::IronIngot, ratio(u64::MAX, 1)),
        Err(PlanError::InvalidRate)
    );
    let iron = recipe(RecipeName::IronIngot);
    assert_eq!(
        plan_stage(&iron, Side::Output, ItemName::IronIngot, ratio(1, u64::MAX - 1)),
        Err(PlanError::InvalidRate)
    );
    assert_eq!(
        plan_stage(&iron, Side::Output, ItemName::IronIngot, ratio(u64::MAX, 1)),
        Err(PlanError::InvalidRate)
    );
    let large: u64 = 75 << 56;
    let top = plan_stage(&iron, Side::Output, ItemName::IronIngot, ratio(large, 1)).unwrap();
    assert_eq!(top.machine_count, 1 << 56);
    assert_eq!(top.clock_percent, ratio(250, 1));
    assert_eq!(top.outputs, vec![flow(ItemName::IronIngot, large, 1)]);
}

#[test]
fn clock_speeds_outside_the_range_are_rejected() {
    assert_eq!(check_clock(ratio(250, 1)), Ok(()));
    assert_eq!(check_clock(ratio(1, 1000)), Ok(()));
    assert_eq!(check_clock(ratio(100, 1)), Ok(()));
    assert_eq!(check_clock(ratio(251, 1)), Err(PlanError::ClockOutOfRange));
    assert_eq!(check_clock(ratio(2501, 10)), Err(PlanError::ClockOutOfRange));
    assert_eq!(check_clock(ratio(0, 1)), Err(PlanError::ClockOutOfRange));
}

#[test]
fn lookups_take_the_first_entry() {
    let items = vec![
        RecipeItem { item: ItemName::Water, amount: 1, duration: 6 },
        RecipeItem { item: ItemName::Fuel, amount: 2, duration: 6 },
        RecipeItem { item: ItemName::Water, amount: 3, duration: 6 },
    ];
    assert_eq!(find_entry(&items, ItemName::Water), Some(items[0]));
    assert_eq!(find_entry(&items, ItemName::Fuel), Some(items[1]));
    assert_eq!(find_entry(&items, ItemName::Rubber), None);
    let flows = vec![flow(ItemName::Water, 1, 2), flow(ItemName::Fuel, 3, 4), flow(ItemName::Water, 5, 6)];
    assert_eq!(find_rate(&flows, ItemName::Water), Some(ratio(1, 2)));
    assert_eq!(find_rate(&flows, ItemName::Fuel), Some(ratio(3, 4)));
    assert_eq!(find_rate(&flows, ItemName::Plastic), None);
}

#[test]
fn stages_build_their_query() {
    let s = Stage { machine: Machine::Refinery, driving_item: ItemName::Fuel, side: Side::Output };
    let f = s.filter();
    assert_eq!(f.machine, Some(Machine::Refinery));
    assert_eq!(f.input_item, None);
    assert_eq!(f.output_item, Some(ItemName::Fuel));
    let t = Stage { machine: Machine::Blender, driving_item: ItemName::Water, side: Side::Input };
    let g = t.filter();
    assert_eq!(g.machine, Some(Machine::Blender));
    assert_eq!(g.input_item, Some(ItemName::Water));
    assert_eq!(g.output_item, None);
}

#[test]
fn chains_list_their_stages() {
    assert_eq!(
        Chain::IronRefinement.stages(),
        vec![Stage { machine: Machine::Smelter, driving_item: ItemName::IronIngot, side: Side::Output }]
    );
    assert_eq!(
        Chain::FuelPower.stages(),
        vec![Stage { machine: Machine::Refinery, driving_item: ItemName::Fuel, side: Side::Output }]
    );
    assert_eq!(
        Chain::Recycling.stages(),
        vec![
            Stage { machine: Machine::Refinery, driving_item: ItemName::Plastic, side: Side::Output },
            Stage { machine: Machine::Refinery, driving_item: ItemName::HeavyOilResidue, side: Side::Input },
        ]
    );
}
