//! The three production chains that the planner knows.

use crate::error::PlanError;
use crate::machine::Machine;
use crate::names::{ItemName, RecipeName};
use crate::planner::{
    chain_model, chain_prefix, entry_from, is_outcome, plan_chain, rate_from, selected_recipe,
    Side, Stage, StagePlan,
};
use crate::ratio::Ratio;
use crate::recipes::{catalog, catalog_entry, RecipeModel};
use vstd::prelude::*;

verus! {

/// A production chain: a short, fixed sequence of stages.
#[derive(Clone, Copy, Debug, PartialEq, Eq, Structural)]
pub enum Chain {
    /// Iron ore is smelted into iron ingots.
    IronRefinement,
    /// Crude oil is refined into plastic, and the heavy oil residue that is
    /// left over is refined further.
    Recycling,
    /// Crude oil is refined into fuel.
    FuelPower,
}

impl Chain {
    /// The display name of the chain.
    pub open spec fn spec_name(self) -> Seq<char> {
        match self {
            Chain::IronRefinement => "Iron Refinement Center"@,
            Chain::Recycling => "Recycling Facility"@,
            Chain::FuelPower => "Fuel Power Plant"@,
        }
    }

    /// The stages of the chain, in order. The target rate of a chain is that
    /// of the first stage's driving item.
    pub open spec fn spec_stages(self) -> Seq<Stage> {
        match self {
            Chain::IronRefinement => seq![
                Stage {
                    machine: Machine::Smelter,
                    driving_item: ItemName::IronIngot,
                    side: Side::Output,
                },
            ],
            Chain::Recycling => seq![
                Stage {
                    machine: Machine::Refinery,
                    driving_item: ItemName::Plastic,
                    side: Side::Output,
                },
                Stage {
                    machine: Machine::Refinery,
                    driving_item: ItemName::HeavyOilResidue,
                    side: Side::Input,
                },
            ],
            Chain::FuelPower => seq![
                Stage {
                    machine: Machine::Refinery,
                    driving_item: ItemName::Fuel,
                    side: Side::Output,
                },
            ],
        }
    }

    /// The display name of the chain.
    pub fn as_str(self) -> (s: &'static str)
        ensures
            s@ == self.spec_name(),
    {
        match self {
            Chain::IronRefinement => "Iron Refinement Center",
            Chain::Recycling => "Recycling Facility",
            Chain::FuelPower => "Fuel Power Plant",
        }
    }

    /// The stages of the chain, in order.
    pub fn stages(self) -> (v: Vec<Stage>)
        ensures
            v@ == self.spec_stages(),
    {
        let v = match self {
            Chain::IronRefinement => vec![
                Stage {
                    machine: Machine::Smelter,
                    driving_item: ItemName::IronIngot,
                    side: Side::Output,
                },
            ],
            Chain::Recycling => vec![
                Stage {
                    machine: Machine::Refinery,
                    driving_item: ItemName::Plastic,
                    side: Side::Output,
                },
                Stage {
                    machine: Machine::Refinery,
                    driving_item: ItemName::HeavyOilResidue,
                    side: Side::Input,
                },
            ],
            Chain::FuelPower => vec![
                Stage {
                    machine: Machine::Refinery,
                    driving_item: ItemName::Fuel,
                    side: Side::Output,
                },
            ],
        };
        proof {
            assert(v@ =~= self.spec_stages());
        }
        v
    }
}

/// The first member of a sequence that satisfies a predicate is the first
/// member of the filtered sequence; where no member satisfies it, the
/// filtered sequence is empty.
proof fn lemma_filter_first<A>(s: Seq<A>, pred: spec_fn(A) -> bool, k: int)
    requires
        0 <= k <= s.len(),
        forall|j: int| 0 <= j < k ==> !pred(#[trigger] s[j]),
        k < s.len() ==> pred(s[k]),
    ensures
        k == s.len() ==> s.filter(pred).len() == 0,
        k < s.len() ==> s.filter(pred).len() > 0 && s.filter(pred)[0] == s[k],
    decreases s.len(),
{
    reveal(Seq::filter);
    if s.len() > 0 {
        let front = s.drop_last();
        if k < s.len() - 1 {
            lemma_filter_first(front, pred, k);
        } else {
            lemma_filter_first(front, pred, front.len() as int);
        }
    }
}

/// The recipe that each stage of each known chain selects.
pub proof fn lemma_chain_recipes()
    ensures
        selected_recipe(Chain::IronRefinement.spec_stages()[0]) == Some(
            catalog_entry(RecipeName::IronIngot),
        ),
        selected_recipe(Chain::Recycling.spec_stages()[0]) == Some(
            catalog_entry(RecipeName::Plastic),
        ),
        selected_recipe(Chain::Recycling.spec_stages()[1]) == Some(
            catalog_entry(RecipeName::ResidualFuel),
        ),
        selected_recipe(Chain::FuelPower.spec_stages()[0]) == Some(
            catalog_entry(RecipeName::Fuel),
        ),
{
    let all = catalog();
    assert(all.len() == 7);
    assert(all[0] == catalog_entry(RecipeName::IronIngot));
    assert(all[1] == catalog_entry(RecipeName::PureIronIngot));
    assert(all[2] == catalog_entry(RecipeName::Fuel));
    assert(all[3] == catalog_entry(RecipeName::ResidualFuel));
    assert(all[4] == catalog_entry(RecipeName::DilutedFuel));
    assert(all[5] == catalog_entry(RecipeName::Plastic));
    assert(all[6] == catalog_entry(RecipeName::Rubber));
    let iron = Chain::IronRefinement.spec_stages()[0].spec_filter();
    assert(all[0].outputs[0].item == ItemName::IronIngot);
    lemma_filter_first(all, |r: RecipeModel| iron.matches(r), 0);
    let fuel = Chain::FuelPower.spec_stages()[0].spec_filter();
    assert(all[2].outputs[0].item == ItemName::Fuel);
    lemma_filter_first(all, |r: RecipeModel| fuel.matches(r), 2);
    let plastic = Chain::Recycling.spec_stages()[0].spec_filter();
    assert(all[5].outputs[0].item == ItemName::Plastic);
    lemma_filter_first(all, |r: RecipeModel| plastic.matches(r), 5);
    let residue = Chain::Recycling.spec_stages()[1].spec_filter();
    assert(all[3].inputs[0].item == ItemName::HeavyOilResidue);
    lemma_filter_first(all, |r: RecipeModel| residue.matches(r), 3);
}

/// The known chains agree with the catalog: for a target above zero, a
/// chain is planned in full, or a quantity of its plan is outside the exact
/// 64-bit ratios. No stage is left without a recipe.
pub proof fn lemma_known_chains_have_recipes(chain: Chain, target: real)
    requires
        target > 0 as real,
    ensures
        chain_model(chain.spec_stages(), target) matches Ok(plans) ==> plans.len()
            == chain.spec_stages().len(),
        chain_model(chain.spec_stages(), target) matches Err(e) ==> e == PlanError::InvalidRate,
{
    lemma_chain_recipes();
    let stages = chain.spec_stages();
    reveal_with_fuel(chain_prefix, 3);
    reveal_with_fuel(entry_from, 3);
    reveal_with_fuel(rate_from, 3);
    match chain {
        Chain::IronRefinement => {
            assert(catalog_entry(RecipeName::IronIngot).outputs[0].item == ItemName::IronIngot);
        },
        Chain::FuelPower => {
            assert(catalog_entry(RecipeName::Fuel).outputs[0].item == ItemName::Fuel);
        },
        Chain::Recycling => {
            let r = catalog_entry(RecipeName::Plastic);
            assert(r.outputs[0].item == ItemName::Plastic);
            assert(r.outputs[1].item == ItemName::HeavyOilResidue);
            if let Ok(done) = chain_prefix(stages, target, 1) {
                let passed = done.last().outputs;
                assert(passed[0].item == ItemName::Plastic);
                assert(passed[1].item == ItemName::HeavyOilResidue);
                assert(catalog_entry(RecipeName::ResidualFuel).inputs[0].item
                    == ItemName::HeavyOilResidue);
            }
        },
    }
}

/// Plans one of the known chains for a target rate of its first stage's
/// driving item.
pub fn plan(chain: Chain, target: Ratio) -> (r: Result<Vec<StagePlan>, PlanError>)
    ensures
        is_outcome(r, chain_model(chain.spec_stages(), target@)),
{
    let stages = chain.stages();
    plan_chain(&stages, target)
}

} // verus!
