use satisfactories::chains::Chain;
use satisfactories::error::PlanError;
use satisfactories::machine::Machine;
use satisfactories::names::{same_text, ItemName, RecipeName};

#[test]
fn item_names_are_the_display_strings() {
    assert_eq!(ItemName::IronOre.as_str(), "Iron Ore");
    assert_eq!(ItemName::IronIngot.as_str(), "Iron Ingot");
    assert_eq!(ItemName::Water.as_str(), "Water");
    assert_eq!(ItemName::CrudeOil.as_str(), "Crude Oil");
    assert_eq!(ItemName::Fuel.as_str(), "Fuel");
    assert_eq!(ItemName::PolymerResin.as_str(), "Polymer Resin");
    assert_eq!(ItemName::Plastic.as_str(), "Plastic");
    assert_eq!(ItemName::HeavyOilResidue.as_str(), "Heavy Oil Residue");
    assert_eq!(ItemName::Rubber.as_str(), "Rubber");
    assert_eq!(ItemName::EmptyCanister.as_str(), "Empty Canister");
    assert_eq!(ItemName::EmptyTank.as_str(), "Empty Tank");
}

#[test]
fn recipe_names_are_the_display_strings() {
    assert_eq!(RecipeName::IronIngot.as_str(), "Iron Ingot");
    assert_eq!(RecipeName::PureIronIngot.as_str(), "Pure Iron Ingot");
    assert_eq!(RecipeName::Fuel.as_str(), "Fuel");
    assert_eq!(RecipeName::ResidualFuel.as_str(), "Residual Fuel");
    assert_eq!(RecipeName::DilutedFuel.as_str(), "Diluted Fuel");
    assert_eq!(RecipeName::Plastic.as_str(), "Plastic");
    assert_eq!(RecipeName::Rubber.as_str(), "Rubber");
}

#[test]
fn every_item_name_round_trips() {
    let all = ItemName::all();
    assert_eq!(all.len(), 11);
    for item in all {
        let text = item.to_string();
        assert_eq!(ItemName::from_str(&text), Ok(item));
        assert_eq!(ItemName::from_str(&text).unwrap().to_string(), text);
    }
}

#[test]
fn every_recipe_name_round_trips() {
    let all = RecipeName::all();
    assert_eq!(all.len(), 7);
    for name in all {
        let text = name.to_string();
        assert_eq!(RecipeName::from_str(&text), Ok(name));
        assert_eq!(RecipeName::from_str(&text).unwrap().to_string(), text);
    }
}

#[test]
fn parsing_a_display_name_gives_the_variant() {
    assert_eq!(ItemName::from_str("Heavy Oil Residue"), Ok(ItemName::HeavyOilResidue));
    assert_eq!(ItemName::from_str("Iron Ingot"), Ok(ItemName::IronIngot));
    assert_eq!(RecipeName::from_str("Iron Ingot"), Ok(RecipeName::IronIngot));
    assert_eq!(RecipeName::from_str("Pure Iron Ingot"), Ok(RecipeName::PureIronIngot));
}

#[test]
fn unknown_item_name_is_an_error() {
    assert_eq!(ItemName::from_str("Copper Ore"), Err(PlanError::UnknownItemName));
    assert_eq!(ItemName::from_str(""), Err(PlanError::UnknownItemName));
    assert_eq!(ItemName::from_str("iron ore"), Err(PlanError::UnknownItemName));
    assert_eq!(ItemName::from_str("IronOre"), Err(PlanError::UnknownItemName));
    assert_eq!(ItemName::from_str("Iron Ore "), Err(PlanError::UnknownItemName));
    assert_eq!(ItemName::from_str("Pure Iron Ingot"), Err(PlanError::UnknownItemName));
}

#[test]
fn unknown_recipe_name_is_an_error() {
    assert_eq!(RecipeName::from_str("Turbofuel"), Err(PlanError::UnknownRecipeName));
    assert_eq!(RecipeName::from_str(""), Err(PlanError::UnknownRecipeName));
    assert_eq!(RecipeName::from_str("fuel"), Err(PlanError::UnknownRecipeName));
    assert_eq!(RecipeName::from_str("Iron Ore"), Err(PlanError::UnknownRecipeName));
}

#[test]
fn same_text_compares_characters() {
    assert!(same_text("Fuel", "Fuel"));
    assert!(!same_text("Fuel", "fuel"));
    assert!(!same_text("Fuel", "Fuels"));
    assert!(same_text("", ""));
}

#[test]
fn machines_have_their_base_power_and_name() {
    assert_eq!(Machine::Smelter.base_power(), 4);
    assert_eq!(Machine::Foundry.base_power(), 16);
    assert_eq!(Machine::Constructor.base_power(), 4);
    assert_eq!(Machine::Assembler.base_power(), 15);
    assert_eq!(Machine::Manufacturer.base_power(), 55);
    assert_eq!(Machine::Refinery.base_power(), 30);
    assert_eq!(Machine::Blender.base_power(), 75);
    assert_eq!(Machine::Smelter.as_str(), "Smelter");
    assert_eq!(Machine::Manufacturer.to_string(), "Manufacturer");
    assert_eq!(Machine::Blender.to_string(), "Blender");
}

#[test]
fn chains_have_their_names() {
    assert_eq!(Chain::IronRefinement.as_str(), "Iron Refinement Center");
    assert_eq!(Chain::Recycling.as_str(), "Recycling Facility");
    assert_eq!(Chain::FuelPower.as_str(), "Fuel Power Plant");
}

#[test]
fn every_error_has_a_message() {
    let all = [
        PlanError::InvalidRate,
        PlanError::UnknownRecipeName,
        PlanError::UnknownItemName,
        PlanError::NoMatchingRecipe,
        PlanError::ClockOutOfRange,
    ];
    for e in all {
        assert!(!e.message().is_empty());
    }
    assert_eq!(PlanError::UnknownItemName.message(), "unknown item name");
    assert_eq!(PlanError::UnknownRecipeName.message(), "unknown recipe name");
}
