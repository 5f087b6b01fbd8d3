//! Items and recipe names, with their display strings.

use crate::error::PlanError;
use vstd::prelude::*;
use vstd::string::StringExecFns;

verus! {

/// Whether two string slices hold the same characters.
pub fn same_text(a: &str, b: &str) -> (r: bool)
    ensures
        r == (a@ == b@),
{
    let x: String = String::from_str(a);
    let y: String = String::from_str(b);
    x == y
}

/// An item that a recipe consumes or produces.
#[derive(Clone, Copy, Debug, PartialEq, Eq, Structural)]
pub enum ItemName {
    IronOre,
    IronIngot,
    Water,
    CrudeOil,
    Fuel,
    PolymerResin,
    Plastic,
    HeavyOilResidue,
    Rubber,
    EmptyCanister,
    EmptyTank,
}

impl ItemName {
    /// The display name of the item.
    pub open spec fn spec_name(self) -> Seq<char> {
        match self {
            ItemName::IronOre => "Iron Ore"@,
            ItemName::IronIngot => "Iron Ingot"@,
            ItemName::Water => "Water"@,
            ItemName::CrudeOil => "Crude Oil"@,
            ItemName::Fuel => "Fuel"@,
            ItemName::PolymerResin => "Polymer Resin"@,
            ItemName::Plastic => "Plastic"@,
            ItemName::HeavyOilResidue => "Heavy Oil Residue"@,
            ItemName::Rubber => "Rubber"@,
            ItemName::EmptyCanister => "Empty Canister"@,
            ItemName::EmptyTank => "Empty Tank"@,
        }
    }

    /// The item that a text names, if any.
    pub open spec fn spec_parse(s: Seq<char>) -> Option<ItemName> {
        if exists|x: ItemName| #[trigger] x.spec_name() == s {
            Some(choose|x: ItemName| #[trigger] x.spec_name() == s)
        } else {
            None
        }
    }

    /// No two items share a display name.
    pub proof fn lemma_names_distinct(self, other: ItemName)
        requires
            self.spec_name() == other.spec_name(),
        ensures
            self == other,
    {
        reveal_strlit("Iron Ore");
        reveal_strlit("Iron Ingot");
        reveal_strlit("Water");
        reveal_strlit("Crude Oil");
        reveal_strlit("Fuel");
        reveal_strlit("Polymer Resin");
        reveal_strlit("Plastic");
        reveal_strlit("Heavy Oil Residue");
        reveal_strlit("Rubber");
        reveal_strlit("Empty Canister");
        reveal_strlit("Empty Tank");
        if self != other {
            let a = self.spec_name();
            let b = other.spec_name();
            assert(a.len() == b.len());
            assert(a[0] == b[0]);
            assert(a[1] == b[1]);
            assert(a[5] == b[5]);
            assert(a[6] == b[6]);
        }
    }

    /// Reading an item's display name gives the item back.
    pub proof fn lemma_parse_of_name(self)
        ensures
            ItemName::spec_parse(self.spec_name()) == Some(self),
    {
        let s = self.spec_name();
        assert(self.spec_name() == s);
        let y = choose|x: ItemName| #[trigger] x.spec_name() == s;
        y.lemma_names_distinct(self);
    }

    /// A text that reads as an item is that item's display name.
    pub proof fn lemma_name_of_parse(s: Seq<char>, item: ItemName)
        requires
            ItemName::spec_parse(s) == Some(item),
        ensures
            item.spec_name() == s,
    {
    }

    /// The display name of the item.
    pub fn as_str(self) -> (s: &'static str)
        ensures
            s@ == self.spec_name(),
    {
        match self {
            ItemName::IronOre => "Iron Ore",
            ItemName::IronIngot => "Iron Ingot",
            ItemName::Water => "Water",
            ItemName::CrudeOil => "Crude Oil",
            ItemName::Fuel => "Fuel",
            ItemName::PolymerResin => "Polymer Resin",
            ItemName::Plastic => "Plastic",
            ItemName::HeavyOilResidue => "Heavy Oil Residue",
            ItemName::Rubber => "Rubber",
            ItemName::EmptyCanister => "Empty Canister",
            ItemName::EmptyTank => "Empty Tank",
        }
    }

    /// The display name of the item, as an owned string.
    pub fn to_string(self) -> (s: String)
        ensures
            s@ == self.spec_name(),
    {
        String::from_str(self.as_str())
    }

    /// Every item, in declaration order.
    pub fn all() -> (v: Vec<ItemName>)
        ensures
            v@ == ItemName::spec_all(),
    {
        vec![
            ItemName::IronOre,
            ItemName::IronIngot,
            ItemName::Water,
            ItemName::CrudeOil,
            ItemName::Fuel,
            ItemName::PolymerResin,
            ItemName::Plastic,
            ItemName::HeavyOilResidue,
            ItemName::Rubber,
            ItemName::EmptyCanister,
            ItemName::EmptyTank,
        ]
    }

    /// Every item, in declaration order.
    pub open spec fn spec_all() -> Seq<ItemName> {
        seq![
            ItemName::IronOre,
            ItemName::IronIngot,
            ItemName::Water,
            ItemName::CrudeOil,
            ItemName::Fuel,
            ItemName::PolymerResin,
            ItemName::Plastic,
            ItemName::HeavyOilResidue,
            ItemName::Rubber,
            ItemName::EmptyCanister,
            ItemName::EmptyTank,
        ]
    }

    /// Each item occurs in the list of all items.
    pub proof fn lemma_all_complete(self)
        ensures
            ItemName::spec_all().contains(self),
    {
        let all = ItemName::spec_all();
        match self {
            ItemName::IronOre => assert(all[0] == self),
            ItemName::IronIngot => assert(all[1] == self),
            ItemName::Water => assert(all[2] == self),
            ItemName::CrudeOil => assert(all[3] == self),
            ItemName::Fuel => assert(all[4] == self),
            ItemName::PolymerResin => assert(all[5] == self),
            ItemName::Plastic => assert(all[6] == self),
            ItemName::HeavyOilResidue => assert(all[7] == self),
            ItemName::Rubber => assert(all[8] == self),
            ItemName::EmptyCanister => assert(all[9] == self),
            ItemName::EmptyTank => assert(all[10] == self),
        }
    }

    /// Reads a display name. The text must match a name exactly; any other
    /// text is reported as an unknown item.
    pub fn from_str(s: &str) -> (r: Result<ItemName, PlanError>)
        ensures
            r == match ItemName::spec_parse(s@) {
                Some(x) => Ok::<ItemName, PlanError>(x),
                None => Err(PlanError::UnknownItemName),
            },
    {
        let all = ItemName::all();
        let mut i: usize = 0;
        while i < all.len()
            invariant
                i <= all.len(),
                all@ == ItemName::spec_all(),
                forall|j: int| 0 <= j < i ==> (#[trigger] all@[j]).spec_name() != s@,
            decreases all.len() - i,
        {
            let item = all[i];
            if same_text(item.as_str(), s) {
                proof {
                    item.lemma_parse_of_name();
                }
                return Ok(item);
            }
            i += 1;
        }
        proof {
            assert forall|x: ItemName| #[trigger] x.spec_name() != s@ by {
                x.lemma_all_complete();
                let j = choose|j: int| 0 <= j < all@.len() && all@[j] == x;
                assert(all@[j].spec_name() != s@);
            }
        }
        Err(PlanError::UnknownItemName)
    }
}

/// The name of a recipe of the catalog.
#[derive(Clone, Copy, Debug, PartialEq, Eq, Structural)]
pub enum RecipeName {
    IronIngot,
    PureIronIngot,
    Fuel,
    ResidualFuel,
    DilutedFuel,
    Plastic,
    Rubber,
}

impl RecipeName {
    /// The display name of the recipe.
    pub open spec fn spec_name(self) -> Seq<char> {
        match self {
            RecipeName::IronIngot => "Iron Ingot"@,
            RecipeName::PureIronIngot => "Pure Iron Ingot"@,
            RecipeName::Fuel => "Fuel"@,
            RecipeName::ResidualFuel => "Residual Fuel"@,
            RecipeName::DilutedFuel => "Diluted Fuel"@,
            RecipeName::Plastic => "Plastic"@,
            RecipeName::Rubber => "Rubber"@,
        }
    }

    /// The recipe that a text names, if any.
    pub open spec fn spec_parse(s: Seq<char>) -> Option<RecipeName> {
        if exists|x: RecipeName| #[trigger] x.spec_name() == s {
            Some(choose|x: RecipeName| #[trigger] x.spec_name() == s)
        } else {
            None
        }
    }

    /// No two recipes share a display name.
    pub proof fn lemma_names_distinct(self, other: RecipeName)
        requires
            self.spec_name() == other.spec_name(),
        ensures
            self == other,
    {
        reveal_strlit("Iron Ingot");
        reveal_strlit("Pure Iron Ingot");
        reveal_strlit("Fuel");
        reveal_strlit("Residual Fuel");
        reveal_strlit("Diluted Fuel");
        reveal_strlit("Plastic");
        reveal_strlit("Rubber");
        if self != other {
            let a = self.spec_name();
            let b = other.spec_name();
            assert(a.len() == b.len());
            assert(a[0] == b[0]);
        }
    }

    /// Reading a recipe's display name gives the recipe back.
    pub proof fn lemma_parse_of_name(self)
        ensures
            RecipeName::spec_parse(self.spec_name()) == Some(self),
    {
        let s = self.spec_name();
        assert(self.spec_name() == s);
        let y = choose|x: RecipeName| #[trigger] x.spec_name() == s;
        y.lemma_names_distinct(self);
    }

    /// A text that reads as a recipe is that recipe's display name.
    pub proof fn lemma_name_of_parse(s: Seq<char>, recipe: RecipeName)
        requires
            RecipeName::spec_parse(s) == Some(recipe),
        ensures
            recipe.spec_name() == s,
    {
    }

    /// The display name of the recipe.
    pub fn as_str(self) -> (s: &'static str)
        ensures
            s@ == self.spec_name(),
    {
        match self {
            RecipeName::IronIngot => "Iron Ingot",
            RecipeName::PureIronIngot => "Pure Iron Ingot",
            RecipeName::Fuel => "Fuel",
            RecipeName::ResidualFuel => "Residual Fuel",
            RecipeName::DilutedFuel => "Diluted Fuel",
            RecipeName::Plastic => "Plastic",
            RecipeName::Rubber => "Rubber",
        }
    }

    /// The display name of the recipe, as an owned string.
    pub fn to_string(self) -> (s: String)
        ensures
            s@ == self.spec_name(),
    {
        String::from_str(self.as_str())
    }

    /// Every recipe name, in the order of the catalog.
    pub open spec fn spec_all() -> Seq<RecipeName> {
        seq![
            RecipeName::IronIngot,
            RecipeName::PureIronIngot,
            RecipeName::Fuel,
            RecipeName::ResidualFuel,
            RecipeName::DilutedFuel,
            RecipeName::Plastic,
            RecipeName::Rubber,
        ]
    }

    /// Every recipe name, in the order of the catalog.
    pub fn all() -> (v: Vec<RecipeName>)
        ensures
            v@ == RecipeName::spec_all(),
    {
        vec![
            RecipeName::IronIngot,
            RecipeName::PureIronIngot,
            RecipeName::Fuel,
            RecipeName::ResidualFuel,
            RecipeName::DilutedFuel,
            RecipeName::Plastic,
            RecipeName::Rubber,
        ]
    }

    /// Each recipe name occurs in the list of all of them.
    pub proof fn lemma_all_complete(self)
        ensures
            RecipeName::spec_all().contains(self),
    {
        let all = RecipeName::spec_all();
        match self {
            RecipeName::IronIngot => assert(all[0] == self),
            RecipeName::PureIronIngot => assert(all[1] == self),
            RecipeName::Fuel => assert(all[2] == self),
            RecipeName::ResidualFuel => assert(all[3] == self),
            RecipeName::DilutedFuel => assert(all[4] == self),
            RecipeName::Plastic => assert(all[5] == self),
            RecipeName::Rubber => assert(all[6] == self),
        }
    }

    /// Reads a display name. The text must match a name exactly; any other
    /// text is reported as an unknown recipe.
    pub fn from_str(s: &str) -> (r: Result<RecipeName, PlanError>)
        ensures
            r == match RecipeName::spec_parse(s@) {
                Some(x) => Ok::<RecipeName, PlanError>(x),
                None => Err(PlanError::UnknownRecipeName),
            },
    {
        let all = RecipeName::all();
        let mut i: usize = 0;
        while i < all.len()
            invariant
                i <= all.len(),
                all@ == RecipeName::spec_all(),
                forall|j: int| 0 <= j < i ==> (#[trigger] all@[j]).spec_name() != s@,
            decreases all.len() - i,
        {
            let name = all[i];
            if same_text(name.as_str(), s) {
                proof {
                    name.lemma_parse_of_name();
                }
                return Ok(name);
            }
            i += 1;
        }
        proof {
            assert forall|x: RecipeName| #[trigger] x.spec_name() != s@ by {
                x.lemma_all_complete();
                let j = choose|j: int| 0 <= j < all@.len() && all@[j] == x;
                assert(all@[j].spec_name() != s@);
            }
        }
        Err(PlanError::UnknownRecipeName)
    }
}

} // verus!
