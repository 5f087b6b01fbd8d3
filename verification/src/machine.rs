//! The kinds of machine and their power at nominal clock speed.

use vstd::prelude::*;
use vstd::string::StringExecFns;

verus! {

/// A kind of machine that runs recipes.
#[derive(Clone, Copy, Debug, PartialEq, Eq, Structural)]
pub enum Machine {
    Smelter,
    Foundry,
    Constructor,
    Assembler,
    Manufacturer,
    Refinery,
    Blender,
}

impl Machine {
    /// The power that one machine draws at 100% clock speed.
    pub open spec fn spec_base_power(self) -> nat {
        match self {
            Machine::Smelter => 4,
            Machine::Foundry => 16,
            Machine::Constructor => 4,
            Machine::Assembler => 15,
            Machine::Manufacturer => 55,
            Machine::Refinery => 30,
            Machine::Blender => 75,
        }
    }

    /// The display name of the machine.
    pub open spec fn spec_name(self) -> Seq<char> {
        match self {
            Machine::Smelter => "Smelter"@,
            Machine::Foundry => "Foundry"@,
            Machine::Constructor => "Constructor"@,
            Machine::Assembler => "Assembler"@,
            Machine::Manufacturer => "Manufacturer"@,
            Machine::Refinery => "Refinery"@,
            Machine::Blender => "Blender"@,
        }
    }

    /// The power that one machine draws at 100% clock speed.
    pub fn base_power(self) -> (p: u32)
        ensures
            p == self.spec_base_power(),
    {
        match self {
            Machine::Smelter => 4,
            Machine::Foundry => 16,
            Machine::Constructor => 4,
            Machine::Assembler => 15,
            Machine::Manufacturer => 55,
            Machine::Refinery => 30,
            Machine::Blender => 75,
        }
    }

    /// The display name of the machine.
    pub fn as_str(self) -> (s: &'static str)
        ensures
            s@ == self.spec_name(),
    {
        match self {
            Machine::Smelter => "Smelter",
            Machine::Foundry => "Foundry",
            Machine::Constructor => "Constructor",
            Machine::Assembler => "Assembler",
            Machine::Manufacturer => "Manufacturer",
            Machine::Refinery => "Refinery",
            Machine::Blender => "Blender",
        }
    }

    /// The display name of the machine, as an owned string.
    pub fn to_string(self) -> (s: String)
        ensures
            s@ == self.spec_name(),
    {
        String::from_str(self.as_str())
    }
}

} // verus!
