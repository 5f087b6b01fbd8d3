//! Recipe items, recipes, the fixed catalog and the filter over it.

use crate::fraction::{frac, lemma_frac_div, lemma_frac_mul, lemma_frac_whole, representable};
use crate::machine::Machine;
use crate::names::{ItemName, RecipeName};
use crate::ratio::Ratio;
use vstd::prelude::*;

verus! {

/// `amount` units of `item`, consumed or produced every `duration` seconds
/// by one machine at 100% clock speed.
#[derive(Clone, Copy, Debug, PartialEq, Eq, Structural)]
pub struct RecipeItem {
    pub item: ItemName,
    pub amount: u32,
    pub duration: u32,
}

impl RecipeItem {
    /// Amount and duration are both positive.
    pub open spec fn wf(self) -> bool {
        self.amount > 0 && self.duration > 0
    }

    /// Items per minute at 100% clock speed: `60 * amount / duration`.
    pub open spec fn spec_base_rate(self) -> real {
        (60 * self.amount) as real / self.duration as real
    }

    /// Items per minute at `clock` percent: the base rate times `clock / 100`.
    pub open spec fn spec_clocked_rate(self, clock: real) -> real {
        self.spec_base_rate() * (clock / 100 as real)
    }

    /// The clocked rate is linear in the clock speed: scaling the clock by
    /// `k` scales the rate by `k`.
    pub proof fn lemma_rate_scales(self, k: real, clock: real)
        ensures
            self.spec_clocked_rate(k * clock) == k * self.spec_clocked_rate(clock),
    {
        let b = self.spec_base_rate();
        assert(b * ((k * clock) / 100 as real) == k * (b * (clock / 100 as real)))
            by (nonlinear_arith);
    }

    /// Doubling the clock speed doubles the rate.
    pub proof fn lemma_rate_doubles(self, clock: real)
        ensures
            self.spec_clocked_rate(2 as real * clock) == 2 as real * self.spec_clocked_rate(
                clock,
            ),
    {
        self.lemma_rate_scales(2 as real, clock);
    }

    /// The rate at a sum of clock speeds is the sum of the rates.
    pub proof fn lemma_rate_adds(self, c1: real, c2: real)
        ensures
            self.spec_clocked_rate(c1 + c2) == self.spec_clocked_rate(c1)
                + self.spec_clocked_rate(c2),
    {
        let b = self.spec_base_rate();
        assert(b * ((c1 + c2) / 100 as real) == b * (c1 / 100 as real) + b * (c2 / 100 as real))
            by (nonlinear_arith);
    }

    /// At 100% the clocked rate is the base rate.
    pub proof fn lemma_rate_at_nominal(self)
        ensures
            self.spec_clocked_rate(100 as real) == self.spec_base_rate(),
    {
        let b = self.spec_base_rate();
        assert(b * (100 as real / 100 as real) == b) by (nonlinear_arith);
    }

    /// Items per minute at 100% clock speed.
    pub fn base_rate(&self) -> (r: Ratio)
        requires
            self.wf(),
        ensures
            r.wf(),
            r@ == self.spec_base_rate(),
    {
        let n: u64 = 60 * (self.amount as u64);
        match Ratio::new(n, self.duration as u64) {
            Some(r) => r,
            None => Ratio::from_integer(0),
        }
    }

    /// Items per minute at `clock` percent. `None` exactly when the rate is
    /// not the quotient of two 64-bit integers.
    pub fn clocked_rate(&self, clock: Ratio) -> (r: Option<Ratio>)
        requires
            self.wf(),
        ensures
            r is None <==> !representable(self.spec_clocked_rate(clock@)),
            r matches Some(x) ==> x.wf() && x@ == self.spec_clocked_rate(clock@),
    {
        let cn: u128 = clock.numer() as u128;
        let cd: u128 = clock.denom() as u128;
        let a: u128 = 60 * (self.amount as u128);
        let b: u128 = 100 * (self.duration as u128);
        assert(a * cn <= u128::MAX && b * cd <= u128::MAX && b * cd > 0) by (nonlinear_arith)
            requires
                0 <= a <= 0xffff_ffff_ffff,
                0 < b <= 0xffff_ffff_ffff,
                0 <= cn <= 0xffff_ffff_ffff_ffff,
                0 < cd <= 0xffff_ffff_ffff_ffff,
        ;
        let n: u128 = a * cn;
        let d: u128 = b * cd;
        proof {
            let dur: int = self.duration as int;
            lemma_frac_whole(100);
            lemma_frac_div(cn as int, cd as int, 100, 1);
            lemma_frac_mul(a as int, dur, cn * 1, cd * 100);
            assert(a * (cn * 1) == n && dur * (cd * 100) == d) by (nonlinear_arith)
                requires
                    n == a * cn,
                    d == b * cd,
                    b == 100 * dur,
            ;
            assert(self.spec_base_rate() == frac(a as int, dur));
            assert(clock@ == frac(cn as int, cd as int));
            assert(self.spec_clocked_rate(clock@) == frac(n as int, d as int));
        }
        Ratio::from_wide(n, d)
    }
}

/// A recipe: what one machine of a kind consumes and produces per cycle.
#[derive(Clone, Debug, PartialEq, Eq)]
pub struct Recipe {
    pub name: RecipeName,
    pub inputs: Vec<RecipeItem>,
    pub outputs: Vec<RecipeItem>,
    pub duration: u32,
    pub machine: Machine,
}

/// The mathematical content of a recipe.
pub struct RecipeModel {
    pub name: RecipeName,
    pub inputs: Seq<RecipeItem>,
    pub outputs: Seq<RecipeItem>,
    pub duration: u32,
    pub machine: Machine,
}

/// Whether a list of recipe items holds an entry for `item`.
pub open spec fn holds_item(items: Seq<RecipeItem>, item: ItemName) -> bool {
    exists|i: int| 0 <= i < items.len() && (#[trigger] items[i]).item == item
}

/// Every entry is well formed and has the duration `duration`.
pub open spec fn items_wf(items: Seq<RecipeItem>, duration: u32) -> bool {
    forall|i: int|
        0 <= i < items.len() ==> (#[trigger] items[i]).wf() && items[i].duration == duration
}

impl RecipeModel {
    /// The duration is positive and shared by every input and output, and
    /// every amount is positive.
    pub open spec fn wf(self) -> bool {
        &&& self.duration > 0
        &&& items_wf(self.inputs, self.duration)
        &&& items_wf(self.outputs, self.duration)
    }

    /// Whether `item` is among the inputs.
    pub open spec fn consumes(self, item: ItemName) -> bool {
        holds_item(self.inputs, item)
    }

    /// Whether `item` is among the outputs.
    pub open spec fn produces(self, item: ItemName) -> bool {
        holds_item(self.outputs, item)
    }
}

impl View for Recipe {
    type V = RecipeModel;

    open spec fn view(&self) -> RecipeModel {
        RecipeModel {
            name: self.name,
            inputs: self.inputs@,
            outputs: self.outputs@,
            duration: self.duration,
            machine: self.machine,
        }
    }
}

/// The models of a list of recipes, in order.
pub open spec fn models(recipes: Seq<Recipe>) -> Seq<RecipeModel> {
    recipes.map_values(|r: Recipe| r@)
}

/// One entry of a recipe.
pub open spec fn entry(item: ItemName, amount: u32, duration: u32) -> RecipeItem {
    RecipeItem { item, amount, duration }
}

/// The recipe that the catalog holds under each name.
pub open spec fn catalog_entry(name: RecipeName) -> RecipeModel {
    match name {
        RecipeName::IronIngot => RecipeModel {
            name,
            duration: 2,
            machine: Machine::Smelter,
            inputs: seq![entry(ItemName::IronOre, 1, 2)],
            outputs: seq![entry(ItemName::IronIngot, 1, 2)],
        },
        RecipeName::PureIronIngot => RecipeModel {
            name,
            duration: 12,
            machine: Machine::Refinery,
            inputs: seq![entry(ItemName::IronOre, 7, 12), entry(ItemName::Water, 4, 12)],
            outputs: seq![entry(ItemName::IronIngot, 13, 12)],
        },
        RecipeName::Fuel => RecipeModel {
            name,
            duration: 6,
            machine: Machine::Refinery,
            inputs: seq![entry(ItemName::CrudeOil, 6, 6)],
            outputs: seq![entry(ItemName::Fuel, 4, 6), entry(ItemName::PolymerResin, 3, 6)],
        },
        RecipeName::ResidualFuel => RecipeModel {
            name,
            duration: 6,
            machine: Machine::Refinery,
            inputs: seq![entry(ItemName::HeavyOilResidue, 6, 6)],
            outputs: seq![entry(ItemName::Fuel, 4, 6)],
        },
        RecipeName::DilutedFuel => RecipeModel {
            name,
            duration: 6,
            machine: Machine::Blender,
            inputs: seq![entry(ItemName::HeavyOilResidue, 5, 6), entry(ItemName::Water, 10, 6)],
            outputs: seq![entry(ItemName::Fuel, 10, 6)],
        },
        RecipeName::Plastic => RecipeModel {
            name,
            duration: 6,
            machine: Machine::Refinery,
            inputs: seq![entry(ItemName::CrudeOil, 3, 6)],
            outputs: seq![entry(ItemName::Plastic, 2, 6), entry(ItemName::HeavyOilResidue, 1, 6)],
        },
        RecipeName::Rubber => RecipeModel {
            name,
            duration: 6,
            machine: Machine::Refinery,
            inputs: seq![entry(ItemName::CrudeOil, 3, 6)],
            outputs: seq![entry(ItemName::Rubber, 2, 6), entry(ItemName::HeavyOilResidue, 2, 6)],
        },
    }
}

/// The whole catalog, in declaration order.
pub open spec fn catalog() -> Seq<RecipeModel> {
    RecipeName::spec_all().map_values(|n: RecipeName| catalog_entry(n))
}

/// Every recipe of the catalog is well formed and stands under its own name.
pub proof fn lemma_catalog_entry_wf(name: RecipeName)
    ensures
        catalog_entry(name).wf(),
        catalog_entry(name).name == name,
{
}

/// Every member of the catalog is well formed.
pub proof fn lemma_catalog_wf(i: int)
    requires
        0 <= i < catalog().len(),
    ensures
        catalog()[i].wf(),
        catalog()[i] == catalog_entry(RecipeName::spec_all()[i]),
        catalog().len() == 7,
{
    lemma_catalog_entry_wf(RecipeName::spec_all()[i]);
}

/// Builds one entry of a recipe.
fn make_entry(item: ItemName, amount: u32, duration: u32) -> (r: RecipeItem)
    ensures
        r == entry(item, amount, duration),
{
    RecipeItem { item, amount, duration }
}

/// The recipe that the catalog holds under `name`.
pub fn recipe(name: RecipeName) -> (r: Recipe)
    ensures
        r@ == catalog_entry(name),
        r@.wf(),
{
    let r = match name {
        RecipeName::IronIngot => Recipe {
            name,
            duration: 2,
            machine: Machine::Smelter,
            inputs: vec![make_entry(ItemName::IronOre, 1, 2)],
            outputs: vec![make_entry(ItemName::IronIngot, 1, 2)],
        },
        RecipeName::PureIronIngot => Recipe {
            name,
            duration: 12,
            machine: Machine::Refinery,
            inputs: vec![make_entry(ItemName::IronOre, 7, 12), make_entry(ItemName::Water, 4, 12)],
            outputs: vec![make_entry(ItemName::IronIngot, 13, 12)],
        },
        RecipeName::Fuel => Recipe {
            name,
            duration: 6,
            machine: Machine::Refinery,
            inputs: vec![make_entry(ItemName::CrudeOil, 6, 6)],
            outputs: vec![
                make_entry(ItemName::Fuel, 4, 6),
                make_entry(ItemName::PolymerResin, 3, 6),
            ],
        },
        RecipeName::ResidualFuel => Recipe {
            name,
            duration: 6,
            machine: Machine::Refinery,
            inputs: vec![make_entry(ItemName::HeavyOilResidue, 6, 6)],
            outputs: vec![make_entry(ItemName::Fuel, 4, 6)],
        },
        RecipeName::DilutedFuel => Recipe {
            name,
            duration: 6,
            machine: Machine::Blender,
            inputs: vec![
                make_entry(ItemName::HeavyOilResidue, 5, 6),
                make_entry(ItemName::Water, 10, 6),
            ],
            outputs: vec![make_entry(ItemName::Fuel, 10, 6)],
        },
        RecipeName::Plastic => Recipe {
            name,
            duration: 6,
            machine: Machine::Refinery,
            inputs: vec![make_entry(ItemName::CrudeOil, 3, 6)],
            outputs: vec![
                make_entry(ItemName::Plastic, 2, 6),
                make_entry(ItemName::HeavyOilResidue, 1, 6),
            ],
        },
        RecipeName::Rubber => Recipe {
            name,
            duration: 6,
            machine: Machine::Refinery,
            inputs: vec![make_entry(ItemName::CrudeOil, 3, 6)],
            outputs: vec![
                make_entry(ItemName::Rubber, 2, 6),
                make_entry(ItemName::HeavyOilResidue, 2, 6),
            ],
        },
    };
    proof {
        assert(r@.inputs =~= catalog_entry(name).inputs);
        assert(r@.outputs =~= catalog_entry(name).outputs);
        lemma_catalog_entry_wf(name);
    }
    r
}

/// The whole catalog, in declaration order.
pub fn all_recipes() -> (v: Vec<Recipe>)
    ensures
        models(v@) == catalog(),
{
    let names = RecipeName::all();
    let mut v: Vec<Recipe> = Vec::new();
    let mut i: usize = 0;
    while i < names.len()
        invariant
            i <= names.len(),
            names@ == RecipeName::spec_all(),
            v@.len() == i,
            forall|j: int| 0 <= j < i ==> (#[trigger] v@[j])@ == catalog_entry(names@[j]),
        decreases names.len() - i,
    {
        v.push(recipe(names[i]));
        i += 1;
    }
    proof {
        assert(models(v@) =~= catalog());
    }
    v
}

/// Whether a list of recipe items holds an entry for `item`.
pub fn has_item(items: &Vec<RecipeItem>, item: ItemName) -> (b: bool)
    ensures
        b == holds_item(items@, item),
{
    let mut i: usize = 0;
    while i < items.len()
        invariant
            i <= items.len(),
            forall|j: int| 0 <= j < i ==> (#[trigger] items@[j]).item != item,
        decreases items.len() - i,
    {
        if items[i].item == item {
            return true;
        }
        i += 1;
    }
    false
}

/// A query over the catalog. A field that is `None` imposes no constraint.
#[derive(Clone, Copy, Debug, PartialEq, Eq, Structural)]
pub struct RecipeFilter {
    pub machine: Option<Machine>,
    pub input_item: Option<ItemName>,
    pub output_item: Option<ItemName>,
}

impl Default for RecipeFilter {
    /// The filter that every recipe matches.
    fn default() -> (f: RecipeFilter)
        ensures
            f.machine is None,
            f.input_item is None,
            f.output_item is None,
    {
        RecipeFilter { machine: None, input_item: None, output_item: None }
    }
}

impl RecipeFilter {
    /// A recipe matches when it runs on the wanted machine, consumes the
    /// wanted input and produces the wanted output, as far as each is given.
    pub open spec fn matches(self, r: RecipeModel) -> bool {
        &&& (self.machine matches Some(m) ==> r.machine == m)
        &&& (self.input_item matches Some(i) ==> r.consumes(i))
        &&& (self.output_item matches Some(i) ==> r.produces(i))
    }

    /// Whether `r` matches every field that the filter gives.
    pub fn accepts(&self, r: &Recipe) -> (b: bool)
        ensures
            b == self.matches(r@),
    {
        if let Some(m) = self.machine {
            if r.machine != m {
                return false;
            }
        }
        if let Some(item) = self.input_item {
            if !has_item(&r.inputs, item) {
                return false;
            }
        }
        if let Some(item) = self.output_item {
            if !has_item(&r.outputs, item) {
                return false;
            }
        }
        true
    }
}

/// The recipes of the catalog that match `filter`, in declaration order.
/// The result is empty when none matches.
pub fn get_recipes(filter: RecipeFilter) -> (v: Vec<Recipe>)
    ensures
        models(v@) == catalog().filter(|r: RecipeModel| filter.matches(r)),
        forall|i: int| 0 <= i < v@.len() ==> (#[trigger] v@[i])@.wf(),
{
    let all = all_recipes();
    let ghost pred = |r: RecipeModel| filter.matches(r);
    let mut v: Vec<Recipe> = Vec::new();
    let mut i: usize = 0;
    proof {
        assert(catalog().take(0) =~= Seq::<RecipeModel>::empty());
        assert(models(v@) =~= Seq::<RecipeModel>::empty());
        reveal(Seq::filter);
    }
    while i < all.len()
        invariant
            i <= all.len(),
            models(all@) == catalog(),
            pred == (|r: RecipeModel| filter.matches(r)),
            models(v@) == catalog().take(i as int).filter(pred),
            forall|j: int| 0 <= j < v@.len() ==> (#[trigger] v@[j])@.wf(),
        decreases all.len() - i,
    {
        let name = all[i].name;
        let keep = filter.accepts(&all[i]);
        proof {
            let head = catalog().take(i as int);
            let next = catalog()[i as int];
            assert(catalog().take(i + 1) =~= head + seq![next]);
            Seq::filter_distributes_over_add(head, seq![next], pred);
            reveal_with_fuel(Seq::filter, 2);
            assert(seq![next].drop_last() =~= Seq::<RecipeModel>::empty());
            assert(seq![next].filter(pred) =~= if pred(next) {
                seq![next]
            } else {
                Seq::<RecipeModel>::empty()
            });
            assert(all@[i as int]@ == next);
        }
        if keep {
            let r = recipe(name);
            proof {
                assert(catalog()[i as int] == catalog_entry(RecipeName::spec_all()[i as int]));
                assert(r@ == all@[i as int]@);
                assert(models(v@.push(r)) =~= models(v@) + seq![r@]);
            }
            v.push(r);
        }
        i += 1;
    }
    proof {
        assert(catalog().take(all.len() as int) =~= catalog());
    }
    v
}

} // verus!
