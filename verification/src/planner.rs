//! The chain planner: machine counts, clock speeds and flows for a sequence
//! of production stages.

use crate::error::PlanError;
use crate::fraction::{
    frac, lemma_frac_div, lemma_frac_eq, lemma_frac_le, lemma_frac_mul, lemma_frac_whole,
    representable,
};
use crate::machine::Machine;
use crate::names::{ItemName, RecipeName};
use crate::ratio::Ratio;
use crate::recipes::{
    catalog, get_recipes, items_wf, Recipe, RecipeFilter, RecipeItem, RecipeModel,
};
use vstd::prelude::*;

verus! {

/// The highest clock speed of a machine, in percent.
pub const MAX_CLOCK_PERCENT: u64 = 250;

/// The least integer that is not below `x`.
pub open spec fn ceil(x: real) -> int {
    -((-x).floor())
}

/// The number of machines for a required rate of the driving item: the
/// least count whose machines, all at the highest clock speed, reach it.
pub open spec fn machines_needed(driving: RecipeItem, required: real) -> int {
    ceil(required / driving.spec_clocked_rate(MAX_CLOCK_PERCENT as real))
}

/// The clock speed, in percent, at which `count` machines produce exactly
/// the required rate of the driving item.
pub open spec fn clock_needed(driving: RecipeItem, required: real, count: int) -> real {
    100 as real * required / (count as real * driving.spec_base_rate())
}

/// `ceil(x)` is the least integer that is not below `x`.
pub proof fn lemma_ceil_is_least(x: real)
    ensures
        ceil(x) as real >= x,
        ((ceil(x) - 1) as real) < x,
{
    let f: int = (-x).floor();
    assert(f as real <= -x && -x < (f + 1) as real);
}

/// The ceiling of a fraction of a non-negative by a positive integer is the
/// rounded-up integer quotient.
pub proof fn lemma_ceil_frac(n: int, m: int)
    requires
        n >= 0,
        m > 0,
    ensures
        ceil(frac(n, m)) == (n + m - 1) / m,
        ((n + m - 1) / m) * m >= n,
        ((n + m - 1) / m) * m <= n + m - 1,
{
    let c: int = (n + m - 1) / m;
    assert(c * m <= n + m - 1 && n + m - 1 < c * m + m) by (nonlinear_arith)
        requires
            c == (n + m - 1) / m,
            m > 0,
    ;
    lemma_frac_whole(c);
    lemma_frac_whole(c - 1);
    lemma_frac_le(n, m, c, 1);
    lemma_frac_le(c - 1, 1, n, m);
    assert((c - 1) * m == c * m - m) by (nonlinear_arith);
    lemma_ceil_is_least(frac(n, m));
}

/// Count and clock speed of a stage meet the required rate: the count
/// suffices at the highest clock speed, the clock speed lies in (0, 250],
/// and the machines together produce the required rate exactly.
pub proof fn lemma_stage_meets_target(driving: RecipeItem, required: real)
    requires
        driving.wf(),
        required > 0 as real,
    ensures
        machines_needed(driving, required) >= 1,
        machines_needed(driving, required) as real * driving.spec_clocked_rate(
            MAX_CLOCK_PERCENT as real,
        ) >= required,
        (0 as real) < clock_needed(driving, required, machines_needed(driving, required)),
        clock_needed(driving, required, machines_needed(driving, required))
            <= MAX_CLOCK_PERCENT as real,
        machines_needed(driving, required) as real * driving.spec_clocked_rate(
            clock_needed(driving, required, machines_needed(driving, required)),
        ) == required,
{
    let base = driving.spec_base_rate();
    let top = driving.spec_clocked_rate(MAX_CLOCK_PERCENT as real);
    let n = machines_needed(driving, required);
    let c = clock_needed(driving, required, n);
    assert(base > 0 as real) by (nonlinear_arith)
        requires
            base == (60 * driving.amount) as real / driving.duration as real,
            driving.amount > 0,
            driving.duration > 0,
    ;
    assert(top > 0 as real && top * 100 as real == base * 250 as real) by (nonlinear_arith)
        requires
            top == base * (250 as real / 100 as real),
            base > 0 as real,
    ;
    let x = required / top;
    lemma_ceil_is_least(x);
    assert(x > 0 as real && x * top == required) by (nonlinear_arith)
        requires
            x == required / top,
            top > 0 as real,
            required > 0 as real,
    ;
    assert(n >= 1);
    assert(n as real * top >= required) by (nonlinear_arith)
        requires
            n as real >= x,
            x * top == required,
            top > 0 as real,
    ;
    let nb = n as real * base;
    assert(nb > 0 as real) by (nonlinear_arith)
        requires
            nb == n as real * base,
            n >= 1,
            base > 0 as real,
    ;
    assert(c > 0 as real && c * nb == 100 as real * required) by (nonlinear_arith)
        requires
            c == 100 as real * required / nb,
            nb > 0 as real,
            required > 0 as real,
    ;
    assert(c <= 250 as real) by (nonlinear_arith)
        requires
            c * nb == 100 as real * required,
            nb == n as real * base,
            n as real * top >= required,
            top * 100 as real == base * 250 as real,
            nb > 0 as real,
    ;
    assert(n as real * (base * (c / 100 as real)) == required) by (nonlinear_arith)
        requires
            c * nb == 100 as real * required,
            nb == n as real * base,
    ;
}

/// No smaller count of machines reaches the required rate, even at the
/// highest clock speed.
pub proof fn lemma_count_is_least(driving: RecipeItem, required: real, m: int)
    requires
        driving.wf(),
        required > 0 as real,
        m as real * driving.spec_clocked_rate(MAX_CLOCK_PERCENT as real) >= required,
    ensures
        m >= machines_needed(driving, required),
{
    let base = driving.spec_base_rate();
    let top = driving.spec_clocked_rate(MAX_CLOCK_PERCENT as real);
    assert(base > 0 as real) by (nonlinear_arith)
        requires
            base == (60 * driving.amount) as real / driving.duration as real,
            driving.amount > 0,
            driving.duration > 0,
    ;
    assert(top > 0 as real) by (nonlinear_arith)
        requires
            top == base * (250 as real / 100 as real),
            base > 0 as real,
    ;
    let x = required / top;
    assert(m as real >= x) by (nonlinear_arith)
        requires
            m as real * top >= required,
            x == required / top,
            top > 0 as real,
    ;
    lemma_ceil_is_least(x);
}

/// The side of a recipe on which an item stands.
#[derive(Clone, Copy, Debug, PartialEq, Eq, Structural)]
pub enum Side {
    /// The item is consumed.
    Input,
    /// The item is produced.
    Output,
}

/// The rate, in items per minute, at which a stage consumes or produces an
/// item.
#[derive(Clone, Copy, Debug, PartialEq, Eq, Structural)]
pub struct Flow {
    pub item: ItemName,
    pub rate: Ratio,
}

/// The mathematical content of a flow.
pub struct FlowModel {
    pub item: ItemName,
    pub rate: real,
}

impl View for Flow {
    type V = FlowModel;

    open spec fn view(&self) -> FlowModel {
        FlowModel { item: self.item, rate: self.rate@ }
    }
}

/// The models of a list of flows, in order.
pub open spec fn flow_views(flows: Seq<Flow>) -> Seq<FlowModel> {
    flows.map_values(|f: Flow| f@)
}

/// Every rate of the list is a well-formed ratio.
pub open spec fn flows_wf(flows: Seq<Flow>) -> bool {
    forall|i: int| 0 <= i < flows.len() ==> (#[trigger] flows[i]).rate.wf()
}

/// The plan of one stage: how many machines of which kind run which recipe
/// at which clock speed, and what they consume and produce.
#[derive(Clone, Debug, PartialEq, Eq)]
pub struct StagePlan {
    pub recipe: RecipeName,
    pub machine: Machine,
    pub machine_count: u64,
    pub clock_percent: Ratio,
    pub inputs: Vec<Flow>,
    pub outputs: Vec<Flow>,
}

/// The mathematical content of a stage plan.
pub struct StageModel {
    pub recipe: RecipeName,
    pub machine: Machine,
    pub machine_count: int,
    pub clock_percent: real,
    pub inputs: Seq<FlowModel>,
    pub outputs: Seq<FlowModel>,
}

impl View for StagePlan {
    type V = StageModel;

    open spec fn view(&self) -> StageModel {
        StageModel {
            recipe: self.recipe,
            machine: self.machine,
            machine_count: self.machine_count as int,
            clock_percent: self.clock_percent@,
            inputs: flow_views(self.inputs@),
            outputs: flow_views(self.outputs@),
        }
    }
}

impl StagePlan {
    /// The clock speed and every rate are well-formed ratios.
    pub open spec fn wf(self) -> bool {
        &&& self.clock_percent.wf()
        &&& flows_wf(self.inputs@)
        &&& flows_wf(self.outputs@)
    }
}

/// Every rate of the list is the quotient of two 64-bit integers.
pub open spec fn flows_fit(flows: Seq<FlowModel>) -> bool {
    forall|i: int| 0 <= i < flows.len() ==> representable((#[trigger] flows[i]).rate)
}

impl StageModel {
    /// The count fits in 64 bits, and the clock speed and every rate are
    /// quotients of two 64-bit integers.
    pub open spec fn fits(self) -> bool {
        &&& self.machine_count <= u64::MAX
        &&& representable(self.clock_percent)
        &&& flows_fit(self.inputs)
        &&& flows_fit(self.outputs)
    }
}

/// The entries of a recipe on one side.
pub open spec fn entries_on(recipe: RecipeModel, side: Side) -> Seq<RecipeItem> {
    match side {
        Side::Input => recipe.inputs,
        Side::Output => recipe.outputs,
    }
}

/// The first entry for `item` at or after position `i`.
pub open spec fn entry_from(items: Seq<RecipeItem>, item: ItemName, i: int) -> Option<RecipeItem>
    decreases items.len() - i,
{
    if i < 0 || i >= items.len() {
        None
    } else if items[i].item == item {
        Some(items[i])
    } else {
        entry_from(items, item, i + 1)
    }
}

/// The flow of one recipe entry for `count` machines at `clock` percent.
pub open spec fn flow_of(e: RecipeItem, count: int, clock: real) -> FlowModel {
    FlowModel { item: e.item, rate: count as real * e.spec_clocked_rate(clock) }
}

/// The flows of the entries of one side of a recipe.
pub open spec fn flows_of(items: Seq<RecipeItem>, count: int, clock: real) -> Seq<FlowModel> {
    items.map_values(|e: RecipeItem| flow_of(e, count, clock))
}

/// The plan of one stage that runs `recipe` so that the item `item` on side
/// `side` flows at the rate `required`.
///
/// A rate that is not positive is an invalid rate. A recipe without the item
/// on that side does not match. Otherwise count and clock speed are
/// `machines_needed` and `clock_needed`, and every entry of the recipe flows
/// at the rate of `count` machines at that clock speed; a plan with a
/// quantity outside the exact 64-bit ratios is an invalid rate.
pub open spec fn stage_model(recipe: RecipeModel, side: Side, item: ItemName, required: real)
    -> Result<StageModel, PlanError> {
    if required <= 0 as real {
        Err(PlanError::InvalidRate)
    } else {
        match entry_from(entries_on(recipe, side), item, 0) {
            None => Err(PlanError::NoMatchingRecipe),
            Some(driving) => {
                let count = machines_needed(driving, required);
                let clock = clock_needed(driving, required, count);
                let plan = StageModel {
                    recipe: recipe.name,
                    machine: recipe.machine,
                    machine_count: count,
                    clock_percent: clock,
                    inputs: flows_of(recipe.inputs, count, clock),
                    outputs: flows_of(recipe.outputs, count, clock),
                };
                if plan.fits() {
                    Ok(plan)
                } else {
                    Err(PlanError::InvalidRate)
                }
            },
        }
    }
}

/// The load of a stage, the required rate `p / q` over the highest rate of
/// one machine, is `p * duration / (150 * q * amount)`; the count of
/// machines is that quotient rounded up.
pub proof fn lemma_load(driving: RecipeItem, p: int, q: int)
    requires
        driving.wf(),
        p >= 0,
        q > 0,
    ensures
        150 * q * driving.amount > 0,
        frac(p, q) / driving.spec_clocked_rate(MAX_CLOCK_PERCENT as real) == frac(
            p * driving.duration,
            150 * q * driving.amount,
        ),
        machines_needed(driving, frac(p, q)) == (p * driving.duration + 150 * q * driving.amount
            - 1) / (150 * q * driving.amount),
{
    lemma_load_fraction(driving, p, q);
    assert(p * driving.duration >= 0) by (nonlinear_arith)
        requires
            p >= 0,
            driving.duration > 0,
    ;
    lemma_ceil_frac(p * driving.duration, 150 * q * driving.amount);
}

/// The load of a stage as a fraction of integers.
proof fn lemma_load_fraction(driving: RecipeItem, p: int, q: int)
    requires
        driving.wf(),
        q > 0,
    ensures
        150 * q * driving.amount > 0,
        frac(p, q) / driving.spec_clocked_rate(MAX_CLOCK_PERCENT as real) == frac(
            p * driving.duration,
            150 * q * driving.amount,
        ),
{
    let a: int = driving.amount as int;
    let t: int = driving.duration as int;
    lemma_frac_whole(250);
    lemma_frac_whole(100);
    lemma_frac_div(250, 1, 100, 1);
    lemma_frac_mul(60 * a, t, 250int * 1, 1int * 100);
    assert((60 * a) * (250int * 1) != 0 && t * (1int * 100) > 0 && 150 * q * a > 0 && q * ((60 * a) * (
    250int * 1)) > 0) by (nonlinear_arith)
        requires
            a > 0,
            t > 0,
            q > 0,
    ;
    lemma_frac_div(p, q, (60 * a) * (250int * 1), t * (1int * 100));
    lemma_frac_eq(p * (t * (1int * 100)), q * ((60 * a) * (250int * 1)), p * t, 150 * q * a);
    assert((p * (t * (1int * 100))) * (150 * q * a) == (p * t) * (q * ((60 * a) * (250int * 1))))
        by (nonlinear_arith);
}

/// The clock speed at which `n` machines reach the rate `p / q` is
/// `5 * p * duration / (3 * q * amount * n)` percent.
pub proof fn lemma_clock(driving: RecipeItem, p: int, q: int, n: int)
    requires
        driving.wf(),
        q > 0,
        n > 0,
    ensures
        3 * q * driving.amount * n > 0,
        clock_needed(driving, frac(p, q), n) == frac(
            5 * (p * driving.duration),
            3 * q * driving.amount * n,
        ),
{
    let a: int = driving.amount as int;
    let t: int = driving.duration as int;
    lemma_frac_whole(100);
    lemma_frac_whole(n);
    lemma_frac_mul(100, 1, p, q);
    lemma_frac_mul(n, 1, 60 * a, t);
    assert(n * (60 * a) != 0 && 1int * t > 0 && 3 * q * a * n > 0 && (1int * q) * (n * (60 * a)) > 0)
        by (nonlinear_arith)
        requires
            a > 0,
            t > 0,
            q > 0,
            n > 0,
    ;
    lemma_frac_div(100 * p, 1int * q, n * (60 * a), 1int * t);
    lemma_frac_eq((100 * p) * (1int * t), (1int * q) * (n * (60 * a)), 5 * (p * t), 3 * q * a * n);
    assert(((100 * p) * (1int * t)) * (3 * q * a * n) == (5 * (p * t)) * ((1int * q) * (n * (60 * a))))
        by (nonlinear_arith);
}

/// The flow of an entry of the recipe is the required rate `p / q` of the
/// driving item, scaled by the quotient of the two amounts.
pub proof fn lemma_flow(driving: RecipeItem, e: RecipeItem, p: int, q: int, n: int)
    requires
        driving.wf(),
        e.wf(),
        e.duration == driving.duration,
        q > 0,
        n > 0,
    ensures
        q * driving.amount > 0,
        flow_of(e, n, clock_needed(driving, frac(p, q), n)).rate == frac(
            p * e.amount,
            q * driving.amount,
        ),
{
    let a: int = driving.amount as int;
    let b: int = e.amount as int;
    let t: int = driving.duration as int;
    let req = frac(p, q);
    let bd = driving.spec_base_rate();
    let be = e.spec_base_rate();
    let c = clock_needed(driving, req, n);
    let nr = n as real;
    assert(bd > 0 as real) by (nonlinear_arith)
        requires
            bd == (60 * a) as real / t as real,
            a > 0,
            t > 0,
    ;
    let nb = nr * bd;
    assert(nb > 0 as real) by (nonlinear_arith)
        requires
            nb == nr * bd,
            nr >= 1 as real,
            bd > 0 as real,
    ;
    assert(c * nb == 100 as real * req) by (nonlinear_arith)
        requires
            c == 100 as real * req / nb,
            nb > 0 as real,
    ;
    let share = be / bd;
    assert(nr * (be * (c / 100 as real)) == req * share) by (nonlinear_arith)
        requires
            c * nb == 100 as real * req,
            nb == nr * bd,
            share == be / bd,
            bd > 0 as real,
            nr >= 1 as real,
    ;
    assert(t * (60 * a) != 0 && 60 * a != 0 && q * a > 0) by (nonlinear_arith)
        requires
            a > 0,
            t > 0,
            q > 0,
    ;
    lemma_frac_div(60 * b, t, 60 * a, t);
    lemma_frac_eq((60 * b) * t, t * (60 * a), b, a);
    assert(((60 * b) * t) * a == b * (t * (60 * a))) by (nonlinear_arith);
    lemma_frac_mul(p, q, b, a);
}

/// An entry that `entry_from` finds is a member of the list and names the
/// item that was asked for.
pub proof fn lemma_entry_is_member(items: Seq<RecipeItem>, item: ItemName, i: int)
    requires
        0 <= i,
    ensures
        entry_from(items, item, i) matches Some(e) ==> e.item == item && exists|j: int|
            i <= j < items.len() && items[j] == e,
        entry_from(items, item, i) is None ==> forall|j: int|
            i <= j < items.len() ==> (#[trigger] items[j]).item != item,
    decreases items.len() - i,
{
    if i < items.len() && items[i].item != item {
        lemma_entry_is_member(items, item, i + 1);
    }
}

/// The first entry of `items` for `item`, if there is one.
pub fn find_entry(items: &Vec<RecipeItem>, item: ItemName) -> (r: Option<RecipeItem>)
    ensures
        r == entry_from(items@, item, 0),
{
    let mut i: usize = 0;
    while i < items.len()
        invariant
            i <= items.len(),
            entry_from(items@, item, 0) == entry_from(items@, item, i as int),
        decreases items.len() - i,
    {
        if items[i].item == item {
            return Some(items[i]);
        }
        i += 1;
    }
    None
}

/// Accepts a clock speed in the interval from 0 (exclusive) to 250
/// (inclusive) percent and rejects any other.
pub fn check_clock(clock: Ratio) -> (r: Result<(), PlanError>)
    ensures
        r is Ok <==> (0 as real) < clock@ && clock@ <= MAX_CLOCK_PERCENT as real,
        r is Err ==> r == Err::<(), PlanError>(PlanError::ClockOutOfRange),
{
    let top = Ratio::from_integer(MAX_CLOCK_PERCENT);
    if clock.is_positive() && clock.le(top) {
        Ok(())
    } else {
        Err(PlanError::ClockOutOfRange)
    }
}

/// The flows of the entries of one side of a recipe, for the stage whose
/// driving entry is `driving` and whose required rate is `required`.
fn scale_flows(
    items: &Vec<RecipeItem>,
    driving: RecipeItem,
    required: Ratio,
    Ghost(count): Ghost<int>,
    Ghost(clock): Ghost<real>,
) -> (r: Option<Vec<Flow>>)
    requires
        driving.wf(),
        items_wf(items@, driving.duration),
        count > 0,
        clock == clock_needed(driving, required@, count),
    ensures
        r is None <==> !flows_fit(flows_of(items@, count, clock)),
        r matches Some(v) ==> flow_views(v@) == flows_of(items@, count, clock) && flows_wf(v@),
{
    let p: u128 = required.numer() as u128;
    let q: u128 = required.denom() as u128;
    let a: u128 = driving.amount as u128;
    let ghost want = flows_of(items@, count, clock);
    let mut v: Vec<Flow> = Vec::new();
    let mut i: usize = 0;
    while i < items.len()
        invariant
            i <= items.len(),
            driving.wf(),
            items_wf(items@, driving.duration),
            count > 0,
            clock == clock_needed(driving, required@, count),
            want == flows_of(items@, count, clock),
            p == required.spec_numer(),
            q == required.spec_denom(),
            q > 0,
            a == driving.amount,
            v@.len() == i,
            flows_wf(v@),
            forall|j: int| 0 <= j < i ==> (#[trigger] v@[j])@ == want[j],
            forall|j: int| 0 <= j < i ==> representable((#[trigger] want[j]).rate),
        decreases items.len() - i,
    {
        let e = items[i];
        let b: u128 = e.amount as u128;
        assert(p * b <= u128::MAX && q * a <= u128::MAX) by (nonlinear_arith)
            requires
                0 <= p <= 0xffff_ffff_ffff_ffff,
                0 <= q <= 0xffff_ffff_ffff_ffff,
                0 <= a <= 0xffff_ffff,
                0 <= b <= 0xffff_ffff,
        ;
        proof {
            assert(e == items@[i as int]);
            lemma_flow(driving, e, p as int, q as int, count);
            assert(want[i as int] == flow_of(e, count, clock));
        }
        match Ratio::from_wide(p * b, q * a) {
            None => {
                assert(!representable(want[i as int].rate));
                return None;
            },
            Some(rate) => {
                v.push(Flow { item: e.item, rate });
            },
        }
        i += 1;
    }
    proof {
        assert(flow_views(v@) =~= want);
    }
    Some(v)
}

/// Plans one stage: `recipe` is run so that the item `item` on side `side`
/// flows at the rate `required`.
///
/// The count of machines is the least that reaches the rate at the highest
/// clock speed, and the clock speed is the one at which that count produces
/// the rate exactly. Every entry of the recipe is scaled by both.
pub fn plan_stage(recipe: &Recipe, side: Side, item: ItemName, required: Ratio) -> (r: Result<
    StagePlan,
    PlanError,
>)
    requires
        recipe@.wf(),
    ensures
        match (r, stage_model(recipe@, side, item, required@)) {
            (Ok(plan), Ok(model)) => plan@ == model && plan.wf(),
            (Err(e), Err(f)) => e == f,
            _ => false,
        },
{
    if !required.is_positive() {
        return Err(PlanError::InvalidRate);
    }
    let found = match side {
        Side::Input => find_entry(&recipe.inputs, item),
        Side::Output => find_entry(&recipe.outputs, item),
    };
    let driving = match found {
        None => {
            return Err(PlanError::NoMatchingRecipe);
        },
        Some(d) => d,
    };
    proof {
        lemma_entry_is_member(entries_on(recipe@, side), item, 0);
    }
    let p: u128 = required.numer() as u128;
    let q: u128 = required.denom() as u128;
    let a: u128 = driving.amount as u128;
    let t: u128 = driving.duration as u128;
    assert(p * t < 0x1_0000_0000_0000_0000_0000_0000 && 3 * q * a
        < 0x4_0000_0000_0000_0000_0000_0000 && p * t > 0 && 3 * q * a > 0) by (nonlinear_arith)
        requires
            0 < p <= 0xffff_ffff_ffff_ffff,
            0 < q <= 0xffff_ffff_ffff_ffff,
            0 < a <= 0xffff_ffff,
            0 < t <= 0xffff_ffff,
    ;
    let load_num: u128 = p * t;
    let clock_unit: u128 = 3 * q * a;
    let load_den: u128 = 50 * clock_unit;
    let count_wide: u128 = (load_num + load_den - 1) / load_den;
    let ghost count: int = machines_needed(driving, required@);
    let ghost clock: real = clock_needed(driving, required@, count);
    proof {
        lemma_load(driving, p as int, q as int);
        assert(150 * q * a == load_den) by (nonlinear_arith)
            requires
                load_den == 50 * clock_unit,
                clock_unit == 3 * q * a,
        ;
        lemma_ceil_frac(load_num as int, load_den as int);
        assert(count == count_wide);
        lemma_stage_meets_target(driving, required@);
        lemma_clock(driving, p as int, q as int, count);
        assert(clock_unit * count_wide <= count_wide * load_den) by (nonlinear_arith)
            requires
                load_den == 50 * clock_unit,
                count_wide >= 0,
                clock_unit >= 0,
        ;
        assert(3 * q * a * count == clock_unit * count_wide) by (nonlinear_arith)
            requires
                clock_unit == 3 * q * a,
                count == count_wide,
        ;
    }
    if count_wide > u64::MAX as u128 {
        return Err(PlanError::InvalidRate);
    }
    let clock_percent = match Ratio::from_wide(5 * load_num, clock_unit * count_wide) {
        None => {
            return Err(PlanError::InvalidRate);
        },
        Some(c) => c,
    };
    match check_clock(clock_percent) {
        Err(e) => {
            return Err(e);
        },
        Ok(_) => {},
    }
    let inputs = match scale_flows(&recipe.inputs, driving, required, Ghost(count), Ghost(clock)) {
        None => {
            return Err(PlanError::InvalidRate);
        },
        Some(v) => v,
    };
    let outputs = match scale_flows(
        &recipe.outputs,
        driving,
        required,
        Ghost(count),
        Ghost(clock),
    ) {
        None => {
            return Err(PlanError::InvalidRate);
        },
        Some(v) => v,
    };
    Ok(
        StagePlan {
            recipe: recipe.name,
            machine: recipe.machine,
            machine_count: count_wide as u64,
            clock_percent,
            inputs,
            outputs,
        },
    )
}

/// One stage of a chain: a kind of machine and the item that drives it,
/// with the side of the recipe on which that item stands.
#[derive(Clone, Copy, Debug, PartialEq, Eq, Structural)]
pub struct Stage {
    pub machine: Machine,
    pub driving_item: ItemName,
    pub side: Side,
}

impl Stage {
    /// The query that selects the recipe of the stage: the machine, and the
    /// driving item on its side.
    pub open spec fn spec_filter(self) -> RecipeFilter {
        match self.side {
            Side::Input => RecipeFilter {
                machine: Some(self.machine),
                input_item: Some(self.driving_item),
                output_item: None,
            },
            Side::Output => RecipeFilter {
                machine: Some(self.machine),
                input_item: None,
                output_item: Some(self.driving_item),
            },
        }
    }

    /// The query that selects the recipe of the stage.
    pub fn filter(&self) -> (f: RecipeFilter)
        ensures
            f == self.spec_filter(),
    {
        match self.side {
            Side::Input => RecipeFilter {
                machine: Some(self.machine),
                input_item: Some(self.driving_item),
                output_item: None,
            },
            Side::Output => RecipeFilter {
                machine: Some(self.machine),
                input_item: None,
                output_item: Some(self.driving_item),
            },
        }
    }
}

/// The recipe of a stage: the first of the catalog that matches its query.
pub open spec fn selected_recipe(stage: Stage) -> Option<RecipeModel> {
    let found = catalog().filter(|r: RecipeModel| stage.spec_filter().matches(r));
    if found.len() == 0 {
        None
    } else {
        Some(found[0])
    }
}

/// The rate of the first flow of `item` at or after position `i`.
pub open spec fn rate_from(flows: Seq<FlowModel>, item: ItemName, i: int) -> Option<real>
    decreases flows.len() - i,
{
    if i < 0 || i >= flows.len() {
        None
    } else if flows[i].item == item {
        Some(flows[i].rate)
    } else {
        rate_from(flows, item, i + 1)
    }
}

/// The rate that a stage has to reach: the target for the first stage, and
/// for a later one what the stage before it produces of the driving item.
pub open spec fn required_rate(done: Seq<StageModel>, stage: Stage, target: real) -> Option<real> {
    if done.len() == 0 {
        Some(target)
    } else {
        rate_from(done.last().outputs, stage.driving_item, 0)
    }
}

/// The plans of the first `k` stages of a chain, or the first failure among
/// them. A stage without a recipe in the catalog, or whose driving item the
/// stage before it does not produce, has no matching recipe.
pub open spec fn chain_prefix(stages: Seq<Stage>, target: real, k: nat) -> Result<
    Seq<StageModel>,
    PlanError,
>
    decreases k,
{
    if k == 0 {
        Ok(Seq::empty())
    } else {
        match chain_prefix(stages, target, (k - 1) as nat) {
            Err(e) => Err(e),
            Ok(done) => {
                let stage = stages[k - 1];
                match (selected_recipe(stage), required_rate(done, stage, target)) {
                    (Some(recipe), Some(required)) => match stage_model(
                        recipe,
                        stage.side,
                        stage.driving_item,
                        required,
                    ) {
                        Err(e) => Err(e),
                        Ok(plan) => Ok(done.push(plan)),
                    },
                    _ => Err(PlanError::NoMatchingRecipe),
                }
            },
        }
    }
}

/// The plan of a whole chain for a target rate of the first stage's driving
/// item. A target that is not positive is an invalid rate, whatever the
/// chain.
pub open spec fn chain_model(stages: Seq<Stage>, target: real) -> Result<
    Seq<StageModel>,
    PlanError,
> {
    if target <= 0 as real {
        Err(PlanError::InvalidRate)
    } else {
        chain_prefix(stages, target, stages.len())
    }
}

/// The flows of a stage plan on one side.
pub open spec fn flows_on(plan: StageModel, side: Side) -> Seq<FlowModel> {
    match side {
        Side::Input => plan.inputs,
        Side::Output => plan.outputs,
    }
}

/// The first flow of an item among the flows of a list of entries is the
/// flow of the first entry for that item.
pub proof fn lemma_rate_of_entry(
    items: Seq<RecipeItem>,
    item: ItemName,
    i: int,
    count: int,
    clock: real,
)
    requires
        0 <= i,
    ensures
        rate_from(flows_of(items, count, clock), item, i) == match entry_from(items, item, i) {
            Some(e) => Some(flow_of(e, count, clock).rate),
            None => None,
        },
    decreases items.len() - i,
{
    if i < items.len() {
        assert(flows_of(items, count, clock)[i] == flow_of(items[i], count, clock));
        if items[i].item != item {
            lemma_rate_of_entry(items, item, i + 1, count, clock);
        }
    }
}

/// What every plan of a stage keeps: it names the recipe and its machine,
/// it has at least one machine, its clock speed lies in (0, 250], it has
/// one flow for each entry of the recipe, and its driving item flows at
/// exactly the required rate.
pub proof fn lemma_stage_plan_invariants(
    recipe: RecipeModel,
    side: Side,
    item: ItemName,
    required: real,
)
    requires
        recipe.wf(),
        stage_model(recipe, side, item, required) is Ok,
    ensures
        ({
            let plan = stage_model(recipe, side, item, required)->Ok_0;
            &&& plan.recipe == recipe.name
            &&& plan.machine == recipe.machine
            &&& plan.machine_count >= 1
            &&& (0 as real) < plan.clock_percent
            &&& plan.clock_percent <= MAX_CLOCK_PERCENT as real
            &&& plan.inputs.len() == recipe.inputs.len()
            &&& plan.outputs.len() == recipe.outputs.len()
            &&& rate_from(flows_on(plan, side), item, 0) == Some(required)
        }),
{
    let entries = entries_on(recipe, side);
    let driving = entry_from(entries, item, 0)->0;
    lemma_entry_is_member(entries, item, 0);
    let count = machines_needed(driving, required);
    let clock = clock_needed(driving, required, count);
    lemma_stage_meets_target(driving, required);
    lemma_rate_of_entry(entries, item, 0, count, clock);
}

/// The models of a list of stage plans, in order.
pub open spec fn plan_views(plans: Seq<StagePlan>) -> Seq<StageModel> {
    plans.map_values(|p: StagePlan| p@)
}

/// Every plan of the list is well formed.
pub open spec fn plans_wf(plans: Seq<StagePlan>) -> bool {
    forall|i: int| 0 <= i < plans.len() ==> (#[trigger] plans[i]).wf()
}

/// Whether `r` is the outcome that the model `m` asks for: the same error,
/// or well-formed plans whose models are those of `m`.
pub open spec fn is_outcome(r: Result<Vec<StagePlan>, PlanError>, m: Result<
    Seq<StageModel>,
    PlanError,
>) -> bool {
    match (r, m) {
        (Ok(plans), Ok(list)) => plan_views(plans@) == list && plans_wf(plans@),
        (Err(e), Err(f)) => e == f,
        _ => false,
    }
}

/// Two well-formed lists of flows with the same models are the same list.
pub proof fn lemma_flows_are_unique(a: Seq<Flow>, b: Seq<Flow>)
    requires
        flows_wf(a),
        flows_wf(b),
        flow_views(a) == flow_views(b),
    ensures
        a == b,
{
    assert(a.len() == flow_views(a).len());
    assert(b.len() == flow_views(b).len());
    assert forall|i: int| 0 <= i < a.len() implies a[i] == b[i] by {
        assert(flow_views(a)[i] == a[i]@);
        assert(flow_views(b)[i] == b[i]@);
        a[i].rate.lemma_canonical(b[i].rate);
    }
    assert(a =~= b);
}

/// Two well-formed stage plans with the same model agree in every field.
pub proof fn lemma_plan_is_unique(a: StagePlan, b: StagePlan)
    requires
        a.wf(),
        b.wf(),
        a@ == b@,
    ensures
        a.recipe == b.recipe,
        a.machine == b.machine,
        a.machine_count == b.machine_count,
        a.clock_percent == b.clock_percent,
        a.inputs@ == b.inputs@,
        a.outputs@ == b.outputs@,
{
    a.clock_percent.lemma_canonical(b.clock_percent);
    lemma_flows_are_unique(a.inputs@, b.inputs@);
    lemma_flows_are_unique(a.outputs@, b.outputs@);
}

/// Planning is repeatable: two outcomes for one chain and one target are
/// the same error, or lists of equal length whose plans agree in every
/// field, down to the numerator and denominator of each ratio.
pub proof fn lemma_planning_is_repeatable(
    stages: Seq<Stage>,
    target: real,
    first: Result<Vec<StagePlan>, PlanError>,
    second: Result<Vec<StagePlan>, PlanError>,
)
    requires
        is_outcome(first, chain_model(stages, target)),
        is_outcome(second, chain_model(stages, target)),
    ensures
        first is Err ==> second is Err && first->Err_0 == second->Err_0,
        first matches Ok(a) ==> second matches Ok(b) && a@.len() == b@.len() && forall|i: int|
            0 <= i < a@.len() ==> {
                &&& (#[trigger] a@[i]).recipe == b@[i].recipe
                &&& a@[i].machine == b@[i].machine
                &&& a@[i].machine_count == b@[i].machine_count
                &&& a@[i].clock_percent == b@[i].clock_percent
                &&& a@[i].inputs@ == b@[i].inputs@
                &&& a@[i].outputs@ == b@[i].outputs@
            },
{
    if let Ok(a) = first {
        let b = second->Ok_0;
        assert(a@.len() == plan_views(a@).len());
        assert(b@.len() == plan_views(b@).len());
        assert forall|i: int| 0 <= i < a@.len() implies {
            &&& (#[trigger] a@[i]).recipe == b@[i].recipe
            &&& a@[i].machine == b@[i].machine
            &&& a@[i].machine_count == b@[i].machine_count
            &&& a@[i].clock_percent == b@[i].clock_percent
            &&& a@[i].inputs@ == b@[i].inputs@
            &&& a@[i].outputs@ == b@[i].outputs@
        } by {
            assert(plan_views(a@)[i] == a@[i]@);
            assert(plan_views(b@)[i] == b@[i]@);
            lemma_plan_is_unique(a@[i], b@[i]);
        }
    }
}

/// A failure among the first stages of a chain is the failure of every
/// longer prefix.
pub proof fn lemma_failure_stays(stages: Seq<Stage>, target: real, k: nat, n: nat)
    requires
        k <= n,
        chain_prefix(stages, target, k) is Err,
    ensures
        chain_prefix(stages, target, n) == chain_prefix(stages, target, k),
    decreases n,
{
    if k < n {
        lemma_failure_stays(stages, target, k, (n - 1) as nat);
    }
}

/// The rate of the first flow of `item`, if there is one.
pub fn find_rate(flows: &Vec<Flow>, item: ItemName) -> (r: Option<Ratio>)
    ensures
        match (r, rate_from(flow_views(flows@), item, 0)) {
            (Some(x), Some(y)) => x@ == y,
            (None, None) => true,
            _ => false,
        },
        r matches Some(x) ==> exists|i: int|
            0 <= i < flows@.len() && #[trigger] flows@[i] == (Flow { item, rate: x }),
        r is None ==> forall|i: int| 0 <= i < flows@.len() ==> (#[trigger] flows@[i]).item != item,
{
    let mut i: usize = 0;
    while i < flows.len()
        invariant
            i <= flows.len(),
            rate_from(flow_views(flows@), item, 0) == rate_from(
                flow_views(flows@),
                item,
                i as int,
            ),
            forall|j: int| 0 <= j < i ==> (#[trigger] flows@[j]).item != item,
        decreases flows.len() - i,
    {
        if flows[i].item == item {
            assert(flows@[i as int] == (Flow { item, rate: flows@[i as int].rate }));
            return Some(flows[i].rate);
        }
        i += 1;
    }
    None
}

/// Plans a chain of stages for a target rate of the first stage's driving
/// item.
///
/// Stage by stage, the recipe is the first of the catalog for the stage's
/// machine and driving item, and the rate to reach is the target, or what
/// the stage before produces of the driving item. The first stage that
/// fails ends the planning with its error.
pub fn plan_chain(stages: &Vec<Stage>, target: Ratio) -> (r: Result<Vec<StagePlan>, PlanError>)
    ensures
        is_outcome(r, chain_model(stages@, target@)),
{
    if !target.is_positive() {
        return Err(PlanError::InvalidRate);
    }
    let mut plans: Vec<StagePlan> = Vec::new();
    let mut i: usize = 0;
    proof {
        assert(plan_views(plans@) =~= Seq::<StageModel>::empty());
    }
    while i < stages.len()
        invariant
            i <= stages.len(),
            target@ > 0 as real,
            plans@.len() == i,
            plans_wf(plans@),
            chain_prefix(stages@, target@, i as nat) == Ok::<Seq<StageModel>, PlanError>(
                plan_views(plans@),
            ),
        decreases stages.len() - i,
    {
        let stage = stages[i];
        let ghost done = plan_views(plans@);
        let found = get_recipes(stage.filter());
        if found.len() == 0 {
            proof {
                assert(selected_recipe(stage) is None);
                lemma_failure_stays(stages@, target@, (i + 1) as nat, stages@.len());
            }
            return Err(PlanError::NoMatchingRecipe);
        }
        proof {
            assert(found@[0]@ == selected_recipe(stage)->0);
        }
        let required = if i == 0 {
            target
        } else {
            proof {
                assert(done.last() == plans@[i - 1]@);
            }
            match find_rate(&plans[i - 1].outputs, stage.driving_item) {
                None => {
                    proof {
                        lemma_failure_stays(stages@, target@, (i + 1) as nat, stages@.len());
                    }
                    return Err(PlanError::NoMatchingRecipe);
                },
                Some(rate) => rate,
            }
        };
        match plan_stage(&found[0], stage.side, stage.driving_item, required) {
            Err(e) => {
                proof {
                    lemma_failure_stays(stages@, target@, (i + 1) as nat, stages@.len());
                }
                return Err(e);
            },
            Ok(plan) => {
                proof {
                    assert(plan_views(plans@.push(plan)) =~= done.push(plan@));
                }
                plans.push(plan);
            },
        }
        i += 1;
    }
    Ok(plans)
}

} // verus!
