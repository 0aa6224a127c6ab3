//! Buy/sell decisions along a route, the state they induce, and the exact
//! feasibility check.
//!
//! A plan stores, for every stop and good, the bought and sold quantities as
//! integer numerators over one common positive denominator `den`: the
//! quantity traded is `entry / den`.  The derived inventory and capital
//! state follow the recurrences
//! `I[-1][g] = 0`, `I[j][g] = I[j-1][g] + bought[j][g] - sold[j][g]` and
//! `f[-1] = initial_capital`,
//! `f[j] = f[j-1] + sum_g (sell_price*sold - buy_price*bought)
//!         - visit_cost[port_j] - travel_cost*travel_time[port_{j-1}][port_j]`
//! (no visit or travel charge at the first stop).

use vstd::prelude::*;

use crate::instance::{Instance, PortId, valid_route, MAX_RAW};
use crate::rat::Rat;

verus! {

/// Largest admitted plan denominator.
pub const MAX_PLAN_DEN: i64 = 1024;

/// Quantities bought and sold at each stop of a route.
///
/// `bought[j][g] / den` units of good `g` are bought at stop `j`, and
/// `sold[j][g] / den` units are sold there.
#[derive(Clone, Debug)]
pub struct Decisions {
    /// Common positive denominator of all entries.
    pub den: i64,
    /// Quantity numerators bought, one row per stop.
    pub bought: Vec<Vec<i64>>,
    /// Quantity numerators sold, one row per stop.
    pub sold: Vec<Vec<i64>>,
}

impl Decisions {
    /// The plan has `r` rows of `g` entries each and an admissible
    /// denominator.
    pub open spec fn shape_wf(self, r: int, g: int) -> bool {
        &&& 1 <= self.den <= MAX_PLAN_DEN
        &&& self.bought@.len() == r
        &&& self.sold@.len() == r
        &&& forall|j: int| 0 <= j < r ==> (#[trigger] self.bought@[j])@.len() == g
        &&& forall|j: int| 0 <= j < r ==> (#[trigger] self.sold@[j])@.len() == g
    }

    /// Quantity numerator bought at stop `j` of good `g`.
    pub open spec fn bought_at(self, j: int, g: int) -> int {
        self.bought@[j]@[g] as int
    }

    /// Quantity numerator sold at stop `j` of good `g`.
    pub open spec fn sold_at(self, j: int, g: int) -> int {
        self.sold@[j]@[g] as int
    }

    /// An all-zero plan over `r` stops and `g` goods with denominator `den`.
    pub fn zeros(r: usize, g: usize, den: i64) -> (d: Decisions)
        requires
            1 <= den <= MAX_PLAN_DEN,
        ensures
            d.shape_wf(r as int, g as int),
            d.den == den,
            forall|j: int, m: int| 0 <= j < r && 0 <= m < g ==> d.bought_at(j, m) == 0,
            forall|j: int, m: int| 0 <= j < r && 0 <= m < g ==> d.sold_at(j, m) == 0,
    {
        let mut bought: Vec<Vec<i64>> = Vec::new();
        let mut sold: Vec<Vec<i64>> = Vec::new();
        for j in 0..r
            invariant
                bought@.len() == j,
                sold@.len() == j,
                forall|i: int| 0 <= i < j ==> (#[trigger] bought@[i])@ == Seq::<i64>::new(g as nat, |m: int| 0i64),
                forall|i: int| 0 <= i < j ==> (#[trigger] sold@[i])@ == Seq::<i64>::new(g as nat, |m: int| 0i64),
        {
            let mut row: Vec<i64> = Vec::new();
            for m in 0..g
                invariant
                    row@ =~= Seq::<i64>::new(m as nat, |k: int| 0i64),
            {
                row.push(0);
                proof {
                    assert(row@ =~= Seq::<i64>::new((m + 1) as nat, |k: int| 0i64));
                }
            }
            let row2 = row.clone();
            proof {
                assert(row2@ =~= row@);
            }
            bought.push(row);
            sold.push(row2);
        }
        Decisions { den, bought, sold }
    }

    /// Net traded quantity at stop `j` for good `g`: bought minus sold, as an
    /// exact rational (positive means bought).
    pub fn net(&self, j: usize, g: usize) -> (r: Rat)
        requires
            1 <= self.den,
            j < self.bought@.len(),
            j < self.sold@.len(),
            g < self.bought@[j as int]@.len(),
            g < self.sold@[j as int]@.len(),
            -0x4000_0000_0000_0000 <= self.bought_at(j as int, g as int) - self.sold_at(
                j as int,
                g as int,
            ) <= 0x4000_0000_0000_0000,
        ensures
            r.wf(),
            r.num == self.bought_at(j as int, g as int) - self.sold_at(j as int, g as int),
            r.den == self.den,
    {
        Rat { num: self.bought[j][g] - self.sold[j][g], den: self.den }
    }

    /// Quantity bought at stop `j` of good `g`, as an exact rational.
    pub fn bought_qty(&self, j: usize, g: usize) -> (r: Rat)
        requires
            1 <= self.den,
            j < self.bought@.len(),
            g < self.bought@[j as int]@.len(),
        ensures
            r.wf(),
            r.num == self.bought_at(j as int, g as int),
            r.den == self.den,
    {
        Rat { num: self.bought[j][g], den: self.den }
    }

    /// Quantity sold at stop `j` of good `g`, as an exact rational.
    pub fn sold_qty(&self, j: usize, g: usize) -> (r: Rat)
        requires
            1 <= self.den,
            j < self.sold@.len(),
            g < self.sold@[j as int]@.len(),
        ensures
            r.wf(),
            r.num == self.sold_at(j as int, g as int),
            r.den == self.den,
    {
        Rat { num: self.sold[j][g], den: self.den }
    }
}

/// The always-feasible degraded result: the initial capital and the all-zero
/// plan.  Optimizer infeasibility is recovered into this value, never
/// surfaced as a failure, since trading nothing is always possible.
pub fn baseline_result(inst: &Instance, route: &Vec<PortId>) -> (r: (Rat, Decisions))
    requires
        inst.well_formed(),
        valid_route(*inst, route@),
    ensures
        r.0.wf(),
        r.0.num == inst.initial_capital,
        r.0.den == inst.scale,
        r.1.shape_wf(route@.len() as int, inst.n_goods as int),
        forall|j: int, g: int|
            0 <= j < route@.len() && 0 <= g < inst.n_goods ==> #[trigger] r.1.bought_at(j, g) == 0
                && r.1.sold_at(j, g) == 0,
        plan_feasible(*inst, route@, r.1) <==> capital_nonneg(*inst, route@, r.1),
{
    let zeros = Decisions::zeros(route.len(), inst.n_goods, 1);
    proof {
        assert forall|j: int, g: int|
            0 <= j < route@.len() && 0 <= g < inst.n_goods implies #[trigger] zeros.sold_at(j, g)
            <= inventory_num(zeros, j - 1, g) by {
            lemma_zero_inventory(zeros, j - 1, g, route@.len() as int, inst.n_goods as int);
        }
        assert forall|j: int|
            0 <= j < route@.len() implies #[trigger] weighted_inventory_num(
            *inst,
            zeros,
            j,
            inst.n_goods as int,
        ) <= inst.capacity * zeros.den by {
            lemma_zero_weighted(*inst, zeros, j, inst.n_goods as int, route@.len() as int);
        }
    }
    (Rat { num: inst.initial_capital, den: inst.scale }, zeros)
}

/// The all-zero plan holds no inventory.
proof fn lemma_zero_inventory(plan: Decisions, j: int, g: int, r: int, g_count: int)
    requires
        plan.shape_wf(r, g_count),
        j < r,
        0 <= g < g_count,
        forall|jj: int, gg: int|
            0 <= jj < r && 0 <= gg < g_count ==> #[trigger] plan.bought_at(jj, gg) == 0
                && plan.sold_at(jj, gg) == 0,
    ensures
        inventory_num(plan, j, g) == 0,
    decreases j + 1,
{
    if j >= 0 {
        lemma_zero_inventory(plan, j - 1, g, r, g_count);
    }
}

/// The all-zero plan weighs nothing.
proof fn lemma_zero_weighted(inst: Instance, plan: Decisions, j: int, g: int, r: int)
    requires
        plan.shape_wf(r, inst.n_goods as int),
        0 <= j < r,
        0 <= g <= inst.n_goods,
        forall|jj: int, gg: int|
            0 <= jj < r && 0 <= gg < inst.n_goods ==> #[trigger] plan.bought_at(jj, gg) == 0
                && plan.sold_at(jj, gg) == 0,
    ensures
        weighted_inventory_num(inst, plan, j, g) == 0,
    decreases g,
{
    if g > 0 {
        lemma_zero_weighted(inst, plan, j, g - 1, r);
        lemma_zero_inventory(plan, j, g - 1, r, inst.n_goods as int);
        assert(inst.weight@[g - 1] * 0 == 0) by (nonlinear_arith);
    }
}

/// Inventory numerator of good `g` after stop `j` (over `plan.den`); stop
/// `-1` is the empty hold before the route starts.
pub open spec fn inventory_num(plan: Decisions, j: int, g: int) -> int
    decreases j + 1,
{
    if j < 0 {
        0
    } else {
        inventory_num(plan, j - 1, g) + plan.bought_at(j, g) - plan.sold_at(j, g)
    }
}

/// Weighted inventory numerator after stop `j`, summed over goods `0 .. g`:
/// the load `sum_m weight[m] * I[j][m]` times `scale * plan.den`.
pub open spec fn weighted_inventory_num(inst: Instance, plan: Decisions, j: int, g: int) -> int
    decreases g,
{
    if g <= 0 {
        0
    } else {
        weighted_inventory_num(inst, plan, j, g - 1) + inst.weight@[g - 1] * inventory_num(
            plan,
            j,
            g - 1,
        )
    }
}

/// Money numerator gained by the trades at stop `j` over goods `0 .. g`
/// (over `scale * plan.den`): sell revenue minus buy cost.
pub open spec fn trade_num(inst: Instance, route: Seq<PortId>, plan: Decisions, j: int, g: int) -> int
    decreases g,
{
    if g <= 0 {
        0
    } else {
        trade_num(inst, route, plan, j, g - 1) + inst.sell_price@[route[j] as int]@[g - 1]
            * plan.sold_at(j, g - 1) - inst.buy_price@[route[j] as int]@[g - 1] * plan.bought_at(
            j,
            g - 1,
        )
    }
}

/// Expense numerator charged on arrival at stop `j >= 1` (over `scale^2`):
/// the visit cost of the port plus travel cost times travel time from the
/// previous stop.  No expense is charged at stop `0`.
pub open spec fn stop_expense_num(inst: Instance, route: Seq<PortId>, j: int) -> int {
    inst.visit_cost@[route[j] as int] * inst.scale + inst.travel_time@[route[j - 1] as int]@[route[j] as int]
        * inst.travel_cost
}

/// Total expense numerator of travelling the route up to stop `j` (over
/// `scale^2`): the sum of the per-stop expenses of stops `1 ..= j`.
pub open spec fn route_expense_num(inst: Instance, route: Seq<PortId>, j: int) -> int
    decreases j,
{
    if j <= 0 {
        0
    } else {
        route_expense_num(inst, route, j - 1) + stop_expense_num(inst, route, j)
    }
}

/// Computes the total route expense numerator over `scale^2`.
pub fn route_expense(inst: &Instance, route: &Vec<PortId>) -> (r: i64)
    requires
        inst.well_formed(),
        valid_route(*inst, route@),
    ensures
        r == route_expense_num(*inst, route@, route@.len() - 1),
        0 <= r <= 0x10000000000,
{
    let r_len = route.len();
    let mut total: i64 = 0;
    if r_len == 0 {
        return total;
    }
    for j in 1..r_len
        invariant
            inst.well_formed(),
            valid_route(*inst, route@),
            r_len == route@.len(),
            total == route_expense_num(*inst, route@, j - 1),
            0 <= total <= (j as int - 1) * 0x200000000,
    {
        let prev = route[j - 1];
        let port = route[j];
        let t = inst.travel_time[prev][port];
        proof {
            assert(0 <= t * inst.travel_cost <= 0x100000000 && 0 <= inst.visit_cost@[port as int]
                * inst.scale <= 0x200000) by (nonlinear_arith)
                requires
                    0 <= t <= 0x10000,
                    0 <= inst.travel_cost <= 0x10000,
                    0 <= inst.visit_cost@[port as int] <= 0x10000,
                    1 <= inst.scale <= 32,
            ;
            assert((j as int - 1) * 0x200000000 <= 128 * 0x200000000) by (nonlinear_arith)
                requires
                    0 <= j as int - 1 <= 128,
            ;
        }
        total = total + (inst.visit_cost[port] * inst.scale + t * inst.travel_cost);
    }
    total
}

/// Capital numerator after stop `j` (over `scale^2 * plan.den`); stop `-1`
/// holds the initial capital.
pub open spec fn capital_num(inst: Instance, route: Seq<PortId>, plan: Decisions, j: int) -> int
    decreases j + 1,
{
    if j < 0 {
        inst.initial_capital * inst.scale * plan.den
    } else {
        capital_num(inst, route, plan, j - 1) + inst.scale * trade_num(
            inst,
            route,
            plan,
            j,
            inst.n_goods as int,
        ) - if j >= 1 {
            stop_expense_num(inst, route, j) * plan.den
        } else {
            0
        }
    }
}

/// Every quantity is nonnegative and within the port's buy/sell capacity.
pub open spec fn respects_caps(inst: Instance, route: Seq<PortId>, plan: Decisions) -> bool {
    forall|j: int, g: int|
        #![trigger plan.bought_at(j, g)]
        #![trigger plan.sold_at(j, g)]
        0 <= j < route.len() && 0 <= g < inst.n_goods ==> {
            &&& 0 <= plan.bought_at(j, g)
            &&& plan.bought_at(j, g) * inst.scale <= inst.buy_cap@[route[j] as int]@[g] * plan.den
            &&& 0 <= plan.sold_at(j, g)
            &&& plan.sold_at(j, g) * inst.scale <= inst.sell_cap@[route[j] as int]@[g] * plan.den
        }
}

/// Nothing is sold that is not aboard: at every stop the sold quantity is at
/// most the inventory brought from the previous stop.  With the empty
/// initial hold this forces `sold[0][g] == 0`.
pub open spec fn respects_inventory(plan: Decisions, r: int, g_count: int) -> bool {
    forall|j: int, g: int|
        0 <= j < r && 0 <= g < g_count ==> #[trigger] plan.sold_at(j, g) <= inventory_num(
            plan,
            j - 1,
            g,
        )
}

/// The weighted inventory aboard never exceeds the boat capacity:
/// `sum_g weight[g] * I[j][g] <= capacity` after every stop.
pub open spec fn respects_capacity(inst: Instance, plan: Decisions, r: int) -> bool {
    forall|j: int|
        0 <= j < r ==> #[trigger] weighted_inventory_num(inst, plan, j, inst.n_goods as int)
            <= inst.capacity * plan.den
}

/// The capital after every stop is nonnegative.
pub open spec fn capital_nonneg(inst: Instance, route: Seq<PortId>, plan: Decisions) -> bool {
    forall|j: int| 0 <= j < route.len() ==> #[trigger] capital_num(inst, route, plan, j) >= 0
}

/// The plan is feasible for the instance and route: well shaped, within all
/// port capacities, selling only from inventory, within boat capacity, and
/// never driving the capital negative.
pub open spec fn plan_feasible(inst: Instance, route: Seq<PortId>, plan: Decisions) -> bool {
    &&& plan.shape_wf(route.len() as int, inst.n_goods as int)
    &&& respects_caps(inst, route, plan)
    &&& respects_inventory(plan, route.len() as int, inst.n_goods as int)
    &&& respects_capacity(inst, plan, route.len() as int)
    &&& capital_nonneg(inst, route, plan)
}

/// Checks the shape of a plan at run time.
pub fn check_shape(plan: &Decisions, r: usize, g: usize) -> (ok: bool)
    ensures
        ok == plan.shape_wf(r as int, g as int),
{
    if !(1 <= plan.den && plan.den <= MAX_PLAN_DEN) {
        return false;
    }
    if plan.bought.len() != r || plan.sold.len() != r {
        return false;
    }
    for j in 0..r
        invariant
            plan.bought@.len() == r,
            plan.sold@.len() == r,
            forall|i: int| 0 <= i < j ==> (#[trigger] plan.bought@[i])@.len() == g,
            forall|i: int| 0 <= i < j ==> (#[trigger] plan.sold@[i])@.len() == g,
    {
        if plan.bought[j].len() != g || plan.sold[j].len() != g {
            return false;
        }
    }
    true
}

/// Evaluates a plan against an instance and route: returns the exact final
/// capital when the plan is feasible, and nothing otherwise.
///
/// This is the semantic anchor of the library: any decisions coming back
/// from an outside optimizer are accepted only through this check, and the
/// profit reported for them is recomputed here exactly.
pub fn check_plan(inst: &Instance, route: &Vec<PortId>, plan: &Decisions) -> (r: Option<Rat>)
    requires
        inst.well_formed(),
        valid_route(*inst, route@),
        plan.shape_wf(route@.len() as int, inst.n_goods as int),
    ensures
        r is Some <==> plan_feasible(*inst, route@, *plan),
        r is Some ==> {
            &&& r->Some_0.wf()
            &&& r->Some_0.num == capital_num(*inst, route@, *plan, route@.len() - 1)
            &&& r->Some_0.den == inst.scale * inst.scale * plan.den
        },
{
    let r_len = route.len();
    let g_len = inst.n_goods;
    let mut inv: Vec<i64> = Vec::new();
    for g in 0..g_len
        invariant
            inv@.len() == g,
            forall|m: int| 0 <= m < g ==> #[trigger] inv@[m] == 0,
    {
        inv.push(0);
    }
    proof {
        assert(forall|m: int| 0 <= m < g_len ==> #[trigger] inventory_num(*plan, -1, m) == 0);
        assert(-0x100000 * 32 <= inst.initial_capital * inst.scale <= 0x100000 * 32
            && -0x100000 * 32 * 1024 <= inst.initial_capital * inst.scale * plan.den
            && inst.initial_capital * inst.scale * plan.den <= 0x100000 * 32 * 1024)
            by (nonlinear_arith)
            requires
                -0x100000 <= inst.initial_capital <= 0x100000,
                1 <= inst.scale <= 32,
                1 <= plan.den <= 1024,
        ;
    }
    let mut capital: i64 = inst.initial_capital * inst.scale * plan.den;
    for j in 0..r_len
        invariant
            inst.well_formed(),
            valid_route(*inst, route@),
            plan.shape_wf(route@.len() as int, inst.n_goods as int),
            r_len == route@.len(),
            g_len == inst.n_goods,
            inv@.len() == g_len,
            forall|m: int|
                0 <= m < g_len ==> #[trigger] inv@[m] == inventory_num(*plan, j - 1, m) && 0
                    <= inv@[m] <= (j as int) * 0x4000000,
            capital == capital_num(*inst, route@, *plan, j - 1),
            -0x800000000 - (j as int) * 0x40000000000000 <= capital <= 0x800000000 + (j as int)
                * 0x40000000000000,
            forall|i: int, m: int|
                0 <= i < j && 0 <= m < g_len ==> {
                    &&& 0 <= #[trigger] plan.bought_at(i, m)
                    &&& plan.bought_at(i, m) * inst.scale <= inst.buy_cap@[route@[i] as int]@[m]
                        * plan.den
                    &&& 0 <= plan.sold_at(i, m)
                    &&& plan.sold_at(i, m) * inst.scale <= inst.sell_cap@[route@[i] as int]@[m]
                        * plan.den
                    &&& plan.sold_at(i, m) <= inventory_num(*plan, i - 1, m)
                },
            forall|i: int|
                0 <= i < j ==> #[trigger] weighted_inventory_num(*inst, *plan, i, g_len as int)
                    <= inst.capacity * plan.den,
            forall|i: int| 0 <= i < j ==> #[trigger] capital_num(*inst, route@, *plan, i) >= 0,
    {
        let port = route[j];
        let mut trade: i64 = 0;
        for g in 0..g_len
            invariant
                inst.well_formed(),
                valid_route(*inst, route@),
                plan.shape_wf(route@.len() as int, inst.n_goods as int),
                r_len == route@.len(),
                g_len == inst.n_goods,
                j < r_len,
                port == route@[j as int],
                inv@.len() == g_len,
                forall|m: int|
                    g <= m < g_len ==> #[trigger] inv@[m] == inventory_num(*plan, j - 1, m) && 0
                        <= inv@[m] <= (j as int) * 0x4000000,
                forall|m: int|
                    0 <= m < g ==> #[trigger] inv@[m] == inventory_num(*plan, j as int, m) && 0
                        <= inv@[m] <= (j as int + 1) * 0x4000000,
                trade == trade_num(*inst, route@, *plan, j as int, g as int),
                -(g as int) * 0x40000000000 <= trade <= (g as int) * 0x40000000000,
                forall|m: int|
                    0 <= m < g ==> {
                        &&& 0 <= #[trigger] plan.bought_at(j as int, m)
                        &&& plan.bought_at(j as int, m) * inst.scale <= inst.buy_cap@[port as int]@[m]
                            * plan.den
                        &&& 0 <= plan.sold_at(j as int, m)
                        &&& plan.sold_at(j as int, m) * inst.scale <= inst.sell_cap@[port as int]@[m]
                            * plan.den
                        &&& plan.sold_at(j as int, m) <= inventory_num(*plan, j - 1, m)
                    },
        {
            let b = plan.bought[j][g];
            let s = plan.sold[j][g];
            if b < 0 || s < 0 {
                proof {
                    assert(plan.bought_at(j as int, g as int) < 0 || plan.sold_at(
                        j as int,
                        g as int,
                    ) < 0);
                    assert(!respects_caps(*inst, route@, *plan));
                }
                return None;
            }
            let bc = inst.buy_cap[port][g];
            let sc = inst.sell_cap[port][g];
            proof {
                crate::rat::lemma_i64_mul_fits(b as int, inst.scale as int);
                crate::rat::lemma_i64_mul_fits(bc as int, plan.den as int);
                crate::rat::lemma_i64_mul_fits(s as int, inst.scale as int);
                crate::rat::lemma_i64_mul_fits(sc as int, plan.den as int);
            }
            if (b as i128) * (inst.scale as i128) > (bc as i128) * (plan.den as i128) {
                proof {
                    assert(plan.bought_at(j as int, g as int) * inst.scale
                        > inst.buy_cap@[route@[j as int] as int]@[g as int] * plan.den);
                    assert(!respects_caps(*inst, route@, *plan));
                }
                return None;
            }
            if (s as i128) * (inst.scale as i128) > (sc as i128) * (plan.den as i128) {
                proof {
                    assert(plan.sold_at(j as int, g as int) * inst.scale
                        > inst.sell_cap@[route@[j as int] as int]@[g as int] * plan.den);
                    assert(!respects_caps(*inst, route@, *plan));
                }
                return None;
            }
            if s > inv[g] {
                proof {
                    assert(plan.sold_at(j as int, g as int) > inventory_num(
                        *plan,
                        j - 1,
                        g as int,
                    ));
                    assert(!respects_inventory(
                        *plan,
                        route@.len() as int,
                        inst.n_goods as int,
                    ));
                }
                return None;
            }
            proof {
                assert(b <= 0x4000000 && s <= 0x4000000) by (nonlinear_arith)
                    requires
                        b >= 0,
                        s >= 0,
                        b * inst.scale <= bc * plan.den,
                        s * inst.scale <= sc * plan.den,
                        1 <= inst.scale,
                        0 <= bc <= 0x10000,
                        0 <= sc <= 0x10000,
                        1 <= plan.den <= 1024,
                ;
            }
            let new_inv = inv[g] + b - s;
            inv.set(g, new_inv);
            let bp = inst.buy_price[port][g];
            let sp = inst.sell_price[port][g];
            proof {
                assert(0 <= sp * s <= 0x40000000000 && 0 <= bp * b <= 0x40000000000)
                    by (nonlinear_arith)
                    requires
                        0 <= b <= 0x4000000,
                        0 <= s <= 0x4000000,
                        0 <= bp <= 0x10000,
                        0 <= sp <= 0x10000,
                ;
            }
            trade = trade + (sp * s - bp * b);
            proof {
                assert(0 <= plan.bought_at(j as int, g as int));
                assert(plan.bought_at(j as int, g as int) * inst.scale <= inst.buy_cap@[port as int]@[g as int]
                    * plan.den);
                assert(0 <= plan.sold_at(j as int, g as int));
                assert(plan.sold_at(j as int, g as int) * inst.scale <= inst.sell_cap@[port as int]@[g as int]
                    * plan.den);
                assert(plan.sold_at(j as int, g as int) <= inventory_num(*plan, j - 1, g as int));
                assert(inv@[g as int] == inventory_num(*plan, j as int, g as int));
                assert(trade == trade_num(*inst, route@, *plan, j as int, g + 1));
            }
        }
        let mut wsum: i64 = 0;
        for g in 0..g_len
            invariant
                inst.well_formed(),
                g_len == inst.n_goods,
                j < r_len,
                inv@.len() == g_len,
                forall|m: int|
                    0 <= m < g_len ==> #[trigger] inv@[m] == inventory_num(*plan, j as int, m) && 0
                        <= inv@[m] <= (j as int + 1) * 0x4000000,
                j < 0x80,
                wsum == weighted_inventory_num(*inst, *plan, j as int, g as int),
                0 <= wsum <= (g as int) * 0x20000000000000,
        {
            let w = inst.weight[g];
            proof {
                assert(0 <= w * inv@[g as int] <= 0x20000000000000) by (nonlinear_arith)
                    requires
                        1 <= w <= 0x10000,
                        0 <= inv@[g as int] <= 0x80 * 0x4000000 + 0x4000000,
                ;
            }
            wsum = wsum + w * inv[g];
        }
        proof {
            assert(inst.capacity * plan.den >= 0 && inst.capacity * plan.den <= 0x100000 * 1024)
                by (nonlinear_arith)
                requires
                    0 <= inst.capacity <= 0x100000,
                    1 <= plan.den <= 1024,
            ;
        }
        if wsum > inst.capacity * plan.den {
            proof {
                assert(!respects_capacity(*inst, *plan, route@.len() as int));
            }
            return None;
        }
        let expense: i64 = if j >= 1 {
            let prev = route[j - 1];
            let t = inst.travel_time[prev][port];
            proof {
                assert(0 <= inst.visit_cost@[port as int] * inst.scale <= 0x200000 && 0 <= t
                    * inst.travel_cost <= 0x100000000) by (nonlinear_arith)
                    requires
                        0 <= inst.visit_cost@[port as int] <= 0x10000,
                        1 <= inst.scale <= 32,
                        0 <= t <= 0x10000,
                        0 <= inst.travel_cost <= 0x10000,
                ;
            }
            inst.visit_cost[port] * inst.scale + t * inst.travel_cost
        } else {
            0
        };
        proof {
            assert(-(16 as int) * 0x40000000000 <= trade <= (16 as int) * 0x40000000000);
            assert(inst.scale * trade >= -0x10000000000000 && inst.scale * trade
                <= 0x10000000000000) by (nonlinear_arith)
                requires
                    1 <= inst.scale <= 32,
                    -0x400000000000 <= trade <= 0x400000000000,
            ;
            assert(0 <= expense * plan.den <= 0x10000000000000) by (nonlinear_arith)
                requires
                    0 <= expense <= 0x100000000 + 0x200000,
                    1 <= plan.den <= 1024,
            ;
        }
        let new_capital = capital + inst.scale * trade - expense * plan.den;
        proof {
            if j >= 1 {
                assert(expense == stop_expense_num(*inst, route@, j as int));
            }
            assert(new_capital == capital_num(*inst, route@, *plan, j as int));
        }
        if new_capital < 0 {
            proof {
                assert(!capital_nonneg(*inst, route@, *plan));
            }
            return None;
        }
        capital = new_capital;
    }
    proof {
        assert forall|i: int, m: int|
            0 <= i < route@.len() && 0 <= m < g_len implies #[trigger] plan.sold_at(i, m)
            <= inventory_num(*plan, i - 1, m) by {
            assert(plan.bought_at(i, m) >= 0);
        }
        assert(respects_inventory(*plan, route@.len() as int, inst.n_goods as int));
        assert(inst.scale * inst.scale * plan.den > 0) by (nonlinear_arith)
            requires
                1 <= inst.scale,
                1 <= plan.den,
        ;
        assert(inst.scale * inst.scale <= 1024) by (nonlinear_arith)
            requires
                1 <= inst.scale <= 32,
        ;
        assert(inst.scale * inst.scale * plan.den <= 1024 * 1024) by (nonlinear_arith)
            requires
                1 <= inst.scale * inst.scale <= 1024,
                1 <= plan.den <= 1024,
        ;
    }
    Some(Rat { num: capital, den: inst.scale * inst.scale * plan.den })
}

} // verus!
