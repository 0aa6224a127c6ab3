//! Linear and integer programming models of the general capacitated
//! problem.
//!
//! For a fixed route the model has, per stop and good, a bought quantity, a
//! sold quantity and an inventory variable, plus one capital variable per
//! stop; the objective maximizes the final capital.  The constraints are the
//! inventory and capital recurrences, the boat-capacity bound, and the
//! sell-from-inventory bounds, with nothing sold at the first stop.  The
//! continuous model is the linear relaxation; the integer model is the same
//! model with every variable integer-constrained.
//!
//! Every stop owns a variable block and constraint slots of fixed width
//! `MAX_GOODS`, so variable and constraint indices are affine in the stop
//! index; slots of goods beyond `n_goods` hold variables fixed to zero and
//! empty constraints.
//!
//! Solving is numerical work an outside optimizer performs; this module only
//! states the model exactly.  Whatever assignment an optimizer reports is
//! accepted solely through [`crate::plan::check_plan`], which recomputes the
//! profit exactly.

use vstd::prelude::*;

use crate::instance::{Instance, PortId, valid_route, MAX_GOODS};
use crate::plan::stop_expense_num;
use crate::rat::Rat;

verus! {

/// Comparison operator of a linear constraint.
#[derive(Clone, Copy, Debug, PartialEq, Eq, Structural)]
pub enum ConstraintOp {
    /// The linear form equals the right-hand side.
    Eq,
    /// The linear form is at most the right-hand side.
    Le,
}

/// One decision variable: bounds, objective coefficient, and whether it is
/// integer-constrained.
#[derive(Clone, Copy, Debug)]
pub struct VarDef {
    /// Lower bound.
    pub lower: Rat,
    /// Upper bound; `None` means unbounded above.
    pub upper: Option<Rat>,
    /// Coefficient in the maximized objective.
    pub objective: Rat,
    /// Whether the variable is integer-constrained.
    pub integer: bool,
}

/// One linear constraint: a sum of coefficient-weighted variables compared
/// against a right-hand side.
#[derive(Clone, Debug)]
pub struct Constraint {
    /// The terms: variable index and coefficient.
    pub terms: Vec<(usize, Rat)>,
    /// The comparison operator.
    pub op: ConstraintOp,
    /// The right-hand side.
    pub rhs: Rat,
}

/// A linear or integer program over indexed variables.
#[derive(Clone, Debug)]
pub struct LpModel {
    /// The decision variables.
    pub vars: Vec<VarDef>,
    /// The constraints.
    pub constraints: Vec<Constraint>,
}

/// Index of the bought-quantity variable of stop `j`, good slot `g`.
pub open spec fn var_buy(j: int, g: int) -> int {
    j * 49 + 3 * g
}

/// Index of the sold-quantity variable of stop `j`, good slot `g`.
pub open spec fn var_sell(j: int, g: int) -> int {
    j * 49 + 3 * g + 1
}

/// Index of the inventory variable of stop `j`, good slot `g`.
pub open spec fn var_inv(j: int, g: int) -> int {
    j * 49 + 3 * g + 2
}

/// Index of the capital variable of stop `j`.
pub open spec fn var_capital(j: int) -> int {
    j * 49 + 48
}

/// The exact rational one.
pub open spec fn rat_one() -> Rat {
    Rat { num: 1i64, den: 1i64 }
}

/// The exact rational minus one.
pub open spec fn rat_neg_one() -> Rat {
    Rat { num: (-1) as i64, den: 1i64 }
}

/// The exact rational zero.
pub open spec fn rat_zero() -> Rat {
    Rat { num: 0i64, den: 1i64 }
}

/// A variable fixed to zero: the filler for good slots beyond `n_goods`.
pub open spec fn fixed_zero_var(integer: bool) -> VarDef {
    VarDef { lower: rat_zero(), upper: Some(rat_zero()), objective: rat_zero(), integer }
}

/// The terms of the inventory constraint of stop `j`, good `g`:
/// `I[j][g] - bought[j][g] + sold[j][g] - I[j-1][g] == 0`, without the
/// previous-inventory term at the first stop.
pub open spec fn inventory_terms(j: int, g: int) -> Seq<(usize, Rat)> {
    seq![
        ((var_inv(j, g)) as usize, rat_one()),
        ((var_buy(j, g)) as usize, rat_neg_one()),
        ((var_sell(j, g)) as usize, rat_one()),
    ] + if j > 0 {
        seq![((var_inv(j - 1, g)) as usize, rat_neg_one())]
    } else {
        Seq::empty()
    }
}

/// The terms of the boat-capacity constraint of stop `j`:
/// `sum_g weight[g] * I[j][g] <= capacity`.
pub open spec fn capacity_terms(inst: Instance, j: int) -> Seq<(usize, Rat)> {
    Seq::new(
        inst.n_goods as nat,
        |g: int| ((var_inv(j, g)) as usize, Rat { num: inst.weight@[g], den: inst.scale }),
    )
}

/// The trade terms of the capital constraint of stop `j`: for each good, the
/// buy price times the bought quantity and minus the sell price times the
/// sold quantity.
pub open spec fn capital_trade_terms(inst: Instance, route: Seq<PortId>, j: int) -> Seq<
    (usize, Rat),
> {
    Seq::new(
        (2 * inst.n_goods) as nat,
        |k: int|
            if k % 2 == 0 {
                (
                    (var_buy(j, k / 2)) as usize,
                    Rat { num: inst.buy_price@[route[j] as int]@[k / 2], den: inst.scale },
                )
            } else {
                (
                    (var_sell(j, k / 2)) as usize,
                    Rat {
                        num: (-inst.sell_price@[route[j] as int]@[k / 2]) as i64,
                        den: inst.scale,
                    },
                )
            },
    )
}

/// The terms of the capital constraint of stop `j`:
/// `f[j] + sum_g (buy_price*bought - sell_price*sold) - f[j-1] == rhs`,
/// without the previous-capital term at the first stop.
pub open spec fn capital_terms(inst: Instance, route: Seq<PortId>, j: int) -> Seq<(usize, Rat)> {
    seq![((var_capital(j)) as usize, rat_one())] + capital_trade_terms(inst, route, j) + if j
        > 0 {
        seq![((var_capital(j - 1)) as usize, rat_neg_one())]
    } else {
        Seq::empty()
    }
}

/// The right-hand side of the capital constraint of stop `j`: the initial
/// capital at the first stop, and minus the stop's travel and visit expense
/// afterwards.
pub open spec fn capital_rhs(inst: Instance, route: Seq<PortId>, j: int) -> Rat {
    if j == 0 {
        Rat { num: inst.initial_capital, den: inst.scale }
    } else {
        Rat {
            num: (-stop_expense_num(inst, route, j)) as i64,
            den: (inst.scale * inst.scale) as i64,
        }
    }
}

/// The terms of the sell-from-inventory constraint of stop `j`, good `g`:
/// `sold[j][g] - I[j-1][g] <= 0`.
pub open spec fn sell_bound_terms(j: int, g: int) -> Seq<(usize, Rat)> {
    seq![
        ((var_sell(j, g)) as usize, rat_one()),
        ((var_inv(j - 1, g)) as usize, rat_neg_one()),
    ]
}

/// An empty constraint: the filler for good slots beyond `n_goods`.
pub open spec fn trivial_constraint(c: Constraint) -> bool {
    &&& c.terms@ == Seq::<(usize, Rat)>::empty()
    &&& c.op == ConstraintOp::Eq
    &&& c.rhs == rat_zero()
}

/// The model describes the route exactly: every variable and every
/// constraint of the capacitated trading problem, in a fixed layout.
///
/// Variables: stop `j` owns indices `49*j .. 49*(j+1)`; good slot `g` holds
/// its bought, sold and inventory variables at offsets `3*g .. 3*g+2`, and
/// the stop's capital variable sits at offset `48`.  Constraints come in
/// sections of fixed width `MAX_GOODS` per stop: the inventory equalities,
/// the capacity bounds, the capital equalities, the
/// nothing-sold-at-the-first-stop equalities, and the sell-from-inventory
/// bounds of all later stops.
pub open spec fn is_route_model(
    model: LpModel,
    inst: Instance,
    route: Seq<PortId>,
    integer: bool,
) -> bool {
    let r = route.len() as int;
    let g_count = inst.n_goods as int;
    &&& model.vars@.len() == r * 49
    &&& forall|j: int, g: int|
        0 <= j < r && 0 <= g < g_count ==> model.vars@[var_buy(j, g)] == (VarDef {
            lower: rat_zero(),
            upper: Some(Rat { num: inst.buy_cap@[route[j] as int]@[g], den: inst.scale }),
            objective: rat_zero(),
            integer,
        })
    &&& forall|j: int, g: int|
        0 <= j < r && 0 <= g < g_count ==> model.vars@[var_sell(j, g)] == (VarDef {
            lower: rat_zero(),
            upper: Some(Rat { num: inst.sell_cap@[route[j] as int]@[g], den: inst.scale }),
            objective: rat_zero(),
            integer,
        })
    &&& forall|j: int, g: int|
        0 <= j < r && 0 <= g < g_count ==> model.vars@[var_inv(j, g)] == (VarDef {
            lower: rat_zero(),
            upper: None,
            objective: rat_zero(),
            integer,
        })
    &&& forall|j: int, g: int|
        0 <= j < r && g_count <= g < MAX_GOODS ==> {
            &&& model.vars@[var_buy(j, g)] == fixed_zero_var(integer)
            &&& model.vars@[var_sell(j, g)] == fixed_zero_var(integer)
            &&& model.vars@[var_inv(j, g)] == fixed_zero_var(integer)
        }
    &&& forall|j: int|
        0 <= j < r ==> model.vars@[var_capital(j)] == (VarDef {
            lower: rat_zero(),
            upper: None,
            objective: if j == r - 1 {
                rat_one()
            } else {
                rat_zero()
            },
            integer,
        })
    &&& model.constraints@.len() == (if r > 0 {
        34 * r
    } else {
        0
    })
    &&& forall|j: int, g: int|
        0 <= j < r && 0 <= g < 16 ==> {
            let c = #[trigger] model.constraints@[j * 16 + g];
            if g < g_count {
                &&& c.terms@ == inventory_terms(j, g)
                &&& c.op == ConstraintOp::Eq
                &&& c.rhs == rat_zero()
            } else {
                trivial_constraint(c)
            }
        }
    &&& forall|j: int|
        0 <= j < r ==> {
            let c = #[trigger] model.constraints@[r * 16 + j];
            &&& c.terms@ == capacity_terms(inst, j)
            &&& c.op == ConstraintOp::Le
            &&& c.rhs == (Rat { num: inst.capacity, den: inst.scale })
        }
    &&& forall|j: int|
        0 <= j < r ==> {
            let c = #[trigger] model.constraints@[r * 17 + j];
            &&& c.terms@ == capital_terms(inst, route, j)
            &&& c.op == ConstraintOp::Eq
            &&& c.rhs == capital_rhs(inst, route, j)
        }
    &&& forall|g: int|
        0 <= g < 16 && r > 0 ==> {
            let c = #[trigger] model.constraints@[r * 18 + g];
            if g < g_count {
                &&& c.terms@ == seq![((var_sell(0, g)) as usize, rat_one())]
                &&& c.op == ConstraintOp::Eq
                &&& c.rhs == rat_zero()
            } else {
                trivial_constraint(c)
            }
        }
    &&& forall|j: int, g: int|
        1 <= j < r && 0 <= g < 16 ==> {
            let c = #[trigger] model.constraints@[r * 18 + 16 + (j - 1) * 16 + g];
            if g < g_count {
                &&& c.terms@ == sell_bound_terms(j, g)
                &&& c.op == ConstraintOp::Le
                &&& c.rhs == rat_zero()
            } else {
                trivial_constraint(c)
            }
        }
}

/// The continuous relaxation and the integer model of one route share every
/// variable bound, every objective coefficient and every constraint; they
/// differ only in the integrality flags.  Any assignment feasible for the
/// integer model is therefore feasible for the relaxation, whose optimum
/// bounds the integer optimum from above.
pub proof fn lemma_integer_model_relaxes(
    lp: LpModel,
    ip: LpModel,
    inst: Instance,
    route: Seq<PortId>,
)
    requires
        is_route_model(lp, inst, route, false),
        is_route_model(ip, inst, route, true),
    ensures
        lp.constraints@.len() == ip.constraints@.len(),
        forall|k: int|
            0 <= k < lp.constraints@.len() ==> {
                &&& (#[trigger] lp.constraints@[k]).terms@ == ip.constraints@[k].terms@
                &&& lp.constraints@[k].op == ip.constraints@[k].op
                &&& lp.constraints@[k].rhs == ip.constraints@[k].rhs
            },
        lp.vars@.len() == ip.vars@.len(),
        forall|v: int|
            0 <= v < lp.vars@.len() ==> {
                &&& (#[trigger] lp.vars@[v]).lower == ip.vars@[v].lower
                &&& lp.vars@[v].upper == ip.vars@[v].upper
                &&& lp.vars@[v].objective == ip.vars@[v].objective
            },
{
    let r = route.len() as int;
    let g_count = inst.n_goods as int;
    assert forall|v: int| 0 <= v < lp.vars@.len() implies {
        &&& (#[trigger] lp.vars@[v]).lower == ip.vars@[v].lower
        &&& lp.vars@[v].upper == ip.vars@[v].upper
        &&& lp.vars@[v].objective == ip.vars@[v].objective
    } by {
        let j = v / 49;
        let o = v % 49;
        vstd::arithmetic::div_mod::lemma_fundamental_div_mod(v, 49);
        vstd::arithmetic::div_mod::lemma_mod_bound(v, 49);
        assert(0 <= j < r) by (nonlinear_arith)
            requires
                v == 49 * j + o,
                0 <= o < 49,
                0 <= v < r * 49,
        ;
        if o == 48 {
            assert(v == var_capital(j));
        } else {
            let g = o / 3;
            let m = o % 3;
            vstd::arithmetic::div_mod::lemma_fundamental_div_mod(o, 3);
            vstd::arithmetic::div_mod::lemma_mod_bound(o, 3);
            assert(0 <= g < 16);
            if m == 0 {
                assert(v == var_buy(j, g));
            } else if m == 1 {
                assert(v == var_sell(j, g));
            } else {
                assert(v == var_inv(j, g));
            }
        }
    }
    assert forall|k: int| 0 <= k < lp.constraints@.len() implies {
        &&& (#[trigger] lp.constraints@[k]).terms@ == ip.constraints@[k].terms@
        &&& lp.constraints@[k].op == ip.constraints@[k].op
        &&& lp.constraints@[k].rhs == ip.constraints@[k].rhs
    } by {
        if k < r * 16 {
            let j = k / 16;
            let g = k % 16;
            vstd::arithmetic::div_mod::lemma_fundamental_div_mod(k, 16);
            vstd::arithmetic::div_mod::lemma_mod_bound(k, 16);
            assert(0 <= j < r) by (nonlinear_arith)
                requires
                    k == 16 * j + g,
                    0 <= g < 16,
                    0 <= k < r * 16,
            ;
            assert(k == j * 16 + g);
        } else if k < r * 17 {
            assert(k == r * 16 + (k - r * 16));
        } else if k < r * 18 {
            assert(k == r * 17 + (k - r * 17));
        } else if k < r * 18 + 16 {
            assert(k == r * 18 + (k - r * 18));
        } else {
            let k2 = k - (r * 18 + 16);
            let j = k2 / 16 + 1;
            let g = k2 % 16;
            vstd::arithmetic::div_mod::lemma_fundamental_div_mod(k2, 16);
            vstd::arithmetic::div_mod::lemma_mod_bound(k2, 16);
            assert(1 <= j < r) by (nonlinear_arith)
                requires
                    k2 == 16 * (j - 1) + g,
                    0 <= g < 16,
                    0 <= k2,
                    k2 + r * 18 + 16 < 34 * r,
            ;
            assert(k == r * 18 + 16 + (j - 1) * 16 + g);
        }
    }
}

/// Computes the index of the bought-quantity variable of stop `j`, good `g`.
fn var_buy_exec(j: usize, g: usize) -> (r: usize)
    requires
        j <= 128,
        g < 16,
    ensures
        r == var_buy(j as int, g as int),
{
    j * 49 + 3 * g
}

/// Computes the index of the capital variable of stop `j`.
fn var_capital_exec(j: usize) -> (r: usize)
    requires
        j <= 128,
    ensures
        r == var_capital(j as int),
{
    j * 49 + 48
}

/// Builds the inventory-equality constraint of stop `j`, good `g`.
fn build_inventory_constraint(j: usize, g: usize, zero: Rat, one: Rat, neg_one: Rat) -> (c:
    Constraint)
    requires
        j < 128,
        g < 16,
        zero == rat_zero(),
        one == rat_one(),
        neg_one == rat_neg_one(),
    ensures
        c.terms@ == inventory_terms(j as int, g as int),
        c.op == ConstraintOp::Eq,
        c.rhs == rat_zero(),
{
    let mut terms: Vec<(usize, Rat)> = Vec::new();
    terms.push((var_buy_exec(j, g) + 2, one));
    terms.push((var_buy_exec(j, g), neg_one));
    terms.push((var_buy_exec(j, g) + 1, one));
    if j > 0 {
        terms.push((var_buy_exec(j - 1, g) + 2, neg_one));
    }
    proof {
        assert(terms@ =~= inventory_terms(j as int, g as int));
    }
    Constraint { terms, op: ConstraintOp::Eq, rhs: zero }
}

/// Builds the capacity-bound constraint of stop `j`.
fn build_capacity_constraint(inst: &Instance, j: usize) -> (c: Constraint)
    requires
        inst.well_formed(),
        j < 128,
    ensures
        c.terms@ == capacity_terms(*inst, j as int),
        c.op == ConstraintOp::Le,
        c.rhs == (Rat { num: inst.capacity, den: inst.scale }),
{
    let g_len = inst.n_goods;
    let mut terms: Vec<(usize, Rat)> = Vec::new();
    for g in 0..g_len
        invariant
            inst.well_formed(),
            g_len == inst.n_goods,
            j < 128,
            terms@.len() == g,
            forall|gg: int|
                0 <= gg < g ==> #[trigger] terms@[gg] == capacity_terms(*inst, j as int)[gg],
    {
        terms.push((var_buy_exec(j, g) + 2, Rat { num: inst.weight[g], den: inst.scale }));
    }
    proof {
        assert(terms@ =~= capacity_terms(*inst, j as int));
    }
    Constraint { terms, op: ConstraintOp::Le, rhs: Rat { num: inst.capacity, den: inst.scale } }
}

/// Builds the capital-equality constraint of stop `j`.
fn build_capital_constraint(
    inst: &Instance,
    route: &Vec<PortId>,
    j: usize,
    one: Rat,
    neg_one: Rat,
) -> (c: Constraint)
    requires
        inst.well_formed(),
        valid_route(*inst, route@),
        j < route@.len(),
        one == rat_one(),
        neg_one == rat_neg_one(),
    ensures
        c.terms@ == capital_terms(*inst, route@, j as int),
        c.op == ConstraintOp::Eq,
        c.rhs == capital_rhs(*inst, route@, j as int),
{
    let g_len = inst.n_goods;
    let port = route[j];
    let mut terms: Vec<(usize, Rat)> = Vec::new();
    terms.push((var_capital_exec(j), one));
    for g in 0..g_len
        invariant
            inst.well_formed(),
            valid_route(*inst, route@),
            g_len == inst.n_goods,
            j < route@.len(),
            route@.len() <= 128,
            port == route@[j as int],
            terms@.len() == 1 + 2 * g,
            terms@[0] == ((var_capital(j as int)) as usize, rat_one()),
            forall|k: int|
                1 <= k < 1 + 2 * g ==> #[trigger] terms@[k] == capital_trade_terms(
                    *inst,
                    route@,
                    j as int,
                )[k - 1],
    {
        terms.push((var_buy_exec(j, g), Rat { num: inst.buy_price[port][g], den: inst.scale }));
        terms.push(
            (var_buy_exec(j, g) + 1, Rat { num: -inst.sell_price[port][g], den: inst.scale }),
        );
        proof {
            assert(capital_trade_terms(*inst, route@, j as int)[2 * g as int] == (
                (var_buy(j as int, g as int)) as usize,
                Rat { num: inst.buy_price@[route@[j as int] as int]@[g as int], den: inst.scale },
            ));
            assert(capital_trade_terms(*inst, route@, j as int)[2 * g as int + 1] == (
                (var_sell(j as int, g as int)) as usize,
                Rat {
                    num: (-inst.sell_price@[route@[j as int] as int]@[g as int]) as i64,
                    den: inst.scale,
                },
            ));
        }
    }
    if j > 0 {
        terms.push((var_capital_exec(j - 1), neg_one));
    }
    proof {
        assert(terms@ =~= capital_terms(*inst, route@, j as int));
    }
    let rhs = if j == 0 {
        Rat { num: inst.initial_capital, den: inst.scale }
    } else {
        let prev = route[j - 1];
        let t = inst.travel_time[prev][port];
        proof {
            assert(0 <= t * inst.travel_cost <= 0x100000000 && 0 <= inst.visit_cost@[port as int]
                * inst.scale <= 0x200000) by (nonlinear_arith)
                requires
                    0 <= t <= 0x10000,
                    0 <= inst.travel_cost <= 0x10000,
                    0 <= inst.visit_cost@[port as int] <= 0x10000,
                    1 <= inst.scale <= 32,
            ;
            assert(1 <= inst.scale * inst.scale <= 1024) by (nonlinear_arith)
                requires
                    1 <= inst.scale <= 32,
            ;
        }
        let e = inst.visit_cost[port] * inst.scale + t * inst.travel_cost;
        Rat { num: -e, den: inst.scale * inst.scale }
    };
    proof {
        assert(rhs == capital_rhs(*inst, route@, j as int));
    }
    Constraint { terms, op: ConstraintOp::Eq, rhs }
}

/// Builds the exact model of the route: the linear relaxation when `integer`
/// is false, the integer-constrained model when it is true.
pub fn build_route_model(inst: &Instance, route: &Vec<PortId>, integer: bool) -> (model: LpModel)
    requires
        inst.well_formed(),
        valid_route(*inst, route@),
    ensures
        is_route_model(model, *inst, route@, integer),
{
    let r_len = route.len();
    let g_len = inst.n_goods;
    let ghost gc = g_len as int;
    let ghost rr = r_len as int;
    let zero = Rat { num: 0, den: 1 };
    let one = Rat { num: 1, den: 1 };
    let neg_one = Rat { num: -1, den: 1 };
    let mut vars: Vec<VarDef> = Vec::new();
    for j in 0..r_len
        invariant
            inst.well_formed(),
            valid_route(*inst, route@),
            r_len == route@.len(),
            g_len == inst.n_goods,
            gc == inst.n_goods as int,
            zero == rat_zero(),
            one == rat_one(),
            neg_one == rat_neg_one(),
            vars@.len() == (j as int) * 49,
            forall|jj: int, g: int|
                0 <= jj < j && 0 <= g < gc ==> vars@[var_buy(jj, g)] == (VarDef {
                    lower: rat_zero(),
                    upper: Some(Rat { num: inst.buy_cap@[route@[jj] as int]@[g], den: inst.scale }),
                    objective: rat_zero(),
                    integer,
                }),
            forall|jj: int, g: int|
                0 <= jj < j && 0 <= g < gc ==> vars@[var_sell(jj, g)] == (VarDef {
                    lower: rat_zero(),
                    upper: Some(
                        Rat { num: inst.sell_cap@[route@[jj] as int]@[g], den: inst.scale },
                    ),
                    objective: rat_zero(),
                    integer,
                }),
            forall|jj: int, g: int|
                0 <= jj < j && 0 <= g < gc ==> vars@[var_inv(jj, g)] == (VarDef {
                    lower: rat_zero(),
                    upper: None,
                    objective: rat_zero(),
                    integer,
                }),
            forall|jj: int, g: int|
                0 <= jj < j && gc <= g < 16 ==> vars@[var_buy(jj, g)] == fixed_zero_var(integer)
                    && vars@[var_sell(jj, g)] == fixed_zero_var(integer) && vars@[var_inv(jj, g)]
                    == fixed_zero_var(integer),
            forall|jj: int|
                0 <= jj < j ==> vars@[var_capital(jj)] == (VarDef {
                    lower: rat_zero(),
                    upper: None,
                    objective: rat_zero(),
                    integer,
                }),
    {
        let port = route[j];
        for g in 0..16usize
            invariant
                inst.well_formed(),
                valid_route(*inst, route@),
                r_len == route@.len(),
                g_len == inst.n_goods,
                gc == inst.n_goods as int,
                j < r_len,
                port == route@[j as int],
                zero == rat_zero(),
                one == rat_one(),
                neg_one == rat_neg_one(),
                vars@.len() == (j as int) * 49 + 3 * (g as int),
                forall|jj: int, gg: int|
                    0 <= jj < j && 0 <= gg < gc ==> vars@[var_buy(jj, gg)] == (VarDef {
                        lower: rat_zero(),
                        upper: Some(
                            Rat { num: inst.buy_cap@[route@[jj] as int]@[gg], den: inst.scale },
                        ),
                        objective: rat_zero(),
                        integer,
                    }),
                forall|jj: int, gg: int|
                    0 <= jj < j && 0 <= gg < gc ==> vars@[var_sell(jj, gg)] == (VarDef {
                        lower: rat_zero(),
                        upper: Some(
                            Rat { num: inst.sell_cap@[route@[jj] as int]@[gg], den: inst.scale },
                        ),
                        objective: rat_zero(),
                        integer,
                    }),
                forall|jj: int, gg: int|
                    0 <= jj < j && 0 <= gg < gc ==> vars@[var_inv(jj, gg)] == (VarDef {
                        lower: rat_zero(),
                        upper: None,
                        objective: rat_zero(),
                        integer,
                    }),
                forall|jj: int, gg: int|
                    0 <= jj < j && gc <= gg < 16 ==> vars@[var_buy(jj, gg)] == fixed_zero_var(
                        integer,
                    ) && vars@[var_sell(jj, gg)] == fixed_zero_var(integer) && vars@[var_inv(
                        jj,
                        gg,
                    )] == fixed_zero_var(integer),
                forall|jj: int|
                    0 <= jj < j ==> vars@[var_capital(jj)] == (VarDef {
                        lower: rat_zero(),
                        upper: None,
                        objective: rat_zero(),
                        integer,
                    }),
                forall|gg: int|
                    0 <= gg < g && gg < gc ==> vars@[var_buy(j as int, gg)] == (VarDef {
                        lower: rat_zero(),
                        upper: Some(
                            Rat {
                                num: inst.buy_cap@[route@[j as int] as int]@[gg],
                                den: inst.scale,
                            },
                        ),
                        objective: rat_zero(),
                        integer,
                    }) && vars@[var_sell(j as int, gg)] == (VarDef {
                        lower: rat_zero(),
                        upper: Some(
                            Rat {
                                num: inst.sell_cap@[route@[j as int] as int]@[gg],
                                den: inst.scale,
                            },
                        ),
                        objective: rat_zero(),
                        integer,
                    }) && vars@[var_inv(j as int, gg)] == (VarDef {
                        lower: rat_zero(),
                        upper: None,
                        objective: rat_zero(),
                        integer,
                    }),
                forall|gg: int|
                    0 <= gg < g && gc <= gg ==> vars@[var_buy(j as int, gg)] == fixed_zero_var(
                        integer,
                    ) && vars@[var_sell(j as int, gg)] == fixed_zero_var(integer) && vars@[var_inv(
                        j as int,
                        gg,
                    )] == fixed_zero_var(integer),
        {
            if g < g_len {
                vars.push(
                    VarDef {
                        lower: zero,
                        upper: Some(Rat { num: inst.buy_cap[port][g], den: inst.scale }),
                        objective: zero,
                        integer,
                    },
                );
                vars.push(
                    VarDef {
                        lower: zero,
                        upper: Some(Rat { num: inst.sell_cap[port][g], den: inst.scale }),
                        objective: zero,
                        integer,
                    },
                );
                vars.push(VarDef { lower: zero, upper: None, objective: zero, integer });
            } else {
                vars.push(VarDef { lower: zero, upper: Some(zero), objective: zero, integer });
                vars.push(VarDef { lower: zero, upper: Some(zero), objective: zero, integer });
                vars.push(VarDef { lower: zero, upper: Some(zero), objective: zero, integer });
            }
        }
        vars.push(VarDef { lower: zero, upper: None, objective: zero, integer });
    }
    if r_len > 0 {
        let last_cap = var_capital_exec(r_len - 1);
        proof {
            assert(last_cap < vars@.len());
        }
        let v = VarDef { lower: zero, upper: None, objective: one, integer };
        vars.set(last_cap, v);
    }
    let mut constraints: Vec<Constraint> = Vec::new();
    for j in 0..r_len
        invariant
            inst.well_formed(),
            valid_route(*inst, route@),
            r_len == route@.len(),
            g_len == inst.n_goods,
            gc == inst.n_goods as int,
            rr == r_len as int,
            zero == rat_zero(),
            one == rat_one(),
            neg_one == rat_neg_one(),
            constraints@.len() == (j as int) * 16,
            forall|jj: int, gg: int|
                0 <= jj < j && 0 <= gg < 16 ==> {
                    let c = #[trigger] constraints@[jj * 16 + gg];
                    if gg < gc {
                        &&& c.terms@ == inventory_terms(jj, gg)
                        &&& c.op == ConstraintOp::Eq
                        &&& c.rhs == rat_zero()
                    } else {
                        trivial_constraint(c)
                    }
                },
    {
        for g in 0..16usize
            invariant
                inst.well_formed(),
                valid_route(*inst, route@),
                r_len == route@.len(),
                g_len == inst.n_goods,
                gc == inst.n_goods as int,
                rr == r_len as int,
                j < r_len,
                zero == rat_zero(),
                one == rat_one(),
                neg_one == rat_neg_one(),
                constraints@.len() == (j as int) * 16 + g,
                forall|jj: int, gg: int|
                    0 <= jj < j && 0 <= gg < 16 ==> {
                        let c = #[trigger] constraints@[jj * 16 + gg];
                        if gg < gc {
                            &&& c.terms@ == inventory_terms(jj, gg)
                            &&& c.op == ConstraintOp::Eq
                            &&& c.rhs == rat_zero()
                        } else {
                            trivial_constraint(c)
                        }
                    },
                forall|gg: int|
                    0 <= gg < g ==> {
                        let c = #[trigger] constraints@[(j as int) * 16 + gg];
                        if gg < gc {
                            &&& c.terms@ == inventory_terms(j as int, gg)
                            &&& c.op == ConstraintOp::Eq
                            &&& c.rhs == rat_zero()
                        } else {
                            trivial_constraint(c)
                        }
                    },
        {
            if g < g_len {
                constraints.push(build_inventory_constraint(j, g, zero, one, neg_one));
            } else {
                let terms: Vec<(usize, Rat)> = Vec::new();
                constraints.push(Constraint { terms, op: ConstraintOp::Eq, rhs: zero });
            }
        }
    }
    for j in 0..r_len
        invariant
            inst.well_formed(),
            valid_route(*inst, route@),
            r_len == route@.len(),
            g_len == inst.n_goods,
            gc == inst.n_goods as int,
            rr == r_len as int,
            zero == rat_zero(),
            one == rat_one(),
            neg_one == rat_neg_one(),
            constraints@.len() == rr * 16 + j,
            forall|jj: int, gg: int|
                0 <= jj < rr && 0 <= gg < 16 ==> {
                    let c = #[trigger] constraints@[jj * 16 + gg];
                    if gg < gc {
                        &&& c.terms@ == inventory_terms(jj, gg)
                        &&& c.op == ConstraintOp::Eq
                        &&& c.rhs == rat_zero()
                    } else {
                        trivial_constraint(c)
                    }
                },
            forall|jj: int|
                0 <= jj < j ==> {
                    let c = #[trigger] constraints@[rr * 16 + jj];
                    &&& c.terms@ == capacity_terms(*inst, jj)
                    &&& c.op == ConstraintOp::Le
                    &&& c.rhs == (Rat { num: inst.capacity, den: inst.scale })
                },
    {
        constraints.push(build_capacity_constraint(inst, j));
    }
    for j in 0..r_len
        invariant
            inst.well_formed(),
            valid_route(*inst, route@),
            r_len == route@.len(),
            g_len == inst.n_goods,
            gc == inst.n_goods as int,
            rr == r_len as int,
            zero == rat_zero(),
            one == rat_one(),
            neg_one == rat_neg_one(),
            constraints@.len() == rr * 17 + j,
            forall|jj: int, gg: int|
                0 <= jj < rr && 0 <= gg < 16 ==> {
                    let c = #[trigger] constraints@[jj * 16 + gg];
                    if gg < gc {
                        &&& c.terms@ == inventory_terms(jj, gg)
                        &&& c.op == ConstraintOp::Eq
                        &&& c.rhs == rat_zero()
                    } else {
                        trivial_constraint(c)
                    }
                },
            forall|jj: int|
                0 <= jj < rr ==> {
                    let c = #[trigger] constraints@[rr * 16 + jj];
                    &&& c.terms@ == capacity_terms(*inst, jj)
                    &&& c.op == ConstraintOp::Le
                    &&& c.rhs == (Rat { num: inst.capacity, den: inst.scale })
                },
            forall|jj: int|
                0 <= jj < j ==> {
                    let c = #[trigger] constraints@[rr * 17 + jj];
                    &&& c.terms@ == capital_terms(*inst, route@, jj)
                    &&& c.op == ConstraintOp::Eq
                    &&& c.rhs == capital_rhs(*inst, route@, jj)
                },
    {
        constraints.push(build_capital_constraint(inst, route, j, one, neg_one));
    }
    if r_len > 0 {
        for g in 0..16usize
            invariant
                inst.well_formed(),
                valid_route(*inst, route@),
                r_len == route@.len(),
                r_len > 0,
                g_len == inst.n_goods,
                gc == inst.n_goods as int,
                rr == r_len as int,
                zero == rat_zero(),
                one == rat_one(),
                constraints@.len() == rr * 18 + g,
                forall|jj: int, gg: int|
                    0 <= jj < rr && 0 <= gg < 16 ==> {
                        let c = #[trigger] constraints@[jj * 16 + gg];
                        if gg < gc {
                            &&& c.terms@ == inventory_terms(jj, gg)
                            &&& c.op == ConstraintOp::Eq
                            &&& c.rhs == rat_zero()
                        } else {
                            trivial_constraint(c)
                        }
                    },
                forall|jj: int|
                    0 <= jj < rr ==> {
                        let c = #[trigger] constraints@[rr * 16 + jj];
                        &&& c.terms@ == capacity_terms(*inst, jj)
                        &&& c.op == ConstraintOp::Le
                        &&& c.rhs == (Rat { num: inst.capacity, den: inst.scale })
                    },
                forall|jj: int|
                    0 <= jj < rr ==> {
                        let c = #[trigger] constraints@[rr * 17 + jj];
                        &&& c.terms@ == capital_terms(*inst, route@, jj)
                        &&& c.op == ConstraintOp::Eq
                        &&& c.rhs == capital_rhs(*inst, route@, jj)
                    },
                forall|gg: int|
                    0 <= gg < g ==> {
                        let c = #[trigger] constraints@[rr * 18 + gg];
                        if gg < gc {
                            &&& c.terms@ == seq![((var_sell(0, gg)) as usize, rat_one())]
                            &&& c.op == ConstraintOp::Eq
                            &&& c.rhs == rat_zero()
                        } else {
                            trivial_constraint(c)
                        }
                    },
        {
            if g < g_len {
                let mut terms: Vec<(usize, Rat)> = Vec::new();
                terms.push((var_buy_exec(0, g) + 1, one));
                proof {
                    assert(terms@ =~= seq![((var_sell(0, g as int)) as usize, rat_one())]);
                }
                constraints.push(Constraint { terms, op: ConstraintOp::Eq, rhs: zero });
            } else {
                let terms: Vec<(usize, Rat)> = Vec::new();
                constraints.push(Constraint { terms, op: ConstraintOp::Eq, rhs: zero });
            }
        }
        for j in 1..r_len
            invariant
                inst.well_formed(),
                valid_route(*inst, route@),
                r_len == route@.len(),
                r_len > 0,
                g_len == inst.n_goods,
                gc == inst.n_goods as int,
                rr == r_len as int,
                zero == rat_zero(),
                one == rat_one(),
                neg_one == rat_neg_one(),
                constraints@.len() == rr * 18 + 16 + (j as int - 1) * 16,
                forall|jj: int, gg: int|
                    0 <= jj < rr && 0 <= gg < 16 ==> {
                        let c = #[trigger] constraints@[jj * 16 + gg];
                        if gg < gc {
                            &&& c.terms@ == inventory_terms(jj, gg)
                            &&& c.op == ConstraintOp::Eq
                            &&& c.rhs == rat_zero()
                        } else {
                            trivial_constraint(c)
                        }
                    },
                forall|jj: int|
                    0 <= jj < rr ==> {
                        let c = #[trigger] constraints@[rr * 16 + jj];
                        &&& c.terms@ == capacity_terms(*inst, jj)
                        &&& c.op == ConstraintOp::Le
                        &&& c.rhs == (Rat { num: inst.capacity, den: inst.scale })
                    },
                forall|jj: int|
                    0 <= jj < rr ==> {
                        let c = #[trigger] constraints@[rr * 17 + jj];
                        &&& c.terms@ == capital_terms(*inst, route@, jj)
                        &&& c.op == ConstraintOp::Eq
                        &&& c.rhs == capital_rhs(*inst, route@, jj)
                    },
                forall|gg: int|
                    0 <= gg < 16 ==> {
                        let c = #[trigger] constraints@[rr * 18 + gg];
                        if gg < gc {
                            &&& c.terms@ == seq![((var_sell(0, gg)) as usize, rat_one())]
                            &&& c.op == ConstraintOp::Eq
                            &&& c.rhs == rat_zero()
                        } else {
                            trivial_constraint(c)
                        }
                    },
                forall|jj: int, gg: int|
                    1 <= jj < j && 0 <= gg < 16 ==> {
                        let c = #[trigger] constraints@[rr * 18 + 16 + (jj - 1) * 16 + gg];
                        if gg < gc {
                            &&& c.terms@ == sell_bound_terms(jj, gg)
                            &&& c.op == ConstraintOp::Le
                            &&& c.rhs == rat_zero()
                        } else {
                            trivial_constraint(c)
                        }
                    },
        {
            for g in 0..16usize
                invariant
                    inst.well_formed(),
                    valid_route(*inst, route@),
                    r_len == route@.len(),
                    r_len > 0,
                    g_len == inst.n_goods,
                    gc == inst.n_goods as int,
                    rr == r_len as int,
                    zero == rat_zero(),
                    one == rat_one(),
                    neg_one == rat_neg_one(),
                    1 <= j < r_len,
                    constraints@.len() == rr * 18 + 16 + (j as int - 1) * 16 + g,
                    forall|jj: int, gg: int|
                        0 <= jj < rr && 0 <= gg < 16 ==> {
                            let c = #[trigger] constraints@[jj * 16 + gg];
                            if gg < gc {
                                &&& c.terms@ == inventory_terms(jj, gg)
                                &&& c.op == ConstraintOp::Eq
                                &&& c.rhs == rat_zero()
                            } else {
                                trivial_constraint(c)
                            }
                        },
                    forall|jj: int|
                        0 <= jj < rr ==> {
                            let c = #[trigger] constraints@[rr * 16 + jj];
                            &&& c.terms@ == capacity_terms(*inst, jj)
                            &&& c.op == ConstraintOp::Le
                            &&& c.rhs == (Rat { num: inst.capacity, den: inst.scale })
                        },
                    forall|jj: int|
                        0 <= jj < rr ==> {
                            let c = #[trigger] constraints@[rr * 17 + jj];
                            &&& c.terms@ == capital_terms(*inst, route@, jj)
                            &&& c.op == ConstraintOp::Eq
                            &&& c.rhs == capital_rhs(*inst, route@, jj)
                        },
                    forall|gg: int|
                        0 <= gg < 16 ==> {
                            let c = #[trigger] constraints@[rr * 18 + gg];
                            if gg < gc {
                                &&& c.terms@ == seq![((var_sell(0, gg)) as usize, rat_one())]
                                &&& c.op == ConstraintOp::Eq
                                &&& c.rhs == rat_zero()
                            } else {
                                trivial_constraint(c)
                            }
                        },
                    forall|jj: int, gg: int|
                        1 <= jj < j && 0 <= gg < 16 ==> {
                            let c = #[trigger] constraints@[rr * 18 + 16 + (jj - 1) * 16 + gg];
                            if gg < gc {
                                &&& c.terms@ == sell_bound_terms(jj, gg)
                                &&& c.op == ConstraintOp::Le
                                &&& c.rhs == rat_zero()
                            } else {
                                trivial_constraint(c)
                            }
                        },
                    forall|gg: int|
                        0 <= gg < g ==> {
                            let c = #[trigger] constraints@[rr * 18 + 16 + (j as int - 1) * 16
                                + gg];
                            if gg < gc {
                                &&& c.terms@ == sell_bound_terms(j as int, gg)
                                &&& c.op == ConstraintOp::Le
                                &&& c.rhs == rat_zero()
                            } else {
                                trivial_constraint(c)
                            }
                        },
            {
                if g < g_len {
                    let mut terms: Vec<(usize, Rat)> = Vec::new();
                    terms.push((var_buy_exec(j, g) + 1, one));
                    terms.push((var_buy_exec(j - 1, g) + 2, neg_one));
                    proof {
                        assert(terms@ =~= sell_bound_terms(j as int, g as int));
                    }
                    constraints.push(Constraint { terms, op: ConstraintOp::Le, rhs: zero });
                } else {
                    let terms: Vec<(usize, Rat)> = Vec::new();
                    constraints.push(Constraint { terms, op: ConstraintOp::Eq, rhs: zero });
                }
            }
        }
    }
    let model = LpModel { vars, constraints };
    proof {
        assert forall|j: int| 0 <= j < r_len implies model.vars@[var_capital(j)] == (VarDef {
            lower: rat_zero(),
            upper: None,
            objective: if j == r_len as int - 1 {
                rat_one()
            } else {
                rat_zero()
            },
            integer,
        }) by {
            if j != rr - 1 {
                assert(var_capital(j) != var_capital(rr - 1)) by (nonlinear_arith)
                    requires
                        0 <= j < rr - 1,
                        var_capital(j) == j * 49 + 48,
                        var_capital(rr - 1) == (rr - 1) * 49 + 48,
                ;
            }
        }
        assert forall|j: int, g: int|
            0 <= j < r_len && 0 <= g < 16 implies var_buy(j, g) != var_capital(rr - 1) && var_sell(
            j,
            g,
        ) != var_capital(rr - 1) && var_inv(j, g) != var_capital(rr - 1) by {
            assert(j * 49 + 3 * g != (rr - 1) * 49 + 48 && j * 49 + 3 * g + 1 != (rr - 1) * 49 + 48
                && j * 49 + 3 * g + 2 != (rr - 1) * 49 + 48) by (nonlinear_arith)
                requires
                    0 <= j < rr,
                    0 <= g < 16,
            ;
        }
    }
    model
}

/// The continuous-relaxation evaluator: it states the exact linear model of
/// a route; an outside optimizer solves it, and the reported plan is
/// accepted only through the exact plan check.
pub struct LpProfitCalculator;

impl LpProfitCalculator {
    /// A new calculator; it carries no state.
    pub fn new() -> (r: LpProfitCalculator) {
        LpProfitCalculator
    }

    /// Builds the continuous relaxation of the route.
    pub fn build_model(&self, inst: &Instance, route: &Vec<PortId>) -> (model: LpModel)
        requires
            inst.well_formed(),
            valid_route(*inst, route@),
        ensures
            is_route_model(model, *inst, route@, false),
    {
        build_route_model(inst, route, false)
    }

    /// The evaluator's diagnostic name.
    pub fn name(&self) -> (r: &'static str)
        ensures
            r@ == "LpProfitCalculator"@,
    {
        "LpProfitCalculator"
    }
}

/// The exact integer evaluator: the same model with every variable
/// integer-constrained, for small instances and cross-checking.
pub struct IntegerBruteForce;

impl IntegerBruteForce {
    /// A new calculator; it carries no state.
    pub fn new() -> (r: IntegerBruteForce) {
        IntegerBruteForce
    }

    /// Builds the integer-constrained model of the route.
    pub fn build_model(&self, inst: &Instance, route: &Vec<PortId>) -> (model: LpModel)
        requires
            inst.well_formed(),
            valid_route(*inst, route@),
        ensures
            is_route_model(model, *inst, route@, true),
    {
        build_route_model(inst, route, true)
    }

    /// The evaluator's diagnostic name.
    pub fn name(&self) -> (r: &'static str)
        ensures
            r@ == "IntegerBruteForce"@,
    {
        "IntegerBruteForce"
    }
}

} // verus!
