//! Laws the evaluators obey, stated and proved once for all inputs.

use vstd::prelude::*;

use crate::greedy::{
    good_result, greedy_profit_num, initial_state, match_sell, pick_buy, pick_sell, route_bcaps,
    route_bprices, route_scaps, route_sprices, total_gain, greedy_rounds, GoodState,
};
use vstd::math::min;
use crate::instance::{Instance, PortId, valid_route};
use crate::intervals::{
    best_close_num, buys_in, candidate_seq, choice, chosen, cseq_g, cseq_i, dp_num, first_best,
    interval_profit_num, is_candidate, ival_num, lemma_chosen_sorted, lemma_product_split,
    product_except, qty_num, sells_in, take_num, Interval,
};
use crate::plan::{
    inventory_num, respects_capacity, respects_inventory, route_expense_num,
    weighted_inventory_num, Decisions,
};
use crate::rat::{rat_eq_spec, Rat};

verus! {

/// Two stops carry the same market data: equal prices, capacities and visit
/// cost rows.
pub open spec fn same_stop_tables(inst1: Instance, p1: int, inst2: Instance, p2: int) -> bool {
    &&& inst1.buy_price@[p1]@ == inst2.buy_price@[p2]@
    &&& inst1.sell_price@[p1]@ == inst2.sell_price@[p2]@
    &&& inst1.buy_cap@[p1]@ == inst2.buy_cap@[p2]@
    &&& inst1.sell_cap@[p1]@ == inst2.sell_cap@[p2]@
    &&& inst1.visit_cost@[p1] == inst2.visit_cost@[p2]
}

/// The two routes read the same data from their instances: per-stop tables,
/// leg travel times, and all scalar instance data agree.
pub open spec fn same_route_view(
    inst1: Instance,
    route1: Seq<PortId>,
    inst2: Instance,
    route2: Seq<PortId>,
) -> bool {
    &&& route1.len() == route2.len()
    &&& inst1.n_goods == inst2.n_goods
    &&& inst1.scale == inst2.scale
    &&& inst1.weight@ == inst2.weight@
    &&& inst1.capacity == inst2.capacity
    &&& inst1.travel_cost == inst2.travel_cost
    &&& inst1.initial_capital == inst2.initial_capital
    &&& forall|j: int|
        0 <= j < route1.len() ==> same_stop_tables(
            inst1,
            #[trigger] route1[j] as int,
            inst2,
            route2[j] as int,
        )
    &&& forall|j: int|
        1 <= j < route1.len() ==> inst1.travel_time@[route1[j - 1] as int]@[#[trigger] route1[j] as int]
            == inst2.travel_time@[route2[j - 1] as int]@[route2[j] as int]
}

/// The greedy matching of one good depends only on the route view.
proof fn lemma_greedy_good_congruent(
    inst1: Instance,
    route1: Seq<PortId>,
    inst2: Instance,
    route2: Seq<PortId>,
    g: int,
)
    requires
        same_route_view(inst1, route1, inst2, route2),
        0 <= g < inst1.n_goods,
    ensures
        good_result(inst1, route1, g) == good_result(inst2, route2, g),
{
    assert(route_bprices(inst1, route1, g) =~= route_bprices(inst2, route2, g));
    assert(route_sprices(inst1, route1, g) =~= route_sprices(inst2, route2, g));
    assert(route_bcaps(inst1, route1, g) =~= route_bcaps(inst2, route2, g));
    assert(route_scaps(inst1, route1, g) =~= route_scaps(inst2, route2, g));
    assert(initial_state(inst1, route1, g) == initial_state(inst2, route2, g));
    assert(Seq::new(route1.len(), |j: int| true) =~= Seq::new(route2.len(), |j: int| true));
}

/// The summed matching gains depend only on the route view.
proof fn lemma_total_gain_congruent(
    inst1: Instance,
    route1: Seq<PortId>,
    inst2: Instance,
    route2: Seq<PortId>,
    g: int,
)
    requires
        same_route_view(inst1, route1, inst2, route2),
        0 <= g <= inst1.n_goods,
    ensures
        total_gain(inst1, route1, g) == total_gain(inst2, route2, g),
    decreases g,
{
    if g > 0 {
        lemma_total_gain_congruent(inst1, route1, inst2, route2, g - 1);
        lemma_greedy_good_congruent(inst1, route1, inst2, route2, g - 1);
    }
}

/// The route expense depends only on the route view.
proof fn lemma_expense_congruent(
    inst1: Instance,
    route1: Seq<PortId>,
    inst2: Instance,
    route2: Seq<PortId>,
    j: int,
)
    requires
        same_route_view(inst1, route1, inst2, route2),
        j < route1.len(),
    ensures
        route_expense_num(inst1, route1, j) == route_expense_num(inst2, route2, j),
    decreases j,
{
    if j > 0 {
        lemma_expense_congruent(inst1, route1, inst2, route2, j - 1);
    }
}

/// Relabeling ports consistently across the market tables and the route
/// leaves the greedy evaluation unchanged: profit and every per-stop traded
/// quantity agree whenever the two routes read the same data.
///
/// Renaming the ports of an instance and mapping the route through the same
/// renaming yields the same route view, so this law covers permutation
/// invariance of the greedy evaluator.
pub proof fn lemma_greedy_permutation_invariant(
    inst1: Instance,
    route1: Seq<PortId>,
    inst2: Instance,
    route2: Seq<PortId>,
)
    requires
        same_route_view(inst1, route1, inst2, route2),
    ensures
        greedy_profit_num(inst1, route1) == greedy_profit_num(inst2, route2),
        forall|g: int|
            0 <= g < inst1.n_goods ==> #[trigger] good_result(inst1, route1, g) == good_result(
                inst2,
                route2,
                g,
            ),
{
    lemma_total_gain_congruent(inst1, route1, inst2, route2, inst1.n_goods as int);
    lemma_expense_congruent(inst1, route1, inst2, route2, route1.len() - 1);
    assert forall|g: int|
        0 <= g < inst1.n_goods implies #[trigger] good_result(inst1, route1, g) == good_result(
        inst2,
        route2,
        g,
    ) by {
        lemma_greedy_good_congruent(inst1, route1, inst2, route2, g);
    }
}

/// Candidate enumeration depends only on the route view.
proof fn lemma_cseq_congruent(
    inst1: Instance,
    route1: Seq<PortId>,
    inst2: Instance,
    route2: Seq<PortId>,
    j: int,
    i: int,
)
    requires
        same_route_view(inst1, route1, inst2, route2),
        route1.len() <= usize::MAX,
        i <= route1.len(),
        j < route1.len(),
    ensures
        cseq_i(inst1, route1, j, i) == cseq_i(inst2, route2, j, i),
    decreases i, 0int,
{
    if i > 0 {
        lemma_cseq_congruent(inst1, route1, inst2, route2, j, i - 1);
        lemma_cseq_g_congruent(inst1, route1, inst2, route2, j, i - 1, inst1.n_goods as int);
    }
}

/// Per-buy-stop candidate enumeration depends only on the route view.
proof fn lemma_cseq_g_congruent(
    inst1: Instance,
    route1: Seq<PortId>,
    inst2: Instance,
    route2: Seq<PortId>,
    j: int,
    i: int,
    g: int,
)
    requires
        same_route_view(inst1, route1, inst2, route2),
        route1.len() <= usize::MAX,
        0 <= i < route1.len(),
        j < route1.len(),
    ensures
        cseq_g(inst1, route1, j, i, g) == cseq_g(inst2, route2, j, i, g),
    decreases i, g,
{
    if g > 0 {
        lemma_cseq_g_congruent(inst1, route1, inst2, route2, j, i, g - 1);
        if 0 <= j {
            assert(is_candidate(inst1, route1, g - 1, i, j) == is_candidate(
                inst2,
                route2,
                g - 1,
                i,
                j,
            ));
        }
    }
}

/// The dynamic-program value depends only on the route view.
proof fn lemma_dp_congruent(
    inst1: Instance,
    route1: Seq<PortId>,
    inst2: Instance,
    route2: Seq<PortId>,
    j: int,
)
    requires
        same_route_view(inst1, route1, inst2, route2),
        route1.len() <= usize::MAX,
        j < route1.len(),
    ensures
        dp_num(inst1, route1, j) == dp_num(inst2, route2, j),
    decreases j + 1, 0int, 0int,
{
    if j > 0 {
        lemma_dp_congruent(inst1, route1, inst2, route2, j - 1);
        lemma_cseq_congruent(inst1, route1, inst2, route2, j, j);
        lemma_best_close_congruent(
            inst1,
            route1,
            inst2,
            route2,
            j,
            candidate_seq(inst1, route1, j).len() as int,
        );
    }
}

/// A candidate's take value depends only on the route view.
proof fn lemma_take_congruent(
    inst1: Instance,
    route1: Seq<PortId>,
    inst2: Instance,
    route2: Seq<PortId>,
    j: int,
    item: Interval,
)
    requires
        same_route_view(inst1, route1, inst2, route2),
        route1.len() <= usize::MAX,
        0 < j < route1.len(),
        item.buy_port_index < j,
        item.product < inst1.n_goods,
    ensures
        take_num(inst1, route1, j, item) == take_num(inst2, route2, j, item),
    decreases j, 0int, 1int,
{
    assert(ival_num(inst1, route1, item.product as int, item.buy_port_index as int, j) == ival_num(
        inst2,
        route2,
        item.product as int,
        item.buy_port_index as int,
        j,
    ));
    if 0 < item.buy_port_index && item.buy_port_index < j {
        lemma_dp_congruent(inst1, route1, inst2, route2, item.buy_port_index - 1);
    }
}

/// The best take value over a candidate prefix depends only on the route
/// view.
proof fn lemma_best_close_congruent(
    inst1: Instance,
    route1: Seq<PortId>,
    inst2: Instance,
    route2: Seq<PortId>,
    j: int,
    k: int,
)
    requires
        same_route_view(inst1, route1, inst2, route2),
        route1.len() <= usize::MAX,
        0 < j < route1.len(),
        k <= candidate_seq(inst1, route1, j).len(),
        candidate_seq(inst1, route1, j) == candidate_seq(inst2, route2, j),
    ensures
        best_close_num(inst1, route1, j, k) == best_close_num(inst2, route2, j, k),
    decreases j, k, 2int,
{
    if k > 0 {
        lemma_best_close_congruent(inst1, route1, inst2, route2, j, k - 1);
        crate::intervals::lemma_cseq_items(inst1, route1, j, j);
        lemma_take_congruent(inst1, route1, inst2, route2, j, candidate_seq(inst1, route1, j)[k - 1]);
    }
}

/// The first candidate achieving a target take value depends only on the
/// route view.
proof fn lemma_first_best_congruent(
    inst1: Instance,
    route1: Seq<PortId>,
    inst2: Instance,
    route2: Seq<PortId>,
    j: int,
    k: int,
    target: int,
)
    requires
        same_route_view(inst1, route1, inst2, route2),
        route1.len() <= usize::MAX,
        0 < j < route1.len(),
        0 <= k,
        candidate_seq(inst1, route1, j) == candidate_seq(inst2, route2, j),
    ensures
        first_best(inst1, route1, j, k, target) == first_best(inst2, route2, j, k, target),
    decreases candidate_seq(inst1, route1, j).len() - k,
{
    let n = candidate_seq(inst1, route1, j).len() as int;
    if k < n {
        crate::intervals::lemma_cseq_items(inst1, route1, j, j);
        lemma_take_congruent(inst1, route1, inst2, route2, j, candidate_seq(inst1, route1, j)[k]);
        if take_num(inst1, route1, j, candidate_seq(inst1, route1, j)[k]) != target {
            lemma_first_best_congruent(inst1, route1, inst2, route2, j, k + 1, target);
        }
    }
}

/// The chosen intervals depend only on the route view.
proof fn lemma_chosen_congruent(
    inst1: Instance,
    route1: Seq<PortId>,
    inst2: Instance,
    route2: Seq<PortId>,
    j: int,
)
    requires
        same_route_view(inst1, route1, inst2, route2),
        route1.len() <= usize::MAX,
        j < route1.len(),
    ensures
        chosen(inst1, route1, j) == chosen(inst2, route2, j),
    decreases j + 1,
{
    if j >= 0 {
        if j > 0 {
            lemma_cseq_congruent(inst1, route1, inst2, route2, j, j);
            lemma_dp_congruent(inst1, route1, inst2, route2, j - 1);
            let n = candidate_seq(inst1, route1, j).len() as int;
            lemma_best_close_congruent(inst1, route1, inst2, route2, j, n);
            let best = best_close_num(inst1, route1, j, n);
            if !(best <= dp_num(inst1, route1, j - 1)) {
                lemma_first_best_congruent(inst1, route1, inst2, route2, j, 0, best);
            }
        }
        assert(choice(inst1, route1, j) == choice(inst2, route2, j));
        match choice(inst1, route1, j) {
            Option::None => {
                lemma_chosen_congruent(inst1, route1, inst2, route2, j - 1);
            },
            Option::Some(item) => {
                if 0 < item.buy_port_index && item.buy_port_index < j {
                    lemma_chosen_congruent(inst1, route1, inst2, route2, item.buy_port_index - 1);
                }
            },
        }
    }
}

/// Relabeling ports consistently across the market tables and the route
/// leaves the interval evaluation unchanged: the profit, the chosen
/// intervals and the full-capacity quantities agree whenever the two routes
/// read the same data.
///
/// Renaming the ports of an instance and mapping the route through the same
/// renaming yields the same route view, so this law covers permutation
/// invariance of the interval evaluator.
pub proof fn lemma_interval_permutation_invariant(
    inst1: Instance,
    route1: Seq<PortId>,
    inst2: Instance,
    route2: Seq<PortId>,
)
    requires
        same_route_view(inst1, route1, inst2, route2),
        route1.len() <= usize::MAX,
    ensures
        interval_profit_num(inst1, route1) == interval_profit_num(inst2, route2),
        chosen(inst1, route1, route1.len() - 1) == chosen(inst2, route2, route2.len() - 1),
        forall|g: int|
            0 <= g < inst1.n_goods ==> #[trigger] qty_num(inst1, g) == qty_num(inst2, g),
{
    lemma_dp_congruent(inst1, route1, inst2, route2, route1.len() - 1);
    lemma_expense_congruent(inst1, route1, inst2, route2, route1.len() - 1);
    lemma_chosen_congruent(inst1, route1, inst2, route2, route1.len() - 1);
    assert(inst1.weight_product() == inst2.weight_product());
    assert forall|g: int|
        0 <= g < inst1.n_goods implies #[trigger] qty_num(inst1, g) == qty_num(inst2, g) by {
        assert(product_except(inst1, g) == product_except(inst2, g));
    }
}

/// Some interval in `ch` holds good `g` aboard after stop `p`: it buys at or
/// before `p` and sells later.
pub open spec fn open_at(ch: Seq<Interval>, p: int, g: int) -> bool {
    exists|k: int|
        0 <= k < ch.len() && (#[trigger] ch[k]).product == g && ch[k].buy_port_index <= p
            && p < ch[k].sell_port_index
}

/// Some interval in `ch` holds a good with index below `g` aboard after stop
/// `p`.
pub open spec fn open_below(ch: Seq<Interval>, p: int, g: int) -> bool {
    exists|k: int|
        0 <= k < ch.len() && (#[trigger] ch[k]).product < g && ch[k].buy_port_index <= p
            && p < ch[k].sell_port_index
}

/// The interval evaluator's decisions: the full-capacity quantity at every
/// chosen buy and sell stop, nothing elsewhere.
pub open spec fn interval_decisions(inst: Instance, route: Seq<PortId>, d: Decisions) -> bool {
    let ch = chosen(inst, route, route.len() - 1);
    &&& d.den == inst.weight_product()
    &&& d.shape_wf(route.len() as int, inst.n_goods as int)
    &&& forall|p: int, g: int|
        0 <= p < route.len() && 0 <= g < inst.n_goods ==> #[trigger] d.bought_at(p, g)
            == if buys_in(ch, p, g) {
            qty_num(inst, g)
        } else {
            0
        }
    &&& forall|p: int, g: int|
        0 <= p < route.len() && 0 <= g < inst.n_goods ==> #[trigger] d.sold_at(p, g)
            == if sells_in(ch, p, g) {
            qty_num(inst, g)
        } else {
            0
        }
}

/// After every stop the interval evaluator's inventory of a good is either
/// one full-capacity load, while some chosen interval of that good is open,
/// or nothing.
proof fn lemma_interval_inventory(inst: Instance, route: Seq<PortId>, d: Decisions, p: int, g: int)
    requires
        inst.well_formed(),
        valid_route(inst, route),
        interval_decisions(inst, route, d),
        -1 <= p < route.len(),
        0 <= g < inst.n_goods,
    ensures
        inventory_num(d, p, g) == if open_at(chosen(inst, route, route.len() - 1), p, g) {
            qty_num(inst, g)
        } else {
            0
        },
    decreases p + 1,
{
    let last = route.len() - 1;
    let ch = chosen(inst, route, last);
    lemma_chosen_sorted(inst, route, last);
    if p < 0 {
        assert(!open_at(ch, p, g));
    } else {
        lemma_interval_inventory(inst, route, d, p - 1, g);
        if buys_in(ch, p, g) {
            let k = choose|k: int|
                0 <= k < ch.len() && (#[trigger] ch[k]).buy_port_index == p && ch[k].product == g;
            assert(!sells_in(ch, p, g)) by {
                if sells_in(ch, p, g) {
                    let k2 = choose|k2: int|
                        0 <= k2 < ch.len() && (#[trigger] ch[k2]).sell_port_index == p && ch[k2].product
                            == g;
                    if k < k2 {
                        assert(ch[k].sell_port_index < ch[k2].buy_port_index);
                    } else if k2 < k {
                        assert(ch[k2].sell_port_index < ch[k].buy_port_index);
                    }
                }
            }
            assert(!open_at(ch, p - 1, g)) by {
                if open_at(ch, p - 1, g) {
                    let k2 = choose|k2: int|
                        0 <= k2 < ch.len() && (#[trigger] ch[k2]).product == g
                            && ch[k2].buy_port_index <= p - 1 && p - 1 < ch[k2].sell_port_index;
                    if k < k2 {
                        assert(ch[k].sell_port_index < ch[k2].buy_port_index);
                    } else if k2 < k {
                        assert(ch[k2].sell_port_index < ch[k].buy_port_index);
                    }
                }
            }
            assert(open_at(ch, p, g)) by {
                assert(ch[k].buy_port_index <= p < ch[k].sell_port_index);
            }
        } else if sells_in(ch, p, g) {
            let k = choose|k: int|
                0 <= k < ch.len() && (#[trigger] ch[k]).sell_port_index == p && ch[k].product == g;
            assert(open_at(ch, p - 1, g)) by {
                assert(ch[k].buy_port_index <= p - 1 && p - 1 < ch[k].sell_port_index);
            }
            assert(!open_at(ch, p, g)) by {
                if open_at(ch, p, g) {
                    let k2 = choose|k2: int|
                        0 <= k2 < ch.len() && (#[trigger] ch[k2]).product == g
                            && ch[k2].buy_port_index <= p && p < ch[k2].sell_port_index;
                    if k < k2 {
                        assert(ch[k].sell_port_index < ch[k2].buy_port_index);
                    } else if k2 < k {
                        assert(ch[k2].sell_port_index < ch[k].buy_port_index);
                    }
                }
            }
        } else {
            assert(open_at(ch, p, g) == open_at(ch, p - 1, g)) by {
                if open_at(ch, p, g) && !open_at(ch, p - 1, g) {
                    let k = choose|k: int|
                        0 <= k < ch.len() && (#[trigger] ch[k]).product == g
                            && ch[k].buy_port_index <= p && p < ch[k].sell_port_index;
                    assert(ch[k].buy_port_index == p);
                    assert(buys_in(ch, p, g));
                }
                if open_at(ch, p - 1, g) && !open_at(ch, p, g) {
                    let k = choose|k: int|
                        0 <= k < ch.len() && (#[trigger] ch[k]).product == g
                            && ch[k].buy_port_index <= p - 1 && p - 1 < ch[k].sell_port_index;
                    assert(ch[k].sell_port_index == p);
                    assert(sells_in(ch, p, g));
                }
            }
        }
    }
}

/// The weighted inventory after any stop is either one full boat load, while
/// some chosen interval is open, or nothing.
proof fn lemma_interval_weighted(inst: Instance, route: Seq<PortId>, d: Decisions, p: int, g: int)
    requires
        inst.well_formed(),
        valid_route(inst, route),
        interval_decisions(inst, route, d),
        0 <= p < route.len(),
        0 <= g <= inst.n_goods,
    ensures
        weighted_inventory_num(inst, d, p, g) == if open_below(
            chosen(inst, route, route.len() - 1),
            p,
            g,
        ) {
            inst.capacity * inst.weight_product()
        } else {
            0
        },
    decreases g,
{
    let last = route.len() - 1;
    let ch = chosen(inst, route, last);
    lemma_chosen_sorted(inst, route, last);
    if g == 0 {
        assert(!open_below(ch, p, 0));
    } else {
        lemma_interval_weighted(inst, route, d, p, g - 1);
        lemma_interval_inventory(inst, route, d, p, g - 1);
        if open_at(ch, p, g - 1) {
            let k = choose|k: int|
                0 <= k < ch.len() && (#[trigger] ch[k]).product == g - 1 && ch[k].buy_port_index
                    <= p && p < ch[k].sell_port_index;
            assert(!open_below(ch, p, g - 1)) by {
                if open_below(ch, p, g - 1) {
                    let k2 = choose|k2: int|
                        0 <= k2 < ch.len() && (#[trigger] ch[k2]).product < g - 1
                            && ch[k2].buy_port_index <= p && p < ch[k2].sell_port_index;
                    if k < k2 {
                        assert(ch[k].sell_port_index < ch[k2].buy_port_index);
                    } else if k2 < k {
                        assert(ch[k2].sell_port_index < ch[k].buy_port_index);
                    }
                }
            }
            lemma_product_split(inst.weight@, g - 1, inst.n_goods as int);
            assert(inst.weight@[g - 1] * (inst.capacity * product_except(inst, g - 1))
                == inst.capacity * (product_except(inst, g - 1) * inst.weight@[g - 1]))
                by (nonlinear_arith);
            assert(open_below(ch, p, g)) by {
                assert(0 <= k < ch.len() && ch[k].product < g && ch[k].buy_port_index <= p && p
                    < ch[k].sell_port_index);
            }
        } else {
            assert(inst.weight@[g - 1] * 0 == 0) by (nonlinear_arith);
            assert(open_below(ch, p, g) == open_below(ch, p, g - 1)) by {
                if open_below(ch, p, g) && !open_below(ch, p, g - 1) {
                    let k = choose|k: int|
                        0 <= k < ch.len() && (#[trigger] ch[k]).product < g && ch[k].buy_port_index
                            <= p && p < ch[k].sell_port_index;
                    assert(ch[k].product == g - 1);
                    assert(open_at(ch, p, g - 1));
                }
            }
        }
    }
}

/// The interval evaluator's decisions sell only from inventory and never
/// exceed the boat capacity: nothing is sold that is not aboard, and the
/// weighted load after every stop is at most one full boat.
pub proof fn lemma_interval_decisions_feasible(inst: Instance, route: Seq<PortId>, d: Decisions)
    requires
        inst.well_formed(),
        valid_route(inst, route),
        interval_decisions(inst, route, d),
    ensures
        respects_inventory(d, route.len() as int, inst.n_goods as int),
        respects_capacity(inst, d, route.len() as int),
{
    let last = route.len() - 1;
    let ch = chosen(inst, route, last);
    lemma_chosen_sorted(inst, route, last);
    assert forall|p: int, g: int|
        0 <= p < route.len() && 0 <= g < inst.n_goods implies #[trigger] d.sold_at(p, g)
        <= inventory_num(d, p - 1, g) by {
        lemma_interval_inventory(inst, route, d, p - 1, g);
        lemma_product_split(inst.weight@, g, inst.n_goods as int);
        assert(inst.capacity * product_except(inst, g) >= 0) by (nonlinear_arith)
            requires
                inst.capacity >= 0,
                product_except(inst, g) >= 1,
        ;
        if sells_in(ch, p, g) {
            let k = choose|k: int|
                0 <= k < ch.len() && (#[trigger] ch[k]).sell_port_index == p && ch[k].product == g;
            assert(ch[k].buy_port_index <= p - 1 && p - 1 < ch[k].sell_port_index);
            assert(open_at(ch, p - 1, g));
        }
    }
    assert forall|p: int|
        0 <= p < route.len() implies #[trigger] weighted_inventory_num(
        inst,
        d,
        p,
        inst.n_goods as int,
    ) <= inst.capacity * d.den by {
        lemma_interval_weighted(inst, route, d, p, inst.n_goods as int);
        assert(inst.capacity * d.den >= 0) by (nonlinear_arith)
            requires
                inst.capacity >= 0,
                d.den >= 1,
        ;
    }
}

/// Net quantity accumulated over stops `0 ..= p`: total bought minus total
/// sold.
pub open spec fn net_sum(bought: Seq<int>, sold: Seq<int>, p: int) -> int
    decreases p + 1,
{
    if p < 0 {
        0
    } else {
        net_sum(bought, sold, p - 1) + bought[p] - sold[p]
    }
}

/// Adding `x` to one bought entry raises every net sum from that stop on by
/// `x`.
proof fn lemma_net_sum_bought(bought: Seq<int>, sold: Seq<int>, jb: int, x: int, p: int)
    requires
        0 <= jb < bought.len(),
        p < bought.len(),
    ensures
        net_sum(bought.update(jb, bought[jb] + x), sold, p) == net_sum(bought, sold, p) + if jb
            <= p {
            x
        } else {
            0
        },
    decreases p + 1,
{
    if p >= 0 {
        lemma_net_sum_bought(bought, sold, jb, x, p - 1);
    }
}

/// Adding `x` to one sold entry lowers every net sum from that stop on by
/// `x`.
proof fn lemma_net_sum_sold(bought: Seq<int>, sold: Seq<int>, i: int, x: int, p: int)
    requires
        0 <= i < sold.len(),
        p < sold.len(),
    ensures
        net_sum(bought, sold.update(i, sold[i] + x), p) == net_sum(bought, sold, p) - if i <= p {
            x
        } else {
            0
        },
    decreases p + 1,
{
    if p >= 0 {
        lemma_net_sum_sold(bought, sold, i, x, p - 1);
    }
}

/// The matching invariant: every stop sells at most what was bought earlier
/// and not yet sold, and all traded quantities are nonnegative.
pub open spec fn matching_ok(st: GoodState, len: int) -> bool {
    &&& st.bought.len() == len
    &&& st.sold.len() == len
    &&& st.bcap.len() == len
    &&& forall|p: int| 0 <= p < len ==> 0 <= #[trigger] st.bought[p]
    &&& forall|p: int|
        0 <= p < len ==> 0 <= #[trigger] st.sold[p] && st.sold[p] <= net_sum(
            st.bought,
            st.sold,
            p - 1,
        )
}

/// Filling one sell opportunity preserves the matching invariant: every
/// match pairs the sell with a strictly earlier buy.
proof fn lemma_match_sell_ok(bprices: Seq<int>, st: GoodState, i: int, price: int, scap_i: int)
    requires
        matching_ok(st, st.sold.len() as int),
        0 <= i < st.sold.len(),
    ensures
        matching_ok(match_sell(bprices, st, i, price, scap_i), st.sold.len() as int),
    decreases scap_i,
{
    let len = st.sold.len() as int;
    if scap_i > 0 {
        let jb = pick_buy(bprices, st.bcap, i, price, i);
        crate::greedy::lemma_pick_buy_props(bprices, st.bcap, i, price, i);
        if !(jb < 0 || st.bcap[jb] <= 0) {
            let x = min(scap_i, st.bcap[jb]);
            let next = GoodState {
                bcap: st.bcap.update(jb, st.bcap[jb] - x),
                bought: st.bought.update(jb, st.bought[jb] + x),
                sold: st.sold.update(i, st.sold[i] + x),
                gain: st.gain + x * (price - bprices[jb]),
            };
            assert forall|p: int|
                0 <= p < len implies 0 <= #[trigger] next.sold[p] && next.sold[p] <= net_sum(
                next.bought,
                next.sold,
                p - 1,
            ) by {
                lemma_net_sum_bought(st.bought, st.sold, jb, x, p - 1);
                lemma_net_sum_sold(st.bought.update(jb, st.bought[jb] + x), st.sold, i, x, p - 1);
                lemma_net_sum_bought(st.bought, st.sold, jb, x, p - 1);
                assert(net_sum(next.bought, next.sold, p - 1) == net_sum(st.bought, st.sold, p - 1)
                    + (if jb <= p - 1 {
                    x
                } else {
                    0
                }) - (if i <= p - 1 {
                    x
                } else {
                    0
                }));
            }
            lemma_match_sell_ok(bprices, next, i, price, scap_i - x);
        }
    }
}

/// Every round of the greedy matching preserves the matching invariant.
proof fn lemma_rounds_ok(
    bprices: Seq<int>,
    sprices: Seq<int>,
    scaps: Seq<int>,
    st: GoodState,
    rem: Seq<bool>,
    rounds: int,
)
    requires
        matching_ok(st, st.sold.len() as int),
        rem.len() == st.sold.len(),
    ensures
        matching_ok(greedy_rounds(bprices, sprices, scaps, st, rem, rounds), st.sold.len() as int),
    decreases rounds,
{
    if rounds > 0 {
        let i = pick_sell(sprices, rem, rem.len() as int);
        crate::greedy::lemma_pick_sell_props(sprices, rem, rem.len() as int);
        if i >= 0 {
            let next = match_sell(bprices, st, i, sprices[i], scaps[i]);
            lemma_match_sell_ok(bprices, st, i, sprices[i], scaps[i]);
            crate::greedy::lemma_match_sell_frame(bprices, st, i, sprices[i], scaps[i]);
            lemma_rounds_ok(bprices, sprices, scaps, next, rem.update(i, false), rounds - 1);
        }
    }
}

/// The greedy evaluator's decisions: exactly the per-good matching
/// quantities over the instance's scale.
pub open spec fn greedy_decisions(inst: Instance, route: Seq<PortId>, d: Decisions) -> bool {
    &&& d.den == inst.scale
    &&& d.shape_wf(route.len() as int, inst.n_goods as int)
    &&& forall|j: int, g: int|
        0 <= j < route.len() && 0 <= g < inst.n_goods ==> #[trigger] d.bought_at(j, g)
            == good_result(inst, route, g).bought[j]
    &&& forall|j: int, g: int|
        0 <= j < route.len() && 0 <= g < inst.n_goods ==> #[trigger] d.sold_at(j, g)
            == good_result(inst, route, g).sold[j]
}

/// The inventory of the greedy plan is the per-good net sum of its matching.
proof fn lemma_greedy_inventory_is_net_sum(
    inst: Instance,
    route: Seq<PortId>,
    d: Decisions,
    p: int,
    g: int,
)
    requires
        inst.well_formed(),
        greedy_decisions(inst, route, d),
        -1 <= p < route.len(),
        0 <= g < inst.n_goods,
    ensures
        inventory_num(d, p, g) == net_sum(
            good_result(inst, route, g).bought,
            good_result(inst, route, g).sold,
            p,
        ),
    decreases p + 1,
{
    if p >= 0 {
        lemma_greedy_inventory_is_net_sum(inst, route, d, p - 1, g);
    }
}

/// The greedy evaluator's decisions sell only from inventory: nothing is
/// sold that was not bought at an earlier stop, and nothing is sold at the
/// first stop.
pub proof fn lemma_greedy_decisions_sell_from_inventory(
    inst: Instance,
    route: Seq<PortId>,
    d: Decisions,
)
    requires
        inst.well_formed(),
        valid_route(inst, route),
        greedy_decisions(inst, route, d),
    ensures
        respects_inventory(d, route.len() as int, inst.n_goods as int),
        forall|g: int| 0 <= g < inst.n_goods ==> #[trigger] d.sold_at(0, g) == 0 || route.len()
            == 0,
{
    assert forall|p: int, g: int|
        0 <= p < route.len() && 0 <= g < inst.n_goods implies #[trigger] d.sold_at(p, g)
        <= inventory_num(d, p - 1, g) by {
        let gr = good_result(inst, route, g);
        lemma_good_result_ok(inst, route, g);
        lemma_greedy_inventory_is_net_sum(inst, route, d, p - 1, g);
    }
    if route.len() > 0 {
        assert forall|g: int| 0 <= g < inst.n_goods implies #[trigger] d.sold_at(0, g) == 0
            || route.len() == 0 by {
            lemma_good_result_ok(inst, route, g);
            assert(d.sold_at(0, g) <= net_sum(
                good_result(inst, route, g).bought,
                good_result(inst, route, g).sold,
                -1,
            )) by {
                lemma_greedy_inventory_is_net_sum(inst, route, d, -1, g);
                assert(d.sold_at(0, g) == good_result(inst, route, g).sold[0]);
            }
        }
    }
}

/// The result of the greedy matching satisfies the matching invariant.
proof fn lemma_good_result_ok(inst: Instance, route: Seq<PortId>, g: int)
    requires
        0 <= g < inst.n_goods,
    ensures
        matching_ok(good_result(inst, route, g), route.len() as int),
{
    let st = initial_state(inst, route, g);
    assert forall|p: int| 0 <= p < route.len() implies 0 <= #[trigger] st.sold[p] && st.sold[p]
        <= net_sum(st.bought, st.sold, p - 1) by {
        lemma_net_sum_zero(st.bought, st.sold, p - 1);
    }
    lemma_rounds_ok(
        route_bprices(inst, route, g),
        route_sprices(inst, route, g),
        route_scaps(inst, route, g),
        st,
        Seq::new(route.len(), |j: int| true),
        route.len() as int,
    );
}

/// The net sum of all-zero trades is zero.
proof fn lemma_net_sum_zero(bought: Seq<int>, sold: Seq<int>, p: int)
    requires
        forall|k: int| 0 <= k < bought.len() ==> #[trigger] bought[k] == 0,
        forall|k: int| 0 <= k < sold.len() ==> #[trigger] sold[k] == 0,
        p < bought.len(),
        p < sold.len(),
    ensures
        net_sum(bought, sold, p) == 0,
    decreases p + 1,
{
    if p >= 0 {
        lemma_net_sum_zero(bought, sold, p - 1);
    }
}

/// An empty route earns exactly the baseline: the initial capital, with no
/// decisions.
pub proof fn lemma_empty_route_baseline(inst: Instance)
    requires
        inst.well_formed(),
    ensures
        interval_profit_num(inst, Seq::<PortId>::empty()) == inst.initial_capital * inst.scale
            * inst.weight_product(),
        greedy_profit_num(inst, Seq::<PortId>::empty()) == inst.initial_capital * inst.scale,
        rat_eq_spec(
            (Rat {
                num: interval_profit_num(inst, Seq::<PortId>::empty()) as i64,
                den: (inst.scale * inst.scale * inst.weight_product()) as i64,
            }),
            (Rat { num: inst.initial_capital, den: inst.scale }),
        ),
        rat_eq_spec(
            (Rat {
                num: greedy_profit_num(inst, Seq::<PortId>::empty()) as i64,
                den: (inst.scale * inst.scale) as i64,
            }),
            (Rat { num: inst.initial_capital, den: inst.scale }),
        ),
{
    let route = Seq::<PortId>::empty();
    let d = inst.weight_product();
    crate::instance::lemma_weight_product_positive(inst.weight@, inst.n_goods as int);
    lemma_total_gain_zero_without_sales(inst, route, inst.n_goods as int);
    assert(interval_profit_num(inst, route) == inst.initial_capital * inst.scale * d);
    assert(greedy_profit_num(inst, route) == inst.initial_capital * inst.scale);
    assert(-0x100000 * 32 * 1024 <= inst.initial_capital * inst.scale * d && inst.initial_capital
        * inst.scale * d <= 0x100000 * 32 * 1024 && 1 <= inst.scale * inst.scale * d && inst.scale
        * inst.scale * d <= 1024 * 1024 && -0x100000 * 32 <= inst.initial_capital * inst.scale
        && inst.initial_capital * inst.scale <= 0x100000 * 32 && 1 <= inst.scale * inst.scale
        && inst.scale * inst.scale <= 1024) by (nonlinear_arith)
        requires
            -0x100000 <= inst.initial_capital <= 0x100000,
            1 <= inst.scale <= 32,
            1 <= d <= 1024,
    ;
    assert((inst.initial_capital * inst.scale * d) * inst.scale == inst.initial_capital
        * (inst.scale * inst.scale * d)) by (nonlinear_arith);
    assert((inst.initial_capital * inst.scale) * inst.scale == inst.initial_capital * (inst.scale
        * inst.scale)) by (nonlinear_arith);
}

/// On a route with no possible sale the greedy matching trades nothing, for
/// every good up to `g`.
proof fn lemma_total_gain_zero_without_sales(inst: Instance, route: Seq<PortId>, g: int)
    requires
        route.len() <= 1,
    ensures
        total_gain(inst, route, g) == 0,
    decreases g,
{
    if g > 0 {
        lemma_total_gain_zero_without_sales(inst, route, g - 1);
        lemma_good_result_single(inst, route, g - 1);
    }
}

/// With at most one stop there is no earlier buy to match: the matching for
/// each good ends in its initial state.
proof fn lemma_good_result_single(inst: Instance, route: Seq<PortId>, g: int)
    requires
        route.len() <= 1,
    ensures
        good_result(inst, route, g) == initial_state(inst, route, g),
{
    let bp = route_bprices(inst, route, g);
    let sp = route_sprices(inst, route, g);
    let sc = route_scaps(inst, route, g);
    let st = initial_state(inst, route, g);
    let rem = Seq::new(route.len(), |j: int| true);
    if route.len() == 0 {
        assert(greedy_rounds(bp, sp, sc, st, rem, 0) == st);
    } else {
        assert(rem[0] == true);
        assert(pick_sell(sp, rem, 0) == -1);
        assert(pick_sell(sp, rem, 1) == 0);
        let price = sp[0];
        let cap = sc[0];
        assert(pick_buy(bp, st.bcap, 0, price, 0) == -1);
        assert(match_sell(bp, st, 0, price, cap) == st);
        assert(greedy_rounds(bp, sp, sc, st, rem.update(0, false), 0) == st);
    }
}

/// A single-stop route allows no sale: the baseline profit is earned and the
/// chosen trades are empty, in both exact evaluators.
pub proof fn lemma_single_stop_no_sales(inst: Instance, route: Seq<PortId>)
    requires
        inst.well_formed(),
        valid_route(inst, route),
        route.len() == 1,
    ensures
        interval_profit_num(inst, route) == inst.initial_capital * inst.scale
            * inst.weight_product(),
        chosen(inst, route, 0) == Seq::<crate::intervals::Interval>::empty(),
        greedy_profit_num(inst, route) == inst.initial_capital * inst.scale,
        forall|g: int|
            0 <= g < inst.n_goods ==> #[trigger] good_result(inst, route, g).sold == Seq::new(
                route.len(),
                |j: int| 0int,
            ),
{
    lemma_total_gain_zero_without_sales(inst, route, inst.n_goods as int);
    assert(dp_num(inst, route, 0) == 0);
    assert(route_expense_num(inst, route, 0) == 0);
    assert(chosen(inst, route, -1) == Seq::<crate::intervals::Interval>::empty());
    assert(chosen(inst, route, 0) == Seq::<crate::intervals::Interval>::empty());
    assert forall|g: int|
        0 <= g < inst.n_goods implies #[trigger] good_result(inst, route, g).sold == Seq::new(
        route.len(),
        |j: int| 0int,
    ) by {
        lemma_good_result_single(inst, route, g);
    }
}

} // verus!
