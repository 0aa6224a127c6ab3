//! Exact dynamic program for full-capacity single-position trades.
//!
//! In the restricted regime where every trade commits the whole boat
//! capacity to one good between a buy stop and a later sell stop, with at
//! most one such trade open at a time, the best plan is found by a dynamic
//! program over stops: for every stop the program either carries over the
//! best value of the previous stop or closes the best-valued candidate
//! interval ending there.  A "skip" wins against an equal-valued "take"; a
//! strictly larger candidate value wins; remaining ties go to the earliest
//! candidate in construction order (ascending buy stop, then good).

use vstd::prelude::*;
use vstd::math::max;

use crate::instance::{
    lemma_weight_product_le, lemma_weight_product_positive, weight_product_prefix, GoodId,
    Instance, PortId, valid_route,
};
use crate::plan::{
    respects_capacity, respects_inventory, route_expense, route_expense_num, Decisions,
};
use crate::rat::Rat;

verus! {

/// A candidate full-capacity trade: buy `product` at route position
/// `buy_port_index`, sell it at route position `sell_port_index`.
#[derive(Clone, Copy, Debug, PartialEq, Eq, Structural)]
pub struct Interval {
    /// The traded good.
    pub product: GoodId,
    /// Route position where the good is bought.
    pub buy_port_index: usize,
    /// Route position where the good is sold.
    pub sell_port_index: usize,
}

impl Interval {
    /// A candidate trade of `product` bought at route position
    /// `buy_port_index` and sold at `sell_port_index`.
    pub fn new(product: GoodId, buy_port_index: usize, sell_port_index: usize) -> (r: Interval)
        ensures
            r.product == product,
            r.buy_port_index == buy_port_index,
            r.sell_port_index == sell_port_index,
    {
        Interval { product, buy_port_index, sell_port_index }
    }
}

/// Product of the raw weights of all goods except good `g`, over goods
/// `0 .. k`.
pub open spec fn product_except_prefix(weights: Seq<i64>, g: int, k: int) -> int
    decreases k,
{
    if k <= 0 {
        1
    } else {
        product_except_prefix(weights, g, k - 1) * (if k - 1 == g {
            1
        } else {
            weights[k - 1]
        })
    }
}

/// Product of the raw weights of all goods except good `g`: the numerator of
/// the full-capacity quantity `capacity / weight[g]` over the common
/// denominator `weight_product`.
pub open spec fn product_except(inst: Instance, g: int) -> int {
    product_except_prefix(inst.weight@, g, inst.n_goods as int)
}

/// The weight product splits into the weight of good `g` and the product of
/// the others.
pub proof fn lemma_product_split(weights: Seq<i64>, g: int, k: int)
    requires
        0 <= g < weights.len(),
        0 <= k <= weights.len(),
        forall|i: int| 0 <= i < weights.len() ==> 1 <= #[trigger] weights[i],
    ensures
        g < k ==> weight_product_prefix(weights, k) == product_except_prefix(weights, g, k)
            * weights[g],
        g >= k ==> weight_product_prefix(weights, k) == product_except_prefix(weights, g, k),
        product_except_prefix(weights, g, k) >= 1,
    decreases k,
{
    if k > 0 {
        lemma_product_split(weights, g, k - 1);
        let p = weight_product_prefix(weights, k - 1);
        let e = product_except_prefix(weights, g, k - 1);
        let w = weights[k - 1];
        if k - 1 == g {
            assert(weight_product_prefix(weights, k) == p * w);
            assert(product_except_prefix(weights, g, k) == e * 1);
        } else {
            if g < k - 1 {
                assert(p == e * weights[g]);
                assert(p * w == (e * weights[g]) * w);
                assert((e * weights[g]) * w == (e * w) * weights[g]) by (nonlinear_arith);
            }
        }
        assert(e * (if k - 1 == g {
            1int
        } else {
            w as int
        }) >= 1) by (nonlinear_arith)
            requires
                e >= 1,
                w >= 1,
        ;
    }
}

/// Whether `(g, i, j)` is a candidate interval for the route: buy stop
/// before sell stop, and a strictly profitable price difference.
pub open spec fn is_candidate(inst: Instance, route: Seq<PortId>, g: int, i: int, j: int) -> bool {
    &&& 0 <= i < j < route.len()
    &&& 0 <= g < inst.n_goods
    &&& inst.buy_price@[route[i] as int]@[g] < inst.sell_price@[route[j] as int]@[g]
}

/// Value numerator of candidate `(g, i, j)` over `scale^2 * weight_product`:
/// the price difference times the full-capacity quantity
/// `capacity / weight[g]`.
pub open spec fn ival_num(inst: Instance, route: Seq<PortId>, g: int, i: int, j: int) -> int {
    (inst.sell_price@[route[j] as int]@[g] - inst.buy_price@[route[i] as int]@[g]) * inst.capacity
        * product_except(inst, g) * inst.scale
}

/// Candidate intervals closing at stop `j` whose buy stop is below `i`, in
/// construction order: ascending buy stop, then ascending good.
pub open spec fn cseq_i(inst: Instance, route: Seq<PortId>, j: int, i: int) -> Seq<Interval>
    decreases i,
{
    if i <= 0 {
        Seq::empty()
    } else {
        cseq_i(inst, route, j, i - 1) + cseq_g(inst, route, j, i - 1, inst.n_goods as int)
    }
}

/// Candidate intervals closing at stop `j` buying at stop `i`, over goods
/// `0 .. g`, in ascending good order.
pub open spec fn cseq_g(inst: Instance, route: Seq<PortId>, j: int, i: int, g: int) -> Seq<Interval>
    decreases g,
{
    if g <= 0 {
        Seq::empty()
    } else {
        cseq_g(inst, route, j, i, g - 1) + if is_candidate(inst, route, g - 1, i, j) {
            seq![
                Interval {
                    product: (g - 1) as GoodId,
                    buy_port_index: i as usize,
                    sell_port_index: j as usize,
                },
            ]
        } else {
            Seq::empty()
        }
    }
}

/// All candidate intervals closing at stop `j`, in construction order.
pub open spec fn candidate_seq(inst: Instance, route: Seq<PortId>, j: int) -> Seq<Interval> {
    cseq_i(inst, route, j, j)
}

/// Every entry of `cseq_g` is a candidate buying at `i` and selling at `j`.
proof fn lemma_cseq_g_items(inst: Instance, route: Seq<PortId>, j: int, i: int, g: int)
    requires
        0 <= i <= usize::MAX,
        0 <= j <= usize::MAX,
        0 <= g <= inst.n_goods,
    ensures
        forall|k: int|
            0 <= k < cseq_g(inst, route, j, i, g).len() ==> {
                let item = #[trigger] cseq_g(inst, route, j, i, g)[k];
                &&& item.buy_port_index == i
                &&& item.sell_port_index == j
                &&& item.product < g
                &&& is_candidate(inst, route, item.product as int, i, j)
            },
    decreases g,
{
    if g > 0 {
        lemma_cseq_g_items(inst, route, j, i, g - 1);
        let prev = cseq_g(inst, route, j, i, g - 1);
        let cur = cseq_g(inst, route, j, i, g);
        assert forall|k: int| 0 <= k < cur.len() implies {
            let item = #[trigger] cur[k];
            &&& item.buy_port_index == i
            &&& item.sell_port_index == j
            &&& item.product < g
            &&& is_candidate(inst, route, item.product as int, i, j)
        } by {
            if k < prev.len() {
                assert(cur[k] == prev[k]);
            } else {
                assert(is_candidate(inst, route, g - 1, i, j));
                assert(cur[k] == Interval {
                    product: (g - 1) as GoodId,
                    buy_port_index: i as usize,
                    sell_port_index: j as usize,
                });
            }
        }
    }
}

/// Every entry of `cseq_i` is a candidate buying below `i` and selling at
/// `j`.
pub proof fn lemma_cseq_items(inst: Instance, route: Seq<PortId>, j: int, i: int)
    requires
        0 <= i <= usize::MAX,
        0 <= j <= usize::MAX,
    ensures
        forall|k: int|
            0 <= k < cseq_i(inst, route, j, i).len() ==> {
                let item = #[trigger] cseq_i(inst, route, j, i)[k];
                &&& item.buy_port_index < i
                &&& item.sell_port_index == j
                &&& item.product < inst.n_goods
                &&& is_candidate(inst, route, item.product as int, item.buy_port_index as int, j)
            },
    decreases i,
{
    if i > 0 {
        lemma_cseq_items(inst, route, j, i - 1);
        lemma_cseq_g_items(inst, route, j, i - 1, inst.n_goods as int);
        let prev = cseq_i(inst, route, j, i - 1);
        let tail = cseq_g(inst, route, j, i - 1, inst.n_goods as int);
        let cur = cseq_i(inst, route, j, i);
        assert forall|k: int| 0 <= k < cur.len() implies {
            let item = #[trigger] cur[k];
            &&& item.buy_port_index < i
            &&& item.sell_port_index == j
            &&& item.product < inst.n_goods
            &&& is_candidate(inst, route, item.product as int, item.buy_port_index as int, j)
        } by {
            if k < prev.len() {
                assert(cur[k] == prev[k]);
            } else {
                assert(cur[k] == tail[k - prev.len()]);
            }
        }
    }
}

/// Best value numerator over stops `0 .. j+1` of any set of pairwise
/// position-disjoint candidate intervals: carry the previous best forward or
/// close the best candidate at `j`.
pub open spec fn dp_num(inst: Instance, route: Seq<PortId>, j: int) -> int
    decreases j + 1, 0int, 0int,
{
    if j <= 0 {
        0
    } else {
        max(
            dp_num(inst, route, j - 1),
            best_close_num(inst, route, j, candidate_seq(inst, route, j).len() as int),
        )
    }
}

/// Take value of candidate `item` closing at `j`: its own value plus the
/// best value achievable before its buy stop.
pub open spec fn take_num(inst: Instance, route: Seq<PortId>, j: int, item: Interval) -> int
    decreases j, 0int, 1int,
{
    ival_num(inst, route, item.product as int, item.buy_port_index as int, j) + if 0
        < item.buy_port_index && item.buy_port_index < j {
        dp_num(inst, route, item.buy_port_index - 1)
    } else {
        0
    }
}

/// Best take value over the first `k` candidates closing at stop `j`; zero
/// when there is none.
pub open spec fn best_close_num(inst: Instance, route: Seq<PortId>, j: int, k: int) -> int
    decreases j, k, 2int,
{
    if k <= 0 {
        0
    } else {
        max(
            best_close_num(inst, route, j, k - 1),
            take_num(inst, route, j, candidate_seq(inst, route, j)[k - 1]),
        )
    }
}

/// Index of the first candidate at or after `k` closing at stop `j` whose
/// take value equals `target`; the list length when there is none.
pub open spec fn first_best(inst: Instance, route: Seq<PortId>, j: int, k: int, target: int) -> int
    decreases candidate_seq(inst, route, j).len() - k,
{
    let n = candidate_seq(inst, route, j).len() as int;
    if k < 0 || k >= n {
        n
    } else if take_num(inst, route, j, candidate_seq(inst, route, j)[k]) == target {
        k
    } else {
        first_best(inst, route, j, k + 1, target)
    }
}

/// The candidate taken at stop `j`, when taking beats carrying the previous
/// best forward: the first candidate in construction order achieving the
/// best take value.  A "skip" wins against an equal-valued "take".
pub open spec fn choice(inst: Instance, route: Seq<PortId>, j: int) -> Option<Interval> {
    let n = candidate_seq(inst, route, j).len() as int;
    let best = best_close_num(inst, route, j, n);
    if j <= 0 || best <= dp_num(inst, route, j - 1) {
        None
    } else {
        Some(candidate_seq(inst, route, j)[first_best(inst, route, j, 0, best)])
    }
}

/// The chosen pairwise position-disjoint intervals realizing `dp_num` over
/// stops `0 .. j+1`, reconstructed by walking predecessors.
pub open spec fn chosen(inst: Instance, route: Seq<PortId>, j: int) -> Seq<Interval>
    decreases j + 1,
{
    if j < 0 {
        Seq::empty()
    } else {
        match choice(inst, route, j) {
            Option::None => chosen(inst, route, j - 1),
            Option::Some(item) => (if 0 < item.buy_port_index && item.buy_port_index < j {
                chosen(inst, route, item.buy_port_index - 1)
            } else {
                Seq::empty()
            }).push(item),
        }
    }
}

/// Some chosen interval buys good `g` at route position `p`.
pub open spec fn buys_in(ch: Seq<Interval>, p: int, g: int) -> bool {
    exists|k: int|
        0 <= k < ch.len() && (#[trigger] ch[k]).buy_port_index == p && ch[k].product == g
}

/// Some chosen interval sells good `g` at route position `p`.
pub open spec fn sells_in(ch: Seq<Interval>, p: int, g: int) -> bool {
    exists|k: int|
        0 <= k < ch.len() && (#[trigger] ch[k]).sell_port_index == p && ch[k].product == g
}

/// Quantity numerator of a full-capacity trade of good `g`, over the
/// denominator `weight_product`: the exact quantity `capacity / weight[g]`.
pub open spec fn qty_num(inst: Instance, g: int) -> int {
    inst.capacity * product_except(inst, g)
}

/// Largest possible candidate value numerator under the machine limits.
pub const IVAL_MAX: i64 = 0x8000000000000;

/// Value numerators of candidates are nonnegative and bounded.
proof fn lemma_ival_bounds(inst: Instance, route: Seq<PortId>, g: int, i: int, j: int)
    requires
        inst.well_formed(),
        valid_route(inst, route),
        is_candidate(inst, route, g, i, j),
    ensures
        0 <= ival_num(inst, route, g, i, j) <= IVAL_MAX,
{
    let d = inst.sell_price@[route[j] as int]@[g] - inst.buy_price@[route[i] as int]@[g];
    lemma_product_split(inst.weight@, g, inst.n_goods as int);
    let e = product_except(inst, g);
    assert(e * inst.weight@[g] <= 1024 && inst.weight@[g] >= 1 && e >= 1 ==> e <= 1024)
        by (nonlinear_arith);
    assert(0 <= d * inst.capacity * e * inst.scale <= 0x8000000000000) by (nonlinear_arith)
        requires
            1 <= d <= 0x10000,
            0 <= inst.capacity <= 0x100000,
            1 <= e <= 1024,
            1 <= inst.scale <= 32,
    ;
}

/// The dynamic-program values are nonnegative and grow at most linearly in
/// the number of stops.
pub proof fn lemma_dp_bounds(inst: Instance, route: Seq<PortId>, j: int)
    requires
        inst.well_formed(),
        valid_route(inst, route),
        j < route.len(),
    ensures
        0 <= dp_num(inst, route, j),
        dp_num(inst, route, j) <= (if j >= 0 {
            j
        } else {
            0
        }) * IVAL_MAX,
    decreases j + 1, 0int, 0int,
{
    if j > 0 {
        lemma_dp_bounds(inst, route, j - 1);
        lemma_best_close_bounds(inst, route, j, candidate_seq(inst, route, j).len() as int);
    }
}

/// Best take values over candidate prefixes are nonnegative and bounded.
pub proof fn lemma_best_close_bounds(inst: Instance, route: Seq<PortId>, j: int, k: int)
    requires
        inst.well_formed(),
        valid_route(inst, route),
        0 < j < route.len(),
        k <= candidate_seq(inst, route, j).len(),
    ensures
        0 <= best_close_num(inst, route, j, k) <= j * IVAL_MAX,
    decreases j, k, 2int,
{
    if k > 0 {
        lemma_best_close_bounds(inst, route, j, k - 1);
        lemma_cseq_items(inst, route, j, j);
        let item = candidate_seq(inst, route, j)[k - 1];
        lemma_take_bounds(inst, route, j, item);
    }
}

/// Total value numerator of a sequence of intervals.
pub open spec fn ivals_sum(inst: Instance, route: Seq<PortId>, ch: Seq<Interval>) -> int
    decreases ch.len(),
{
    if ch.len() == 0 {
        0
    } else {
        ivals_sum(inst, route, ch.drop_last()) + ival_num(
            inst,
            route,
            ch.last().product as int,
            ch.last().buy_port_index as int,
            ch.last().sell_port_index as int,
        )
    }
}

/// The reconstruction is consistent with the dynamic program: the total
/// value of the chosen intervals equals the best value the program reports.
pub proof fn lemma_chosen_realizes_dp(inst: Instance, route: Seq<PortId>, j: int)
    requires
        inst.well_formed(),
        valid_route(inst, route),
        j < route.len(),
    ensures
        ivals_sum(inst, route, chosen(inst, route, j)) == dp_num(inst, route, j),
    decreases j + 1,
{
    if j < 0 {
        assert(chosen(inst, route, j) == Seq::<Interval>::empty());
    } else if j == 0 {
        assert(chosen(inst, route, -1) == Seq::<Interval>::empty());
        assert(choice(inst, route, 0) is None);
        assert(chosen(inst, route, 0) == chosen(inst, route, -1));
    } else {
        lemma_choice_props(inst, route, j);
        match choice(inst, route, j) {
            Option::None => {
                lemma_chosen_realizes_dp(inst, route, j - 1);
                let n = candidate_seq(inst, route, j).len() as int;
                lemma_best_close_bounds(inst, route, j, n);
                assert(dp_num(inst, route, j) == dp_num(inst, route, j - 1));
            },
            Option::Some(item) => {
                let prev = if 0 < item.buy_port_index && item.buy_port_index < j {
                    lemma_chosen_realizes_dp(inst, route, item.buy_port_index - 1);
                    chosen(inst, route, item.buy_port_index - 1)
                } else {
                    Seq::<Interval>::empty()
                };
                let ch = chosen(inst, route, j);
                assert(ch == prev.push(item));
                assert(ch.drop_last() =~= prev);
                assert(ch.last() == item);
                assert(take_num(inst, route, j, item) == dp_num(inst, route, j));
                if !(0 < item.buy_port_index && item.buy_port_index < j) {
                    assert(ivals_sum(inst, route, prev) == 0);
                }
            },
        }
    }
}

/// The chosen intervals are genuine candidates closing at or before `j`, and
/// they are strictly ordered: each closes before the next one buys, so no
/// two of them share a route position.
pub proof fn lemma_chosen_sorted(inst: Instance, route: Seq<PortId>, j: int)
    requires
        inst.well_formed(),
        valid_route(inst, route),
        j < route.len(),
    ensures
        ({
            let ch = chosen(inst, route, j);
            &&& forall|k: int|
                0 <= k < ch.len() ==> {
                    let it = #[trigger] ch[k];
                    &&& is_candidate(
                        inst,
                        route,
                        it.product as int,
                        it.buy_port_index as int,
                        it.sell_port_index as int,
                    )
                    &&& it.sell_port_index <= j
                }
            &&& forall|k1: int, k2: int|
                0 <= k1 < k2 < ch.len() ==> (#[trigger] ch[k1]).sell_port_index < (
                #[trigger] ch[k2]).buy_port_index
        }),
    decreases j + 1,
{
    if j < 0 {
        assert(chosen(inst, route, j) == Seq::<Interval>::empty());
    } else {
        match choice(inst, route, j) {
            Option::None => {
                lemma_chosen_sorted(inst, route, j - 1);
                assert(chosen(inst, route, j) == chosen(inst, route, j - 1));
                let ch = chosen(inst, route, j);
                assert forall|k: int| 0 <= k < ch.len() implies {
                    let it = #[trigger] ch[k];
                    &&& is_candidate(
                        inst,
                        route,
                        it.product as int,
                        it.buy_port_index as int,
                        it.sell_port_index as int,
                    )
                    &&& it.sell_port_index <= j
                } by {
                    assert(ch[k] == chosen(inst, route, j - 1)[k]);
                }
            },
            Option::Some(item) => {
                lemma_choice_props(inst, route, j);
                let prev = if 0 < item.buy_port_index && item.buy_port_index < j {
                    lemma_chosen_sorted(inst, route, item.buy_port_index - 1);
                    chosen(inst, route, item.buy_port_index - 1)
                } else {
                    Seq::<Interval>::empty()
                };
                let ch = chosen(inst, route, j);
                assert(ch == prev.push(item));
                assert forall|k: int| 0 <= k < ch.len() implies {
                    let it = #[trigger] ch[k];
                    &&& is_candidate(
                        inst,
                        route,
                        it.product as int,
                        it.buy_port_index as int,
                        it.sell_port_index as int,
                    )
                    &&& it.sell_port_index <= j
                } by {
                    if k < prev.len() {
                        assert(ch[k] == prev[k]);
                    } else {
                        assert(ch[k] == item);
                    }
                }
                assert forall|k1: int, k2: int|
                    0 <= k1 < k2 < ch.len() implies (#[trigger] ch[k1]).sell_port_index < (
                #[trigger] ch[k2]).buy_port_index by {
                    if k2 < prev.len() {
                        assert(ch[k1] == prev[k1] && ch[k2] == prev[k2]);
                    } else {
                        assert(ch[k2] == item);
                        assert(ch[k1] == prev[k1]);
                        assert(prev[k1].sell_port_index < item.buy_port_index);
                    }
                }
            },
        }
    }
}

/// Computes the product of all raw good weights.
pub fn compute_weight_product(inst: &Instance) -> (r: i64)
    requires
        inst.well_formed(),
    ensures
        r == inst.weight_product(),
        1 <= r <= 1024,
{
    let g_len = inst.n_goods;
    let mut product: i64 = 1;
    for m in 0..g_len
        invariant
            inst.well_formed(),
            g_len == inst.n_goods,
            product == weight_product_prefix(inst.weight@, m as int),
            1 <= product <= 1024,
    {
        proof {
            lemma_weight_product_le(inst.weight@, m + 1, g_len as int);
            lemma_weight_product_positive(inst.weight@, m as int);
            assert(product * inst.weight@[m as int] >= 1) by (nonlinear_arith)
                requires
                    product >= 1,
                    inst.weight@[m as int] >= 1,
            ;
        }
        product = product * inst.weight[m];
    }
    product
}

/// Computes the product of all raw good weights except that of good `g`.
fn compute_product_except(inst: &Instance, g: usize) -> (r: i64)
    requires
        inst.well_formed(),
        g < inst.n_goods,
    ensures
        r == product_except(*inst, g as int),
        1 <= r <= 1024,
{
    let g_len = inst.n_goods;
    let mut product: i64 = 1;
    for m in 0..g_len
        invariant
            inst.well_formed(),
            g_len == inst.n_goods,
            g < g_len,
            product == product_except_prefix(inst.weight@, g as int, m as int),
            1 <= product <= 1024,
    {
        proof {
            lemma_product_split(inst.weight@, g as int, m + 1);
            lemma_product_split(inst.weight@, g as int, m as int);
            lemma_weight_product_le(inst.weight@, m + 1, g_len as int);
            lemma_weight_product_positive(inst.weight@, m as int);
            let e_next = product_except_prefix(inst.weight@, g as int, m + 1);
            let p_next = weight_product_prefix(inst.weight@, m + 1);
            assert(e_next <= p_next) by (nonlinear_arith)
                requires
                    e_next >= 1,
                    (g < m + 1 && p_next == e_next * inst.weight@[g as int] && inst.weight@[g as int]
                        >= 1) || (g >= m + 1 && p_next == e_next),
            ;
        }
        if m != g {
            product = product * inst.weight[m];
        }
    }
    product
}

/// The best take value over a candidate prefix dominates every take value in
/// the prefix.
proof fn lemma_best_close_dominates(inst: Instance, route: Seq<PortId>, j: int, k: int)
    requires
        0 <= k <= candidate_seq(inst, route, j).len(),
    ensures
        forall|kk: int|
            0 <= kk < k ==> take_num(inst, route, j, #[trigger] candidate_seq(inst, route, j)[kk])
                <= best_close_num(inst, route, j, k),
    decreases k,
{
    if k > 0 {
        lemma_best_close_dominates(inst, route, j, k - 1);
    }
}

/// The best take value over a nonempty candidate prefix is zero or achieved
/// by some candidate in the prefix.
proof fn lemma_best_close_achieved(inst: Instance, route: Seq<PortId>, j: int, k: int)
    requires
        0 <= k <= candidate_seq(inst, route, j).len(),
    ensures
        best_close_num(inst, route, j, k) == 0 || exists|kk: int|
            0 <= kk < k && take_num(inst, route, j, #[trigger] candidate_seq(inst, route, j)[kk])
                == best_close_num(inst, route, j, k),
    decreases k,
{
    if k > 0 {
        lemma_best_close_achieved(inst, route, j, k - 1);
    }
}

/// `first_best` finds the first candidate achieving the target take value,
/// or the list length when no candidate at or after `k` achieves it.
proof fn lemma_first_best_props(inst: Instance, route: Seq<PortId>, j: int, k: int, target: int)
    requires
        0 <= k <= candidate_seq(inst, route, j).len(),
    ensures
        ({
            let n = candidate_seq(inst, route, j).len() as int;
            let f = first_best(inst, route, j, k, target);
            &&& k <= f <= n
            &&& (f < n ==> take_num(inst, route, j, candidate_seq(inst, route, j)[f]) == target)
            &&& forall|kk: int|
                k <= kk < f ==> take_num(
                    inst,
                    route,
                    j,
                    #[trigger] candidate_seq(inst, route, j)[kk],
                ) != target
        }),
    decreases candidate_seq(inst, route, j).len() - k,
{
    let n = candidate_seq(inst, route, j).len() as int;
    if k < n && take_num(inst, route, j, candidate_seq(inst, route, j)[k]) != target {
        lemma_first_best_props(inst, route, j, k + 1, target);
    }
}

/// Properties of the candidate taken at stop `j`, when one is taken: it is a
/// genuine candidate closing at `j`, and its take value realizes the best.
pub proof fn lemma_choice_props(inst: Instance, route: Seq<PortId>, j: int)
    requires
        inst.well_formed(),
        valid_route(inst, route),
        0 <= j < route.len(),
    ensures
        choice(inst, route, j) is Some ==> {
            let item = choice(inst, route, j)->Some_0;
            &&& item.buy_port_index < j
            &&& item.sell_port_index == j
            &&& item.product < inst.n_goods
            &&& is_candidate(inst, route, item.product as int, item.buy_port_index as int, j)
            &&& take_num(inst, route, j, item) == dp_num(inst, route, j)
            &&& dp_num(inst, route, j) > dp_num(inst, route, j - 1)
        },
{
    if choice(inst, route, j) is Some {
        let n = candidate_seq(inst, route, j).len() as int;
        let best = best_close_num(inst, route, j, n);
        lemma_dp_bounds(inst, route, j - 1);
        lemma_best_close_achieved(inst, route, j, n);
        lemma_first_best_props(inst, route, j, 0, best);
        let f = first_best(inst, route, j, 0, best);
        assert(f < n);
        lemma_cseq_items(inst, route, j, j);
    }
}

/// The take value of a candidate is nonnegative and bounded.
pub proof fn lemma_take_bounds(inst: Instance, route: Seq<PortId>, j: int, item: Interval)
    requires
        inst.well_formed(),
        valid_route(inst, route),
        0 < j < route.len(),
        item.buy_port_index < j,
        is_candidate(inst, route, item.product as int, item.buy_port_index as int, j),
    ensures
        0 <= take_num(inst, route, j, item) <= j * IVAL_MAX,
    decreases j, 0int, 1int,
{
    lemma_ival_bounds(inst, route, item.product as int, item.buy_port_index as int, j);
    if 0 < item.buy_port_index && item.buy_port_index < j {
        lemma_dp_bounds(inst, route, item.buy_port_index - 1);
        assert((item.buy_port_index - 1) * IVAL_MAX <= (j - 1) * IVAL_MAX) by (nonlinear_arith)
            requires
                item.buy_port_index - 1 <= j - 1,
                IVAL_MAX > 0,
        ;
    }
}

/// The exact dynamic-program evaluator for full-capacity interval trades.
pub struct IntervalEvaluator {}

impl Default for IntervalEvaluator {
    /// The evaluator carries no state.
    fn default() -> (r: Self)
        ensures
            r == (IntervalEvaluator {  }),
    {
        IntervalEvaluator {}
    }
}

impl IntervalEvaluator {
    /// A new evaluator; it carries no state.
    pub fn new() -> (r: IntervalEvaluator) {
        IntervalEvaluator {}
    }

    /// Enumerates all candidate intervals, indexed by closing position: entry
    /// `j` lists every `(good, buy stop, sell stop j)` with a strictly
    /// profitable price difference, in construction order (ascending buy
    /// stop, then good).
    pub fn construct_intervals(inst: &Instance, nodes: &Vec<PortId>) -> (r: Vec<Vec<Interval>>)
        requires
            inst.well_formed(),
            valid_route(*inst, nodes@),
        ensures
            r@.len() == nodes@.len(),
            forall|j: int|
                0 <= j < nodes@.len() ==> (#[trigger] r@[j])@ == candidate_seq(*inst, nodes@, j),
    {
        let r_len = nodes.len();
        let g_len = inst.n_goods;
        let mut answ: Vec<Vec<Interval>> = Vec::new();
        for j in 0..r_len
            invariant
                inst.well_formed(),
                valid_route(*inst, nodes@),
                r_len == nodes@.len(),
                g_len == inst.n_goods,
                answ@.len() == j,
                forall|jj: int|
                    0 <= jj < j ==> (#[trigger] answ@[jj])@ == candidate_seq(*inst, nodes@, jj),
        {
            let mut list: Vec<Interval> = Vec::new();
            for i in 0..j
                invariant
                    inst.well_formed(),
                    valid_route(*inst, nodes@),
                    r_len == nodes@.len(),
                    g_len == inst.n_goods,
                    j < r_len,
                    list@ == cseq_i(*inst, nodes@, j as int, i as int),
            {
                for g in 0..g_len
                    invariant
                        inst.well_formed(),
                        valid_route(*inst, nodes@),
                        r_len == nodes@.len(),
                        g_len == inst.n_goods,
                        i < j < r_len,
                        list@ == cseq_i(*inst, nodes@, j as int, i as int) + cseq_g(
                            *inst,
                            nodes@,
                            j as int,
                            i as int,
                            g as int,
                        ),
                {
                    let bp = inst.buy_price[nodes[i]][g];
                    let sp = inst.sell_price[nodes[j]][g];
                    if bp < sp {
                        list.push(Interval { product: g, buy_port_index: i, sell_port_index: j });
                        proof {
                            assert(list@ =~= cseq_i(*inst, nodes@, j as int, i as int) + cseq_g(
                                *inst,
                                nodes@,
                                j as int,
                                i as int,
                                g + 1,
                            ));
                        }
                    } else {
                        proof {
                            assert(list@ =~= cseq_i(*inst, nodes@, j as int, i as int) + cseq_g(
                                *inst,
                                nodes@,
                                j as int,
                                i as int,
                                g + 1,
                            ));
                        }
                    }
                }
                proof {
                    assert(list@ =~= cseq_i(*inst, nodes@, j as int, i + 1));
                }
            }
            proof {
                assert(list@ =~= candidate_seq(*inst, nodes@, j as int));
            }
            answ.push(list);
        }
        answ
    }
}

/// Computes the dynamic program: for every stop, the best value numerator
/// over stops so far and the candidate taken there, if any.
fn fill_dp(inst: &Instance, nodes: &Vec<PortId>, intervals: &Vec<Vec<Interval>>) -> (r: (
    Vec<i64>,
    Vec<Option<Interval>>,
))
    requires
        inst.well_formed(),
        valid_route(*inst, nodes@),
        intervals@.len() == nodes@.len(),
        forall|j: int|
            0 <= j < nodes@.len() ==> (#[trigger] intervals@[j])@ == candidate_seq(
                *inst,
                nodes@,
                j,
            ),
    ensures
        r.0@.len() == nodes@.len(),
        r.1@.len() == nodes@.len(),
        forall|j: int| 0 <= j < nodes@.len() ==> #[trigger] r.0@[j] == dp_num(*inst, nodes@, j),
        forall|j: int| 0 <= j < nodes@.len() ==> #[trigger] r.1@[j] == choice(*inst, nodes@, j),
{
    let r_len = nodes.len();
    let mut dp: Vec<i64> = Vec::new();
    let mut choices: Vec<Option<Interval>> = Vec::new();
    for j in 0..r_len
        invariant
            inst.well_formed(),
            valid_route(*inst, nodes@),
            r_len == nodes@.len(),
            intervals@.len() == nodes@.len(),
            forall|jj: int|
                0 <= jj < nodes@.len() ==> (#[trigger] intervals@[jj])@ == candidate_seq(
                    *inst,
                    nodes@,
                    jj,
                ),
            dp@.len() == j,
            choices@.len() == j,
            forall|jj: int| 0 <= jj < j ==> #[trigger] dp@[jj] == dp_num(*inst, nodes@, jj),
            forall|jj: int| 0 <= jj < j ==> #[trigger] choices@[jj] == choice(*inst, nodes@, jj),
    {
        let dp_prev: i64 = if j > 0 {
            dp[j - 1]
        } else {
            0
        };
        proof {
            assert(dp_prev == dp_num(*inst, nodes@, j - 1));
            lemma_dp_bounds(*inst, nodes@, j - 1);
        }
        let n = intervals[j].len();
        let mut best_v: i64 = dp_prev;
        let mut best_c: Option<Interval> = None;
        let ghost mut best_k: int = 0;
        for k in 0..n
            invariant
                inst.well_formed(),
                valid_route(*inst, nodes@),
                r_len == nodes@.len(),
                intervals@.len() == nodes@.len(),
                j < r_len,
                dp@.len() == j,
                forall|jj: int| 0 <= jj < j ==> #[trigger] dp@[jj] == dp_num(*inst, nodes@, jj),
                n == intervals@[j as int]@.len(),
                intervals@[j as int]@ == candidate_seq(*inst, nodes@, j as int),
                best_v == max(
                    dp_num(*inst, nodes@, j - 1),
                    best_close_num(*inst, nodes@, j as int, k as int),
                ),
                0 <= best_v <= (j as int) * IVAL_MAX,
                match best_c {
                    Option::None => best_close_num(*inst, nodes@, j as int, k as int) <= dp_num(
                        *inst,
                        nodes@,
                        j - 1,
                    ),
                    Option::Some(it) => {
                        &&& 0 <= best_k < k
                        &&& it == candidate_seq(*inst, nodes@, j as int)[best_k]
                        &&& take_num(*inst, nodes@, j as int, it) == best_v
                        &&& best_v > dp_num(*inst, nodes@, j - 1)
                        &&& forall|kk: int|
                            0 <= kk < best_k ==> take_num(
                                *inst,
                                nodes@,
                                j as int,
                                #[trigger] candidate_seq(*inst, nodes@, j as int)[kk],
                            ) < best_v
                    },
                },
        {
            let item = intervals[j][k];
            proof {
                lemma_cseq_items(*inst, nodes@, j as int, j as int);
                lemma_take_bounds(*inst, nodes@, j as int, item);
                lemma_dp_bounds(*inst, nodes@, j - 1);
            }
            let bp = inst.buy_price[nodes[item.buy_port_index]][item.product];
            let sp = inst.sell_price[nodes[item.sell_port_index]][item.product];
            let e = compute_product_except(inst, item.product);
            let d = sp - bp;
            proof {
                assert(0 <= d * inst.capacity <= 0x1000000000
                    && 0 <= d * inst.capacity * e <= 0x400000000000
                    && 0 <= d * inst.capacity * e * inst.scale <= 0x8000000000000)
                    by (nonlinear_arith)
                    requires
                        1 <= d <= 0x10000,
                        0 <= inst.capacity <= 0x100000,
                        1 <= e <= 1024,
                        1 <= inst.scale <= 32,
                ;
            }
            let v = d * inst.capacity * e * inst.scale;
            let prev: i64 = if item.buy_port_index > 0 {
                proof {
                    lemma_dp_bounds(*inst, nodes@, item.buy_port_index - 1);
                    assert((item.buy_port_index - 1) * IVAL_MAX <= (j as int) * IVAL_MAX)
                        by (nonlinear_arith)
                        requires
                            0 <= item.buy_port_index - 1 <= j as int,
                            IVAL_MAX > 0,
                    ;
                }
                dp[item.buy_port_index - 1]
            } else {
                0
            };
            proof {
                assert((j as int) * IVAL_MAX <= 128 * IVAL_MAX) by (nonlinear_arith)
                    requires
                        0 <= j as int <= 128,
                        IVAL_MAX > 0,
                ;
            }
            let take = v + prev;
            proof {
                assert(take == take_num(*inst, nodes@, j as int, item));
                lemma_best_close_dominates(*inst, nodes@, j as int, k as int);
            }
            if take > best_v {
                best_v = take;
                best_c = Some(item);
                proof {
                    best_k = k as int;
                }
            }
        }
        proof {
            if j == 0 {
                assert(candidate_seq(*inst, nodes@, 0).len() == 0);
                assert(dp_num(*inst, nodes@, 0) == 0);
                assert(best_v == 0);
                assert(choice(*inst, nodes@, 0) is None);
            } else {
                assert(dp_num(*inst, nodes@, j as int) == best_v);
                let nn = candidate_seq(*inst, nodes@, j as int).len() as int;
                let best = best_close_num(*inst, nodes@, j as int, nn);
                match best_c {
                    Option::None => {
                        assert(choice(*inst, nodes@, j as int) is None);
                    },
                    Option::Some(it) => {
                        lemma_first_best_props(*inst, nodes@, j as int, 0, best);
                        let f = first_best(*inst, nodes@, j as int, 0, best);
                        assert(best_v == best);
                        assert(f == best_k);
                        assert(choice(*inst, nodes@, j as int) == Some(it));
                    },
                }
            }
        }
        dp.push(best_v);
        choices.push(best_c);
    }
    (dp, choices)
}

/// Whether some interval in `items` buys good `g` at route position `p`.
fn has_buy(items: &Vec<Interval>, p: usize, g: usize) -> (r: bool)
    ensures
        r == buys_in(items@, p as int, g as int),
{
    for k in 0..items.len()
        invariant
            forall|kk: int|
                0 <= kk < k ==> !((#[trigger] items@[kk]).buy_port_index == p && items@[kk].product
                    == g),
    {
        if items[k].buy_port_index == p && items[k].product == g {
            return true;
        }
    }
    false
}

/// Whether some interval in `items` sells good `g` at route position `p`.
fn has_sell(items: &Vec<Interval>, p: usize, g: usize) -> (r: bool)
    ensures
        r == sells_in(items@, p as int, g as int),
{
    for k in 0..items.len()
        invariant
            forall|kk: int|
                0 <= kk < k ==> !((#[trigger] items@[kk]).sell_port_index == p && items@[kk].product
                    == g),
    {
        if items[k].sell_port_index == p && items[k].product == g {
            return true;
        }
    }
    false
}

/// Profit numerator of the interval evaluator over `scale^2 *
/// weight_product`: the initial capital, plus the best achievable interval
/// value, minus the route travel and visit expense.
pub open spec fn interval_profit_num(inst: Instance, route: Seq<PortId>) -> int {
    inst.initial_capital * inst.scale * inst.weight_product() + dp_num(
        inst,
        route,
        route.len() - 1,
    ) - route_expense_num(inst, route, route.len() - 1) * inst.weight_product()
}

impl IntervalEvaluator {
    /// Walks the stored choices backwards and collects the chosen intervals,
    /// then maps them to per-stop decisions: the full-capacity quantity of
    /// the traded good is bought at each chosen buy stop and sold at the
    /// matching sell stop.
    fn map_answer(inst: &Instance, nodes: &Vec<PortId>, choices: &Vec<Option<Interval>>) -> (r:
        Decisions)
        requires
            inst.well_formed(),
            valid_route(*inst, nodes@),
            choices@.len() == nodes@.len(),
            forall|j: int|
                0 <= j < nodes@.len() ==> #[trigger] choices@[j] == choice(*inst, nodes@, j),
        ensures
            r.den == inst.weight_product(),
            r.shape_wf(nodes@.len() as int, inst.n_goods as int),
            forall|p: int, g: int|
                0 <= p < nodes@.len() && 0 <= g < inst.n_goods ==> #[trigger] r.bought_at(p, g)
                    == if buys_in(chosen(*inst, nodes@, nodes@.len() - 1), p, g) {
                    qty_num(*inst, g)
                } else {
                    0
                },
            forall|p: int, g: int|
                0 <= p < nodes@.len() && 0 <= g < inst.n_goods ==> #[trigger] r.sold_at(p, g)
                    == if sells_in(chosen(*inst, nodes@, nodes@.len() - 1), p, g) {
                    qty_num(*inst, g)
                } else {
                    0
                },
    {
        let r_len = nodes.len();
        let g_len = inst.n_goods;
        let mut collected: Vec<Interval> = Vec::new();
        let mut cur: usize = r_len;
        while cur > 0
            invariant
                inst.well_formed(),
                valid_route(*inst, nodes@),
                r_len == nodes@.len(),
                choices@.len() == nodes@.len(),
                forall|j: int|
                    0 <= j < nodes@.len() ==> #[trigger] choices@[j] == choice(*inst, nodes@, j),
                cur <= r_len,
                chosen(*inst, nodes@, r_len as int - 1) == chosen(*inst, nodes@, cur as int - 1)
                    + collected@,
            decreases cur,
        {
            match choices[cur - 1] {
                Option::None => {
                    proof {
                        assert(chosen(*inst, nodes@, cur as int - 1) == chosen(
                            *inst,
                            nodes@,
                            cur as int - 2,
                        ));
                    }
                    cur = cur - 1;
                },
                Option::Some(item) => {
                    proof {
                        lemma_choice_props(*inst, nodes@, cur as int - 1);
                    }
                    proof {
                        let prev = if 0 < item.buy_port_index && item.buy_port_index < cur as int
                            - 1 {
                            chosen(*inst, nodes@, item.buy_port_index - 1)
                        } else {
                            Seq::<Interval>::empty()
                        };
                        assert(chosen(*inst, nodes@, cur as int - 1) == prev.push(item));
                        assert(chosen(*inst, nodes@, item.buy_port_index as int - 1) == prev);
                        assert(chosen(*inst, nodes@, r_len as int - 1) =~= prev + collected@.insert(
                            0,
                            item,
                        ));
                    }
                    collected.insert(0, item);
                    cur = item.buy_port_index;
                },
            }
        }
        proof {
            assert(chosen(*inst, nodes@, r_len as int - 1) =~= collected@);
        }
        let mut qtys: Vec<i64> = Vec::new();
        for g in 0..g_len
            invariant
                inst.well_formed(),
                g_len == inst.n_goods,
                qtys@.len() == g,
                forall|m: int| 0 <= m < g ==> #[trigger] qtys@[m] == qty_num(*inst, m),
        {
            let e = compute_product_except(inst, g);
            proof {
                assert(0 <= inst.capacity * e <= 0x40000000) by (nonlinear_arith)
                    requires
                        0 <= inst.capacity <= 0x100000,
                        1 <= e <= 1024,
                ;
            }
            qtys.push(inst.capacity * e);
        }
        let mut bought: Vec<Vec<i64>> = Vec::new();
        let mut sold: Vec<Vec<i64>> = Vec::new();
        for p in 0..r_len
            invariant
                inst.well_formed(),
                r_len == nodes@.len(),
                g_len == inst.n_goods,
                qtys@.len() == g_len,
                forall|m: int| 0 <= m < g_len ==> #[trigger] qtys@[m] == qty_num(*inst, m),
                bought@.len() == p,
                sold@.len() == p,
                forall|pp: int| 0 <= pp < p ==> (#[trigger] bought@[pp])@.len() == g_len,
                forall|pp: int| 0 <= pp < p ==> (#[trigger] sold@[pp])@.len() == g_len,
                forall|pp: int, m: int|
                    0 <= pp < p && 0 <= m < g_len ==> #[trigger] bought@[pp]@[m] == (
                    if buys_in(collected@, pp, m) {
                        qty_num(*inst, m)
                    } else {
                        0
                    }),
                forall|pp: int, m: int|
                    0 <= pp < p && 0 <= m < g_len ==> #[trigger] sold@[pp]@[m] == (
                    if sells_in(collected@, pp, m) {
                        qty_num(*inst, m)
                    } else {
                        0
                    }),
        {
            let mut row_b: Vec<i64> = Vec::new();
            let mut row_s: Vec<i64> = Vec::new();
            for g in 0..g_len
                invariant
                    inst.well_formed(),
                    g_len == inst.n_goods,
                    p < r_len,
                    qtys@.len() == g_len,
                    forall|m: int| 0 <= m < g_len ==> #[trigger] qtys@[m] == qty_num(*inst, m),
                    row_b@.len() == g,
                    row_s@.len() == g,
                    forall|m: int|
                        0 <= m < g ==> #[trigger] row_b@[m] == (if buys_in(
                            collected@,
                            p as int,
                            m,
                        ) {
                            qty_num(*inst, m)
                        } else {
                            0
                        }),
                    forall|m: int|
                        0 <= m < g ==> #[trigger] row_s@[m] == (if sells_in(
                            collected@,
                            p as int,
                            m,
                        ) {
                            qty_num(*inst, m)
                        } else {
                            0
                        }),
            {
                if has_buy(&collected, p, g) {
                    row_b.push(qtys[g]);
                } else {
                    row_b.push(0);
                }
                if has_sell(&collected, p, g) {
                    row_s.push(qtys[g]);
                } else {
                    row_s.push(0);
                }
            }
            bought.push(row_b);
            sold.push(row_s);
        }
        let den = compute_weight_product(inst);
        Decisions { den, bought, sold }
    }

    /// Evaluates the route exactly in the full-capacity interval regime:
    /// returns the achievable profit and the realizing decisions.
    pub fn calculate_best_profit(&self, inst: &Instance, nodes: &Vec<PortId>) -> (r: (
        Rat,
        Decisions,
    ))
        requires
            inst.well_formed(),
            valid_route(*inst, nodes@),
        ensures
            r.0.wf(),
            r.0.num == interval_profit_num(*inst, nodes@),
            r.0.den == inst.scale * inst.scale * inst.weight_product(),
            r.1.den == inst.weight_product(),
            r.1.shape_wf(nodes@.len() as int, inst.n_goods as int),
            forall|p: int, g: int|
                0 <= p < nodes@.len() && 0 <= g < inst.n_goods ==> #[trigger] r.1.bought_at(p, g)
                    == if buys_in(chosen(*inst, nodes@, nodes@.len() - 1), p, g) {
                    qty_num(*inst, g)
                } else {
                    0
                },
            forall|p: int, g: int|
                0 <= p < nodes@.len() && 0 <= g < inst.n_goods ==> #[trigger] r.1.sold_at(p, g)
                    == if sells_in(chosen(*inst, nodes@, nodes@.len() - 1), p, g) {
                    qty_num(*inst, g)
                } else {
                    0
                },
            respects_inventory(r.1, nodes@.len() as int, inst.n_goods as int),
            respects_capacity(*inst, r.1, nodes@.len() as int),
    {
        let intervals = Self::construct_intervals(inst, nodes);
        let (dp, choices) = fill_dp(inst, nodes, &intervals);
        let decisions = Self::map_answer(inst, nodes, &choices);
        let d_prod = compute_weight_product(inst);
        let expense = route_expense(inst, nodes);
        let r_len = nodes.len();
        let dp_last: i64 = if r_len > 0 {
            proof {
                lemma_dp_bounds(*inst, nodes@, r_len as int - 1);
                assert((r_len as int - 1) * IVAL_MAX <= 128 * IVAL_MAX) by (nonlinear_arith)
                    requires
                        0 <= r_len as int - 1 <= 128,
                        IVAL_MAX > 0,
                ;
            }
            dp[r_len - 1]
        } else {
            0
        };
        proof {
            assert(-0x100000 * 32 <= inst.initial_capital * inst.scale <= 0x100000 * 32
                && -0x100000 * 32 * 1024 <= inst.initial_capital * inst.scale * d_prod
                && inst.initial_capital * inst.scale * d_prod <= 0x100000 * 32 * 1024)
                by (nonlinear_arith)
                requires
                    -0x100000 <= inst.initial_capital <= 0x100000,
                    1 <= inst.scale <= 32,
                    1 <= d_prod <= 1024,
            ;
            assert(0 <= expense * d_prod <= 0x10000000000 * 1024) by (nonlinear_arith)
                requires
                    0 <= expense <= 0x10000000000,
                    1 <= d_prod <= 1024,
            ;
            assert(inst.scale * inst.scale > 0 && inst.scale * inst.scale <= 1024)
                by (nonlinear_arith)
                requires
                    1 <= inst.scale <= 32,
            ;
            assert(inst.scale * inst.scale * d_prod > 0 && inst.scale * inst.scale * d_prod
                <= 1024 * 1024) by (nonlinear_arith)
                requires
                    1 <= inst.scale * inst.scale <= 1024,
                    1 <= d_prod <= 1024,
            ;
        }
        let num = inst.initial_capital * inst.scale * d_prod + dp_last - expense * d_prod;
        let den = inst.scale * inst.scale * d_prod;
        proof {
            assert(crate::laws::interval_decisions(*inst, nodes@, decisions));
            crate::laws::lemma_interval_decisions_feasible(*inst, nodes@, decisions);
        }
        (Rat { num, den }, decisions)
    }

    /// The evaluator's diagnostic name.
    pub fn name(&self) -> (r: &'static str)
        ensures
            r@ == "IntervalEvaluator"@,
    {
        "IntervalEvaluator"
    }
}

} // verus!
