//! Greedy matching evaluator for unlimited capacity and unlimited credit.
//!
//! Each good is handled independently.  Sell opportunities are processed in
//! descending price order (earliest stop first among equal prices); each one
//! is filled by repeatedly matching the cheapest still-available earlier buy
//! opportunity whose price lies strictly below the sell price, taking the
//! largest quantity both sides still admit.  Boat capacity and the capital
//! balance are ignored: the vehicle trades on unlimited credit.

use vstd::prelude::*;
use vstd::math::min;

use crate::instance::{Instance, PortId, valid_route};
use crate::plan::{respects_inventory, route_expense, route_expense_num, Decisions};
use crate::rat::Rat;

verus! {

/// Per-good state of the greedy matching: remaining buy capacities and the
/// accumulated traded quantities and gain.
pub struct GoodState {
    /// Remaining buy capacity at each stop.
    pub bcap: Seq<int>,
    /// Quantity bought so far at each stop.
    pub bought: Seq<int>,
    /// Quantity sold so far at each stop.
    pub sold: Seq<int>,
    /// Accumulated gain: the sum of quantity times price difference over all
    /// matches.
    pub gain: int,
}

/// The remaining sell stop with the highest sell price among indices `0 .. k`
/// (earliest stop among equal prices), or `-1` when none remains.
pub open spec fn pick_sell(sprices: Seq<int>, rem: Seq<bool>, k: int) -> int
    decreases k,
{
    if k <= 0 {
        -1
    } else {
        let best = pick_sell(sprices, rem, k - 1);
        if rem[k - 1] && (best < 0 || sprices[k - 1] > sprices[best]) {
            k - 1
        } else {
            best
        }
    }
}

/// The stop before `i` among indices `0 .. k` with remaining buy capacity
/// and the lowest buy price strictly below `price` (earliest stop among
/// equal prices), or `-1` when none exists.
pub open spec fn pick_buy(bprices: Seq<int>, bcap: Seq<int>, i: int, price: int, k: int) -> int
    decreases k,
{
    if k <= 0 {
        -1
    } else {
        let best = pick_buy(bprices, bcap, i, price, k - 1);
        if k - 1 < i && bcap[k - 1] > 0 && bprices[k - 1] < price && (best < 0 || bprices[k - 1]
            < bprices[best]) {
            k - 1
        } else {
            best
        }
    }
}

/// Fills the sell opportunity at stop `i` with remaining capacity `scap_i`:
/// repeatedly matches the cheapest available earlier buy whose price is
/// strictly below `price`, until the sell capacity is exhausted or no
/// profitable buy remains.
pub open spec fn match_sell(
    bprices: Seq<int>,
    st: GoodState,
    i: int,
    price: int,
    scap_i: int,
) -> GoodState
    decreases scap_i,
{
    if scap_i <= 0 {
        st
    } else {
        let jb = pick_buy(bprices, st.bcap, i, price, i);
        if jb < 0 || st.bcap[jb] <= 0 {
            st
        } else {
            let x = min(scap_i, st.bcap[jb]);
            let next = GoodState {
                bcap: st.bcap.update(jb, st.bcap[jb] - x),
                bought: st.bought.update(jb, st.bought[jb] + x),
                sold: st.sold.update(i, st.sold[i] + x),
                gain: st.gain + x * (price - bprices[jb]),
            };
            match_sell(bprices, next, i, price, scap_i - x)
        }
    }
}

/// Runs up to `rounds` rounds of the greedy matching: each round picks the
/// best remaining sell opportunity, fills it, and marks it done.
pub open spec fn greedy_rounds(
    bprices: Seq<int>,
    sprices: Seq<int>,
    scaps: Seq<int>,
    st: GoodState,
    rem: Seq<bool>,
    rounds: int,
) -> GoodState
    decreases rounds,
{
    if rounds <= 0 {
        st
    } else {
        let i = pick_sell(sprices, rem, rem.len() as int);
        if i < 0 {
            st
        } else {
            let next = match_sell(bprices, st, i, sprices[i], scaps[i]);
            greedy_rounds(bprices, sprices, scaps, next, rem.update(i, false), rounds - 1)
        }
    }
}

/// The buy prices of good `g` along the route.
pub open spec fn route_bprices(inst: Instance, route: Seq<PortId>, g: int) -> Seq<int> {
    Seq::new(route.len(), |j: int| inst.buy_price@[route[j] as int]@[g] as int)
}

/// The sell prices of good `g` along the route.
pub open spec fn route_sprices(inst: Instance, route: Seq<PortId>, g: int) -> Seq<int> {
    Seq::new(route.len(), |j: int| inst.sell_price@[route[j] as int]@[g] as int)
}

/// The buy capacities of good `g` along the route.
pub open spec fn route_bcaps(inst: Instance, route: Seq<PortId>, g: int) -> Seq<int> {
    Seq::new(route.len(), |j: int| inst.buy_cap@[route[j] as int]@[g] as int)
}

/// The sell capacities of good `g` along the route.
pub open spec fn route_scaps(inst: Instance, route: Seq<PortId>, g: int) -> Seq<int> {
    Seq::new(route.len(), |j: int| inst.sell_cap@[route[j] as int]@[g] as int)
}

/// The initial per-good state: full buy capacities, nothing traded.
pub open spec fn initial_state(inst: Instance, route: Seq<PortId>, g: int) -> GoodState {
    GoodState {
        bcap: route_bcaps(inst, route, g),
        bought: Seq::new(route.len(), |j: int| 0int),
        sold: Seq::new(route.len(), |j: int| 0int),
        gain: 0,
    }
}

/// The final state of the greedy matching for good `g`.
pub open spec fn good_result(inst: Instance, route: Seq<PortId>, g: int) -> GoodState {
    greedy_rounds(
        route_bprices(inst, route, g),
        route_sprices(inst, route, g),
        route_scaps(inst, route, g),
        initial_state(inst, route, g),
        Seq::new(route.len(), |j: int| true),
        route.len() as int,
    )
}

/// Total gain numerator over `scale^2` across goods `0 .. g`.
pub open spec fn total_gain(inst: Instance, route: Seq<PortId>, g: int) -> int
    decreases g,
{
    if g <= 0 {
        0
    } else {
        total_gain(inst, route, g - 1) + good_result(inst, route, g - 1).gain
    }
}

/// Profit numerator of the greedy evaluator over `scale^2`: the initial
/// capital plus all matching gains, minus the route travel and visit
/// expense.
pub open spec fn greedy_profit_num(inst: Instance, route: Seq<PortId>) -> int {
    inst.initial_capital * inst.scale + total_gain(inst, route, inst.n_goods as int)
        - route_expense_num(inst, route, route.len() - 1)
}

/// The integer contents of a vector of raw values.
pub open spec fn as_ints(s: Seq<i64>) -> Seq<int> {
    Seq::new(s.len(), |j: int| s[j] as int)
}

/// The greedy state denoted by the executable vectors.
pub open spec fn state_of(bcap: Seq<i64>, bought: Seq<i64>, sold: Seq<i64>, gain: i64) -> GoodState {
    GoodState { bcap: as_ints(bcap), bought: as_ints(bought), sold: as_ints(sold), gain: gain as int }
}

/// A found buy stop lies before `i`, has remaining capacity, and its price
/// lies strictly below the sell price.
pub proof fn lemma_pick_buy_props(bprices: Seq<int>, bcap: Seq<int>, i: int, price: int, k: int)
    ensures
        ({
            let j = pick_buy(bprices, bcap, i, price, k);
            j >= 0 ==> j < i && j < k && bcap[j] > 0 && bprices[j] < price
        }),
    decreases k,
{
    if k > 0 {
        lemma_pick_buy_props(bprices, bcap, i, price, k - 1);
    }
}

/// Scanning past `i` finds nothing new: the found buy stop over any prefix
/// of length at least `i` is the one found over the first `i` stops.
proof fn lemma_pick_buy_clip(bprices: Seq<int>, bcap: Seq<int>, i: int, price: int, k: int)
    requires
        i <= k,
    ensures
        pick_buy(bprices, bcap, i, price, k) == pick_buy(bprices, bcap, i, price, i),
    decreases k - i,
{
    if k > i {
        lemma_pick_buy_clip(bprices, bcap, i, price, k - 1);
    }
}

/// A found sell stop is a remaining stop within the range.
pub proof fn lemma_pick_sell_props(sprices: Seq<int>, rem: Seq<bool>, k: int)
    ensures
        ({
            let i = pick_sell(sprices, rem, k);
            i >= 0 ==> i < k && rem[i]
        }),
    decreases k,
{
    if k > 0 {
        lemma_pick_sell_props(sprices, rem, k - 1);
    }
}

/// Filling one sell opportunity touches no other stop's sold quantity and
/// preserves all lengths.
pub proof fn lemma_match_sell_frame(
    bprices: Seq<int>,
    st: GoodState,
    i: int,
    price: int,
    scap_i: int,
)
    requires
        0 <= i < st.sold.len(),
        st.bcap.len() == st.sold.len(),
        st.bought.len() == st.sold.len(),
        i <= st.bcap.len(),
    ensures
        ({
            let r = match_sell(bprices, st, i, price, scap_i);
            &&& r.bcap.len() == st.bcap.len()
            &&& r.bought.len() == st.bought.len()
            &&& r.sold.len() == st.sold.len()
            &&& forall|j: int| 0 <= j < st.sold.len() && j != i ==> #[trigger] r.sold[j] == st.sold[j]
        }),
    decreases scap_i,
{
    if scap_i > 0 {
        let jb = pick_buy(bprices, st.bcap, i, price, i);
        lemma_pick_buy_props(bprices, st.bcap, i, price, i);
        if !(jb < 0 || st.bcap[jb] <= 0) {
            let x = min(scap_i, st.bcap[jb]);
            let next = GoodState {
                bcap: st.bcap.update(jb, st.bcap[jb] - x),
                bought: st.bought.update(jb, st.bought[jb] + x),
                sold: st.sold.update(i, st.sold[i] + x),
                gain: st.gain + x * (price - bprices[jb]),
            };
            lemma_match_sell_frame(bprices, next, i, price, scap_i - x);
            let r = match_sell(bprices, st, i, price, scap_i);
            assert(r == match_sell(bprices, next, i, price, scap_i - x));
            assert forall|j: int| 0 <= j < st.sold.len() && j != i implies #[trigger] r.sold[j]
                == st.sold[j] by {
                assert(r.sold[j] == next.sold[j]);
                assert(next.sold[j] == st.sold[j]);
            }
        }
    }
}

/// Finds the remaining sell stop with the highest price, earliest first.
fn pick_sell_exec(sprices: &Vec<i64>, rem: &Vec<bool>) -> (r: Option<usize>)
    requires
        sprices@.len() == rem@.len(),
    ensures
        match r {
            Option::None => pick_sell(as_ints(sprices@), rem@, rem@.len() as int) == -1,
            Option::Some(i) => i < rem@.len() && pick_sell(as_ints(sprices@), rem@, rem@.len() as int)
                == i,
        },
{
    let mut best: Option<usize> = None;
    for k in 0..rem.len()
        invariant
            sprices@.len() == rem@.len(),
            match best {
                Option::None => pick_sell(as_ints(sprices@), rem@, k as int) == -1,
                Option::Some(i) => i < k && pick_sell(as_ints(sprices@), rem@, k as int) == i,
            },
    {
        if rem[k] {
            match best {
                Option::None => {
                    best = Some(k);
                },
                Option::Some(b) => {
                    if sprices[k] > sprices[b] {
                        best = Some(k);
                    }
                },
            }
        }
    }
    best
}

/// Finds the cheapest earlier buy stop with remaining capacity and a price
/// strictly below `price`, earliest first.
fn pick_buy_exec(bprices: &Vec<i64>, bcap: &Vec<i64>, i: usize, price: i64) -> (r: Option<usize>)
    requires
        bprices@.len() == bcap@.len(),
        i <= bprices@.len(),
    ensures
        match r {
            Option::None => pick_buy(
                as_ints(bprices@),
                as_ints(bcap@),
                i as int,
                price as int,
                bprices@.len() as int,
            ) == -1,
            Option::Some(j) => j < i && pick_buy(
                as_ints(bprices@),
                as_ints(bcap@),
                i as int,
                price as int,
                bprices@.len() as int,
            ) == j,
        },
{
    let mut best: Option<usize> = None;
    for k in 0..bprices.len()
        invariant
            bprices@.len() == bcap@.len(),
            i <= bprices@.len(),
            match best {
                Option::None => pick_buy(
                    as_ints(bprices@),
                    as_ints(bcap@),
                    i as int,
                    price as int,
                    k as int,
                ) == -1,
                Option::Some(j) => j < i && j < k && pick_buy(
                    as_ints(bprices@),
                    as_ints(bcap@),
                    i as int,
                    price as int,
                    k as int,
                ) == j,
            },
    {
        if k < i && bcap[k] > 0 && bprices[k] < price {
            match best {
                Option::None => {
                    best = Some(k);
                },
                Option::Some(b) => {
                    if bprices[k] < bprices[b] {
                        best = Some(k);
                    }
                },
            }
        }
    }
    best
}

/// Fills one sell opportunity by repeated matching, mutating the per-good
/// state in place.
fn match_sell_exec(
    bprices: &Vec<i64>,
    bcap: &mut Vec<i64>,
    bought: &mut Vec<i64>,
    sold: &mut Vec<i64>,
    gain: &mut i64,
    i: usize,
    price: i64,
    scap_i: i64,
)
    requires
        i < bprices@.len(),
        old(bcap)@.len() == bprices@.len(),
        old(bought)@.len() == bprices@.len(),
        old(sold)@.len() == bprices@.len(),
        0 <= price <= 0x10000,
        0 <= scap_i <= 0x10000,
        forall|j: int| 0 <= j < bprices@.len() ==> 0 <= #[trigger] old(bcap)@[j],
        forall|j: int|
            0 <= j < bprices@.len() ==> 0 <= #[trigger] old(bought)@[j] && old(bought)@[j] + old(
                bcap,
            )@[j] <= 0x10000,
        forall|j: int| 0 <= j < bprices@.len() ==> 0 <= #[trigger] old(sold)@[j] <= 0x10000,
        forall|j: int| 0 <= j < bprices@.len() ==> 0 <= #[trigger] bprices@[j] <= 0x10000,
        old(sold)@[i as int] == 0,
        0 <= *old(gain) <= 0x40000000000,
    ensures
        final(bcap)@.len() == bprices@.len(),
        final(bought)@.len() == bprices@.len(),
        final(sold)@.len() == bprices@.len(),
        state_of(final(bcap)@, final(bought)@, final(sold)@, *final(gain)) == match_sell(
            as_ints(bprices@),
            state_of(old(bcap)@, old(bought)@, old(sold)@, *old(gain)),
            i as int,
            price as int,
            scap_i as int,
        ),
        forall|j: int| 0 <= j < bprices@.len() ==> 0 <= #[trigger] final(bcap)@[j],
        forall|j: int|
            0 <= j < bprices@.len() ==> 0 <= #[trigger] final(bought)@[j] && final(bought)@[j]
                + final(bcap)@[j] <= 0x10000,
        forall|j: int| 0 <= j < bprices@.len() ==> 0 <= #[trigger] final(sold)@[j] <= 0x10000,
        *old(gain) <= *final(gain) <= *old(gain) + 0x100000000,
{
    let ghost bp_int = as_ints(bprices@);
    let ghost st0 = state_of(old(bcap)@, old(bought)@, old(sold)@, *old(gain));
    let mut remaining = scap_i;
    while remaining > 0
        invariant
            i < bprices@.len(),
            bcap@.len() == bprices@.len(),
            bought@.len() == bprices@.len(),
            sold@.len() == bprices@.len(),
            0 <= price <= 0x10000,
            0 <= remaining <= scap_i <= 0x10000,
            forall|j: int| 0 <= j < bprices@.len() ==> 0 <= #[trigger] bcap@[j],
            forall|j: int|
                0 <= j < bprices@.len() ==> 0 <= #[trigger] bought@[j] && bought@[j] + bcap@[j]
                    <= 0x10000,
            forall|j: int| 0 <= j < bprices@.len() ==> 0 <= #[trigger] sold@[j] <= 0x10000,
            forall|j: int| 0 <= j < bprices@.len() ==> 0 <= #[trigger] bprices@[j] <= 0x10000,
            sold@[i as int] == scap_i - remaining,
            0 <= *old(gain) <= 0x40000000000,
            *old(gain) <= *gain,
            *gain <= *old(gain) + (scap_i - remaining) * 0x10000,
            bp_int == as_ints(bprices@),
            st0 == state_of(old(bcap)@, old(bought)@, old(sold)@, *old(gain)),
            match_sell(bp_int, st0, i as int, price as int, scap_i as int) == match_sell(
                bp_int,
                state_of(bcap@, bought@, sold@, *gain),
                i as int,
                price as int,
                remaining as int,
            ),
        ensures
            state_of(bcap@, bought@, sold@, *gain) == match_sell(
                bp_int,
                state_of(bcap@, bought@, sold@, *gain),
                i as int,
                price as int,
                remaining as int,
            ),
            match_sell(bp_int, st0, i as int, price as int, scap_i as int) == match_sell(
                bp_int,
                state_of(bcap@, bought@, sold@, *gain),
                i as int,
                price as int,
                remaining as int,
            ),
            forall|j: int| 0 <= j < bprices@.len() ==> 0 <= #[trigger] bcap@[j],
            forall|j: int|
                0 <= j < bprices@.len() ==> 0 <= #[trigger] bought@[j] && bought@[j] + bcap@[j]
                    <= 0x10000,
            forall|j: int| 0 <= j < bprices@.len() ==> 0 <= #[trigger] sold@[j] <= 0x10000,
            *old(gain) <= *gain <= *old(gain) + scap_i * 0x10000,
        decreases remaining,
    {
        let picked = pick_buy_exec(bprices, bcap, i, price);
        proof {
            lemma_pick_buy_clip(
                as_ints(bprices@),
                as_ints(bcap@),
                i as int,
                price as int,
                bprices@.len() as int,
            );
            lemma_pick_buy_props(
                as_ints(bprices@),
                as_ints(bcap@),
                i as int,
                price as int,
                i as int,
            );
        }
        match picked {
            Option::None => {
                proof {
                    assert(state_of(bcap@, bought@, sold@, *gain) == match_sell(
                        bp_int,
                        state_of(bcap@, bought@, sold@, *gain),
                        i as int,
                        price as int,
                        remaining as int,
                    ));
                }
                break ;
            },
            Option::Some(jb) => {
                proof {
                    assert(as_ints(bcap@)[jb as int] > 0);
                    assert(as_ints(bprices@)[jb as int] < price);
                }
                let x = if remaining < bcap[jb] {
                    remaining
                } else {
                    bcap[jb]
                };
                proof {
                    assert(x * (price - bprices@[jb as int]) <= 0x10000 * 0x10000 && x * (price
                        - bprices@[jb as int]) >= 0) by (nonlinear_arith)
                        requires
                            0 <= x <= 0x10000,
                            0 <= price - bprices@[jb as int] <= 0x10000,
                    ;
                    assert(x * 0x10000 <= 0x100000000);
                    assert((scap_i - remaining) * 0x10000 + x * 0x10000 == (scap_i - (remaining
                        - x)) * 0x10000) by (nonlinear_arith);
                    assert(x * (price - bprices@[jb as int]) <= x * 0x10000) by (nonlinear_arith)
                        requires
                            0 <= x,
                            0 <= price - bprices@[jb as int] <= 0x10000,
                    ;
                }
                let ghost st_before = state_of(bcap@, bought@, sold@, *gain);
                let new_bcap = bcap[jb] - x;
                let new_bought = bought[jb] + x;
                let new_sold = sold[i] + x;
                let new_gain = *gain + x * (price - bprices[jb]);
                bcap.set(jb, new_bcap);
                bought.set(jb, new_bought);
                sold.set(i, new_sold);
                *gain = new_gain;
                proof {
                    let st_after = state_of(bcap@, bought@, sold@, *gain);
                    assert(st_after.bcap =~= st_before.bcap.update(
                        jb as int,
                        st_before.bcap[jb as int] - x,
                    ));
                    assert(st_after.bought =~= st_before.bought.update(
                        jb as int,
                        st_before.bought[jb as int] + x,
                    ));
                    assert(st_after.sold =~= st_before.sold.update(
                        i as int,
                        st_before.sold[i as int] + x,
                    ));
                    assert(match_sell(bp_int, st_before, i as int, price as int, remaining as int)
                        == match_sell(bp_int, st_after, i as int, price as int, (remaining
                        - x) as int));
                }
                remaining = remaining - x;
            },
        }
    }
}

/// Extracts one good's column of a per-port table along the route.
fn extract_column(table: &Vec<Vec<i64>>, route: &Vec<PortId>, g: usize, n_ports: usize) -> (r: Vec<
    i64,
>)
    requires
        table@.len() == n_ports,
        forall|p: int|
            0 <= p < n_ports ==> (#[trigger] table@[p])@.len() > g && 0 <= table@[p]@[g as int]
                <= 0x10000,
        forall|j: int| 0 <= j < route@.len() ==> #[trigger] route@[j] < n_ports,
    ensures
        r@.len() == route@.len(),
        forall|j: int|
            0 <= j < route@.len() ==> #[trigger] r@[j] == table@[route@[j] as int]@[g as int],
        forall|j: int| 0 <= j < route@.len() ==> 0 <= #[trigger] r@[j] <= 0x10000,
{
    let mut r: Vec<i64> = Vec::new();
    for j in 0..route.len()
        invariant
            table@.len() == n_ports,
            forall|p: int|
                0 <= p < n_ports ==> (#[trigger] table@[p])@.len() > g && 0 <= table@[p]@[g as int]
                    <= 0x10000,
            forall|jj: int| 0 <= jj < route@.len() ==> #[trigger] route@[jj] < n_ports,
            r@.len() == j,
            forall|jj: int|
                0 <= jj < j ==> #[trigger] r@[jj] == table@[route@[jj] as int]@[g as int],
            forall|jj: int| 0 <= jj < j ==> 0 <= #[trigger] r@[jj] <= 0x10000,
    {
        r.push(table[route[j]][g]);
    }
    r
}

/// Runs the greedy matching for one good and returns its gain and traded
/// quantities per stop.
fn greedy_one_good(inst: &Instance, route: &Vec<PortId>, g: usize) -> (r: (i64, Vec<i64>, Vec<i64>))
    requires
        inst.well_formed(),
        valid_route(*inst, route@),
        g < inst.n_goods,
    ensures
        ({
            let gr = good_result(*inst, route@, g as int);
            &&& r.0 == gr.gain
            &&& 0 <= r.0 <= (route@.len() as int) * 0x100000000
            &&& r.1@.len() == route@.len()
            &&& r.2@.len() == route@.len()
            &&& as_ints(r.1@) == gr.bought
            &&& as_ints(r.2@) == gr.sold
            &&& forall|j: int| 0 <= j < route@.len() ==> 0 <= #[trigger] r.1@[j] <= 0x10000
            &&& forall|j: int| 0 <= j < route@.len() ==> 0 <= #[trigger] r.2@[j] <= 0x10000
        }),
{
    let r_len = route.len();
    let bp = extract_column(&inst.buy_price, route, g, inst.n_ports);
    let sp = extract_column(&inst.sell_price, route, g, inst.n_ports);
    let sc = extract_column(&inst.sell_cap, route, g, inst.n_ports);
    let mut bc = extract_column(&inst.buy_cap, route, g, inst.n_ports);
    let ghost bp_int = route_bprices(*inst, route@, g as int);
    let ghost sp_int = route_sprices(*inst, route@, g as int);
    let ghost sc_int = route_scaps(*inst, route@, g as int);
    proof {
        assert(as_ints(bp@) =~= bp_int);
        assert(as_ints(sp@) =~= sp_int);
        assert(as_ints(sc@) =~= sc_int);
        assert(as_ints(bc@) =~= route_bcaps(*inst, route@, g as int));
    }
    let mut rem: Vec<bool> = Vec::new();
    let mut bought: Vec<i64> = Vec::new();
    let mut sold: Vec<i64> = Vec::new();
    for j in 0..r_len
        invariant
            rem@.len() == j,
            bought@.len() == j,
            sold@.len() == j,
            forall|jj: int| 0 <= jj < j ==> #[trigger] rem@[jj] == true,
            forall|jj: int| 0 <= jj < j ==> #[trigger] bought@[jj] == 0i64,
            forall|jj: int| 0 <= jj < j ==> #[trigger] sold@[jj] == 0i64,
    {
        rem.push(true);
        bought.push(0);
        sold.push(0);
    }
    proof {
        assert(rem@ =~= Seq::new(route@.len(), |j: int| true));
        assert(as_ints(bought@) =~= Seq::new(route@.len(), |j: int| 0int));
        assert(as_ints(sold@) =~= Seq::new(route@.len(), |j: int| 0int));
        assert(state_of(bc@, bought@, sold@, 0i64) == initial_state(*inst, route@, g as int));
    }
    let mut gain: i64 = 0;
    for k in 0..r_len
        invariant
            inst.well_formed(),
            valid_route(*inst, route@),
            g < inst.n_goods,
            r_len == route@.len(),
            bp@.len() == r_len,
            sp@.len() == r_len,
            sc@.len() == r_len,
            bc@.len() == r_len,
            rem@.len() == r_len,
            bought@.len() == r_len,
            sold@.len() == r_len,
            bp_int == as_ints(bp@),
            sp_int == as_ints(sp@),
            sc_int == as_ints(sc@),
            forall|j: int| 0 <= j < r_len ==> 0 <= #[trigger] bp@[j] <= 0x10000,
            forall|j: int| 0 <= j < r_len ==> 0 <= #[trigger] sp@[j] <= 0x10000,
            forall|j: int| 0 <= j < r_len ==> 0 <= #[trigger] sc@[j] <= 0x10000,
            forall|j: int| 0 <= j < r_len ==> 0 <= #[trigger] bc@[j],
            forall|j: int|
                0 <= j < r_len ==> 0 <= #[trigger] bought@[j] && bought@[j] + bc@[j] <= 0x10000,
            forall|j: int| 0 <= j < r_len ==> 0 <= #[trigger] sold@[j] <= 0x10000,
            forall|j: int| 0 <= j < r_len && rem@[j] ==> #[trigger] sold@[j] == 0i64,
            0 <= gain <= (k as int) * 0x100000000,
            greedy_rounds(
                bp_int,
                sp_int,
                sc_int,
                state_of(bc@, bought@, sold@, gain),
                rem@,
                r_len - k,
            ) == good_result(*inst, route@, g as int),
    {
        let picked = pick_sell_exec(&sp, &rem);
        match picked {
            Option::None => {
                proof {
                    assert(greedy_rounds(
                        bp_int,
                        sp_int,
                        sc_int,
                        state_of(bc@, bought@, sold@, gain),
                        rem@,
                        r_len - k,
                    ) == state_of(bc@, bought@, sold@, gain));
                    assert(greedy_rounds(
                        bp_int,
                        sp_int,
                        sc_int,
                        state_of(bc@, bought@, sold@, gain),
                        rem@,
                        r_len - (k + 1),
                    ) == state_of(bc@, bought@, sold@, gain));
                }
            },
            Option::Some(i) => {
                proof {
                    lemma_pick_sell_props(sp_int, rem@, rem@.len() as int);
                }
                let price = sp[i];
                let cap = sc[i];
                let ghost st_entry = state_of(bc@, bought@, sold@, gain);
                let ghost rem_before = rem@;
                let ghost sold_before = sold@;
                proof {
                    lemma_match_sell_frame(bp_int, st_entry, i as int, price as int, cap as int);
                    assert((k as int) * 0x100000000 + 0x100000000 == (k as int + 1) * 0x100000000)
                        by (nonlinear_arith);
                }
                match_sell_exec(&bp, &mut bc, &mut bought, &mut sold, &mut gain, i, price, cap);
                rem.set(i, false);
                proof {
                    assert(rem@ == rem_before.update(i as int, false));
                    let st_after = state_of(bc@, bought@, sold@, gain);
                    assert forall|j: int| 0 <= j < r_len && rem@[j] implies #[trigger] sold@[j]
                        == 0i64 by {
                        assert(j != i);
                        assert(st_after.sold[j] == st_entry.sold[j]);
                        assert(as_ints(sold@)[j] == as_ints(sold_before)[j]);
                        assert(sold_before[j] == 0i64);
                    }
                    assert(greedy_rounds(bp_int, sp_int, sc_int, st_entry, rem_before, r_len - k)
                        == greedy_rounds(
                        bp_int,
                        sp_int,
                        sc_int,
                        state_of(bc@, bought@, sold@, gain),
                        rem@,
                        r_len - (k + 1),
                    ));
                }
            },
        }
    }
    proof {
        assert(greedy_rounds(
            bp_int,
            sp_int,
            sc_int,
            state_of(bc@, bought@, sold@, gain),
            rem@,
            0,
        ) == state_of(bc@, bought@, sold@, gain));
    }
    (gain, bought, sold)
}

/// The greedy evaluator: unlimited boat capacity, trades on unlimited
/// credit.
pub struct InfiniteCapacityDebtEvaluator;

impl InfiniteCapacityDebtEvaluator {
    /// A new evaluator; it carries no state.
    pub fn new() -> (r: InfiniteCapacityDebtEvaluator) {
        InfiniteCapacityDebtEvaluator
    }

    /// Evaluates the route with the greedy matching: returns the achieved
    /// profit and the matched decisions.
    pub fn calculate_best_profit(&self, inst: &Instance, nodes: &Vec<PortId>) -> (r: (
        Rat,
        Decisions,
    ))
        requires
            inst.well_formed(),
            valid_route(*inst, nodes@),
        ensures
            r.0.wf(),
            r.0.num == greedy_profit_num(*inst, nodes@),
            r.0.den == inst.scale * inst.scale,
            r.1.den == inst.scale,
            r.1.shape_wf(nodes@.len() as int, inst.n_goods as int),
            forall|j: int, g: int|
                0 <= j < nodes@.len() && 0 <= g < inst.n_goods ==> #[trigger] r.1.bought_at(j, g)
                    == good_result(*inst, nodes@, g).bought[j],
            forall|j: int, g: int|
                0 <= j < nodes@.len() && 0 <= g < inst.n_goods ==> #[trigger] r.1.sold_at(j, g)
                    == good_result(*inst, nodes@, g).sold[j],
            respects_inventory(r.1, nodes@.len() as int, inst.n_goods as int),
    {
        let r_len = nodes.len();
        let g_len = inst.n_goods;
        let mut gains_total: i64 = 0;
        let mut cols_b: Vec<Vec<i64>> = Vec::new();
        let mut cols_s: Vec<Vec<i64>> = Vec::new();
        for g in 0..g_len
            invariant
                inst.well_formed(),
                valid_route(*inst, nodes@),
                r_len == nodes@.len(),
                g_len == inst.n_goods,
                cols_b@.len() == g,
                cols_s@.len() == g,
                gains_total == total_gain(*inst, nodes@, g as int),
                0 <= gains_total <= (g as int) * 128 * 0x100000000,
                forall|m: int|
                    0 <= m < g ==> (#[trigger] cols_b@[m])@.len() == r_len && as_ints(
                        cols_b@[m]@,
                    ) == good_result(*inst, nodes@, m).bought,
                forall|m: int|
                    0 <= m < g ==> (#[trigger] cols_s@[m])@.len() == r_len && as_ints(
                        cols_s@[m]@,
                    ) == good_result(*inst, nodes@, m).sold,
        {
            let (gain, b_col, s_col) = greedy_one_good(inst, nodes, g);
            proof {
                assert((r_len as int) * 0x100000000 <= 128 * 0x100000000) by (nonlinear_arith)
                    requires
                        0 <= r_len as int <= 128,
                ;
                assert((g as int) * 128 * 0x100000000 + 128 * 0x100000000 == (g as int + 1) * 128
                    * 0x100000000) by (nonlinear_arith);
            }
            gains_total = gains_total + gain;
            cols_b.push(b_col);
            cols_s.push(s_col);
        }
        let mut bought: Vec<Vec<i64>> = Vec::new();
        let mut sold: Vec<Vec<i64>> = Vec::new();
        for j in 0..r_len
            invariant
                inst.well_formed(),
                r_len == nodes@.len(),
                g_len == inst.n_goods,
                cols_b@.len() == g_len,
                cols_s@.len() == g_len,
                forall|m: int|
                    0 <= m < g_len ==> (#[trigger] cols_b@[m])@.len() == r_len && as_ints(
                        cols_b@[m]@,
                    ) == good_result(*inst, nodes@, m).bought,
                forall|m: int|
                    0 <= m < g_len ==> (#[trigger] cols_s@[m])@.len() == r_len && as_ints(
                        cols_s@[m]@,
                    ) == good_result(*inst, nodes@, m).sold,
                bought@.len() == j,
                sold@.len() == j,
                forall|jj: int| 0 <= jj < j ==> (#[trigger] bought@[jj])@.len() == g_len,
                forall|jj: int| 0 <= jj < j ==> (#[trigger] sold@[jj])@.len() == g_len,
                forall|jj: int, m: int|
                    0 <= jj < j && 0 <= m < g_len ==> #[trigger] bought@[jj]@[m] == cols_b@[m]@[jj],
                forall|jj: int, m: int|
                    0 <= jj < j && 0 <= m < g_len ==> #[trigger] sold@[jj]@[m] == cols_s@[m]@[jj],
        {
            let mut row_b: Vec<i64> = Vec::new();
            let mut row_s: Vec<i64> = Vec::new();
            for g in 0..g_len
                invariant
                    r_len == nodes@.len(),
                    g_len == inst.n_goods,
                    j < r_len,
                    cols_b@.len() == g_len,
                    cols_s@.len() == g_len,
                    forall|m: int| 0 <= m < g_len ==> (#[trigger] cols_b@[m])@.len() == r_len,
                    forall|m: int| 0 <= m < g_len ==> (#[trigger] cols_s@[m])@.len() == r_len,
                    row_b@.len() == g,
                    row_s@.len() == g,
                    forall|m: int| 0 <= m < g ==> #[trigger] row_b@[m] == cols_b@[m]@[j as int],
                    forall|m: int| 0 <= m < g ==> #[trigger] row_s@[m] == cols_s@[m]@[j as int],
            {
                row_b.push(cols_b[g][j]);
                row_s.push(cols_s[g][j]);
            }
            bought.push(row_b);
            sold.push(row_s);
        }
        let expense = route_expense(inst, nodes);
        proof {
            assert(-0x100000 * 32 <= inst.initial_capital * inst.scale <= 0x100000 * 32)
                by (nonlinear_arith)
                requires
                    -0x100000 <= inst.initial_capital <= 0x100000,
                    1 <= inst.scale <= 32,
            ;
            assert((g_len as int) * 128 * 0x100000000 <= 16 * 128 * 0x100000000)
                by (nonlinear_arith)
                requires
                    0 <= g_len as int <= 16,
            ;
            assert(inst.scale * inst.scale > 0 && inst.scale * inst.scale <= 1024)
                by (nonlinear_arith)
                requires
                    1 <= inst.scale <= 32,
            ;
        }
        let num = inst.initial_capital * inst.scale + gains_total - expense;
        let den = inst.scale * inst.scale;
        let decisions = Decisions { den: inst.scale, bought, sold };
        proof {
            assert forall|j: int, g: int|
                0 <= j < nodes@.len() && 0 <= g < inst.n_goods implies #[trigger] decisions.bought_at(
                j,
                g,
            ) == good_result(*inst, nodes@, g).bought[j] by {
                assert(decisions.bought@[j]@[g] == cols_b@[g]@[j]);
                assert(as_ints(cols_b@[g]@)[j] == good_result(*inst, nodes@, g).bought[j]);
            }
            assert forall|j: int, g: int|
                0 <= j < nodes@.len() && 0 <= g < inst.n_goods implies #[trigger] decisions.sold_at(
                j,
                g,
            ) == good_result(*inst, nodes@, g).sold[j] by {
                assert(decisions.sold@[j]@[g] == cols_s@[g]@[j]);
                assert(as_ints(cols_s@[g]@)[j] == good_result(*inst, nodes@, g).sold[j]);
            }
        }
        proof {
            assert(crate::laws::greedy_decisions(*inst, nodes@, decisions));
            crate::laws::lemma_greedy_decisions_sell_from_inventory(*inst, nodes@, decisions);
        }
        (Rat { num, den }, decisions)
    }

    /// The evaluator's diagnostic name.
    pub fn name(&self) -> (r: &'static str)
        ensures
            r@ == "InfiniteCapacityDebtEvaluator"@,
    {
        "InfiniteCapacityDebtEvaluator"
    }
}

} // verus!
