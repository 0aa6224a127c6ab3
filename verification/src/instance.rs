//! The static problem description: ports, goods, prices and costs.

use vstd::prelude::*;

verus! {

/// Index of a port.
pub type PortId = usize;

/// Index of a good.
pub type GoodId = usize;

/// Largest admitted number of ports.
pub const MAX_PORTS: usize = 64;

/// Largest admitted number of goods.
pub const MAX_GOODS: usize = 16;

/// Largest admitted number of stops in a route.
pub const MAX_ROUTE: usize = 128;

/// Largest admitted fixed-point scale.
pub const MAX_SCALE: i64 = 32;

/// Largest admitted raw table value (prices, capacities, times, costs).
pub const MAX_RAW: i64 = 65536;

/// Largest admitted raw boat capacity, time limit and |initial capital|.
pub const MAX_BIG: i64 = 1048576;

/// Largest admitted product of all raw good weights.
pub const MAX_WEIGHT_PRODUCT: i64 = 1024;

/// A trading-market instance.
///
/// Every `i64` field holds a raw fixed-point value: a stored `k` denotes the
/// exact amount `k / scale`.  All bounds in [`Instance::well_formed`] are
/// machine limits that keep every evaluation exactly representable in 64-bit
/// arithmetic; they are not part of the market model itself.
#[derive(Clone, Debug)]
pub struct Instance {
    /// Number of ports.
    pub n_ports: usize,
    /// Number of goods.
    pub n_goods: usize,
    /// Fixed-point scale: a raw value `k` denotes `k / scale`.
    pub scale: i64,
    /// Travel time from port `u` to port `v`, `n_ports` x `n_ports`.
    pub travel_time: Vec<Vec<i64>>,
    /// Cost charged per unit of travel time.
    pub travel_cost: i64,
    /// Weight of one unit of each good, `n_goods` entries, all positive.
    pub weight: Vec<i64>,
    /// Price at which each port sells each good to the vehicle.
    pub buy_price: Vec<Vec<i64>>,
    /// Price at which each port buys each good from the vehicle.
    pub sell_price: Vec<Vec<i64>>,
    /// Largest quantity each port sells of each good.
    pub buy_cap: Vec<Vec<i64>>,
    /// Largest quantity each port buys of each good.
    pub sell_cap: Vec<Vec<i64>>,
    /// Cost of visiting each port.
    pub visit_cost: Vec<i64>,
    /// Port where route search starts.
    pub start_port: PortId,
    /// Largest weighted inventory the vehicle can carry.
    pub capacity: i64,
    /// Travel-time budget for route search.
    pub time_limit: i64,
    /// Capital held before the first stop.
    pub initial_capital: i64,
}

/// Product of the raw weights of goods `0 .. g`.
pub open spec fn weight_product_prefix(weights: Seq<i64>, g: int) -> int
    decreases g,
{
    if g <= 0 {
        1
    } else {
        weight_product_prefix(weights, g - 1) * weights[g - 1]
    }
}

/// Every row of `m` has length `width` and entries in `[0, MAX_RAW]`.
pub open spec fn table_well_formed(m: Seq<Vec<i64>>, rows: int, width: int) -> bool {
    &&& m.len() == rows
    &&& forall|p: int|
        0 <= p < rows ==> (#[trigger] m[p])@.len() == width && forall|g: int|
            0 <= g < width ==> 0 <= #[trigger] m[p]@[g] <= MAX_RAW
}

impl Instance {
    /// Product of all raw good weights: the common denominator of the
    /// full-capacity quantities `capacity / weight[g]`.
    pub open spec fn weight_product(self) -> int {
        weight_product_prefix(self.weight@, self.n_goods as int)
    }

    /// The instance has exactly shaped tables and all values within the
    /// machine limits.
    pub open spec fn well_formed(self) -> bool {
        let p = self.n_ports as int;
        let g = self.n_goods as int;
        &&& 1 <= self.n_ports <= MAX_PORTS
        &&& self.n_goods <= MAX_GOODS
        &&& self.start_port < self.n_ports
        &&& 1 <= self.scale <= MAX_SCALE
        &&& self.travel_time@.len() == p
        &&& forall|u: int|
            0 <= u < p ==> {
                &&& (#[trigger] self.travel_time@[u])@.len() == p
                &&& self.travel_time@[u]@[u] == 0
                &&& forall|v: int| 0 <= v < p ==> 0 <= #[trigger] self.travel_time@[u]@[v] <= MAX_RAW
            }
        &&& self.weight@.len() == g
        &&& forall|m: int| 0 <= m < g ==> 1 <= #[trigger] self.weight@[m] <= MAX_RAW
        &&& 1 <= self.weight_product() <= MAX_WEIGHT_PRODUCT
        &&& table_well_formed(self.buy_price@, p, g)
        &&& table_well_formed(self.sell_price@, p, g)
        &&& table_well_formed(self.buy_cap@, p, g)
        &&& table_well_formed(self.sell_cap@, p, g)
        &&& self.visit_cost@.len() == p
        &&& forall|v: int| 0 <= v < p ==> 0 <= #[trigger] self.visit_cost@[v] <= MAX_RAW
        &&& 0 <= self.travel_cost <= MAX_RAW
        &&& 0 <= self.capacity <= MAX_BIG
        &&& 0 <= self.time_limit <= MAX_BIG
        &&& -MAX_BIG <= self.initial_capital <= MAX_BIG
    }

    /// Raw price at which `port` sells good `good` to the vehicle.
    pub fn get_buy_price(&self, port: PortId, good: GoodId) -> (r: i64)
        requires
            self.well_formed(),
            port < self.n_ports,
            good < self.n_goods,
        ensures
            r == self.buy_price@[port as int]@[good as int],
    {
        self.buy_price[port][good]
    }

    /// Raw price at which `port` buys good `good` from the vehicle.
    pub fn get_sell_price(&self, port: PortId, good: GoodId) -> (r: i64)
        requires
            self.well_formed(),
            port < self.n_ports,
            good < self.n_goods,
        ensures
            r == self.sell_price@[port as int]@[good as int],
    {
        self.sell_price[port][good]
    }

    /// Raw weight of one unit of good `good`.
    pub fn get_weight(&self, good: GoodId) -> (r: i64)
        requires
            self.well_formed(),
            good < self.n_goods,
        ensures
            r == self.weight@[good as int],
    {
        self.weight[good]
    }
}

/// Checks [`table_well_formed`] at run time.
fn check_table(m: &Vec<Vec<i64>>, rows: usize, width: usize) -> (r: bool)
    ensures
        r == table_well_formed(m@, rows as int, width as int),
{
    if m.len() != rows {
        return false;
    }
    for p in 0..rows
        invariant
            m@.len() == rows,
            forall|i: int|
                0 <= i < p ==> (#[trigger] m@[i])@.len() == width && forall|g: int|
                    0 <= g < width ==> 0 <= #[trigger] m@[i]@[g] <= MAX_RAW,
    {
        if m[p].len() != width {
            return false;
        }
        for g in 0..width
            invariant
                m@.len() == rows,
                p < rows,
                m@[p as int]@.len() == width,
                forall|i: int|
                    0 <= i < p ==> (#[trigger] m@[i])@.len() == width && forall|k: int|
                        0 <= k < width ==> 0 <= #[trigger] m@[i]@[k] <= MAX_RAW,
                forall|k: int| 0 <= k < g ==> 0 <= #[trigger] m@[p as int]@[k] <= MAX_RAW,
        {
            let v = m[p][g];
            if v < 0 || v > MAX_RAW {
                return false;
            }
        }
    }
    true
}

impl Instance {
    /// Checks [`Instance::well_formed`] at run time, so that unverified
    /// callers can establish it before evaluating.
    pub fn check_well_formed(&self) -> (r: bool)
        ensures
            r == self.well_formed(),
    {
        let p = self.n_ports;
        let g = self.n_goods;
        if !(1 <= p && p <= MAX_PORTS && g <= MAX_GOODS && self.start_port < p) {
            return false;
        }
        if !(1 <= self.scale && self.scale <= MAX_SCALE) {
            return false;
        }
        if self.travel_time.len() != p {
            return false;
        }
        for u in 0..p
            invariant
                p == self.n_ports,
                self.travel_time@.len() == p,
                forall|i: int|
                    0 <= i < u ==> {
                        &&& (#[trigger] self.travel_time@[i])@.len() == p
                        &&& self.travel_time@[i]@[i] == 0
                        &&& forall|v: int|
                            0 <= v < p ==> 0 <= #[trigger] self.travel_time@[i]@[v] <= MAX_RAW
                    },
        {
            if self.travel_time[u].len() != p {
                return false;
            }
            if self.travel_time[u][u] != 0 {
                return false;
            }
            for v in 0..p
                invariant
                    p == self.n_ports,
                    u < p,
                    self.travel_time@.len() == p,
                    self.travel_time@[u as int]@.len() == p,
                    self.travel_time@[u as int]@[u as int] == 0,
                    forall|i: int|
                        0 <= i < u ==> {
                            &&& (#[trigger] self.travel_time@[i])@.len() == p
                            &&& self.travel_time@[i]@[i] == 0
                            &&& forall|w: int|
                                0 <= w < p ==> 0 <= #[trigger] self.travel_time@[i]@[w] <= MAX_RAW
                        },
                    forall|w: int|
                        0 <= w < v ==> 0 <= #[trigger] self.travel_time@[u as int]@[w] <= MAX_RAW,
            {
                let t = self.travel_time[u][v];
                if t < 0 || t > MAX_RAW {
                    return false;
                }
            }
        }
        if self.weight.len() != g {
            return false;
        }
        let mut product: i64 = 1;
        for m in 0..g
            invariant
                g == self.n_goods,
                self.weight@.len() == g,
                forall|i: int| 0 <= i < m ==> 1 <= #[trigger] self.weight@[i] <= MAX_RAW,
                product == weight_product_prefix(self.weight@, m as int),
                1 <= product <= MAX_WEIGHT_PRODUCT,
        {
            let w = self.weight[m];
            if w < 1 || w > MAX_RAW {
                return false;
            }
            proof {
                assert(product * w >= 1 && product * w <= MAX_WEIGHT_PRODUCT * MAX_RAW)
                    by (nonlinear_arith)
                    requires
                        1 <= product <= MAX_WEIGHT_PRODUCT,
                        1 <= w <= MAX_RAW,
                ;
            }
            let next = product * w;
            if next > MAX_WEIGHT_PRODUCT {
                proof {
                    if self.well_formed() {
                        lemma_weight_product_monotonic(self.weight@, m + 1, g as int);
                    }
                }
                return false;
            }
            product = next;
        }
        if !check_table(&self.buy_price, p, g) {
            return false;
        }
        if !check_table(&self.sell_price, p, g) {
            return false;
        }
        if !check_table(&self.buy_cap, p, g) {
            return false;
        }
        if !check_table(&self.sell_cap, p, g) {
            return false;
        }
        if self.visit_cost.len() != p {
            return false;
        }
        for v in 0..p
            invariant
                p == self.n_ports,
                self.visit_cost@.len() == p,
                forall|i: int| 0 <= i < v ==> 0 <= #[trigger] self.visit_cost@[i] <= MAX_RAW,
        {
            let c = self.visit_cost[v];
            if c < 0 || c > MAX_RAW {
                return false;
            }
        }
        0 <= self.travel_cost && self.travel_cost <= MAX_RAW && 0 <= self.capacity
            && self.capacity <= MAX_BIG && 0 <= self.time_limit && self.time_limit <= MAX_BIG
            && -MAX_BIG <= self.initial_capital && self.initial_capital <= MAX_BIG
    }
}

/// Once the prefix product exceeds the cap over positive weights, the full
/// product exceeds it too.
proof fn lemma_weight_product_monotonic(weights: Seq<i64>, from: int, to: int)
    requires
        0 < from <= to <= weights.len(),
        forall|i: int| 0 <= i < to ==> 1 <= #[trigger] weights[i],
        weight_product_prefix(weights, from) > MAX_WEIGHT_PRODUCT,
    ensures
        weight_product_prefix(weights, to) > MAX_WEIGHT_PRODUCT,
    decreases to - from,
{
    if from < to {
        assert(weight_product_prefix(weights, from) >= 1) by {
            lemma_weight_product_positive(weights, from);
        }
        assert(weight_product_prefix(weights, from + 1) == weight_product_prefix(weights, from)
            * weights[from]);
        assert(weight_product_prefix(weights, from) * weights[from] >= weight_product_prefix(
            weights,
            from,
        )) by (nonlinear_arith)
            requires
                weight_product_prefix(weights, from) >= 1,
                weights[from] >= 1,
        ;
        lemma_weight_product_monotonic(weights, from + 1, to);
    }
}

/// Prefix products of positive weights are monotone in the prefix length.
pub proof fn lemma_weight_product_le(weights: Seq<i64>, k: int, n: int)
    requires
        0 <= k <= n <= weights.len(),
        forall|i: int| 0 <= i < n ==> 1 <= #[trigger] weights[i],
    ensures
        weight_product_prefix(weights, k) <= weight_product_prefix(weights, n),
    decreases n - k,
{
    if k < n {
        lemma_weight_product_le(weights, k, n - 1);
        lemma_weight_product_positive(weights, n - 1);
        assert(weight_product_prefix(weights, n - 1) * weights[n - 1] >= weight_product_prefix(
            weights,
            n - 1,
        )) by (nonlinear_arith)
            requires
                weight_product_prefix(weights, n - 1) >= 1,
                weights[n - 1] >= 1,
        ;
    }
}

/// The product of positive weights is positive.
pub proof fn lemma_weight_product_positive(weights: Seq<i64>, to: int)
    requires
        to <= weights.len(),
        forall|i: int| 0 <= i < to ==> 1 <= #[trigger] weights[i],
    ensures
        weight_product_prefix(weights, to) >= 1,
    decreases to,
{
    if to > 0 {
        lemma_weight_product_positive(weights, to - 1);
        assert(weight_product_prefix(weights, to - 1) * weights[to - 1] >= 1)
            by (nonlinear_arith)
            requires
                weight_product_prefix(weights, to - 1) >= 1,
                weights[to - 1] >= 1,
        ;
    }
}

/// The route visits only existing ports and fits the machine limit on length.
pub open spec fn valid_route(inst: Instance, route: Seq<PortId>) -> bool {
    &&& route.len() <= MAX_ROUTE
    &&& forall|j: int| 0 <= j < route.len() ==> #[trigger] route[j] < inst.n_ports
}

/// Checks [`valid_route`] at run time.
pub fn check_route(inst: &Instance, route: &Vec<PortId>) -> (r: bool)
    ensures
        r == valid_route(*inst, route@),
{
    if route.len() > MAX_ROUTE {
        return false;
    }
    for j in 0..route.len()
        invariant
            forall|i: int| 0 <= i < j ==> #[trigger] route@[i] < inst.n_ports,
            route@.len() <= MAX_ROUTE,
    {
        if route[j] >= inst.n_ports {
            return false;
        }
    }
    true
}

} // verus!
