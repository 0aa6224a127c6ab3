use dm_solution::instance::Instance;
use dm_solution::intervals::IntervalEvaluator;
use dm_solution::plan::Decisions;
use dm_solution::rat::Rat;

fn test_instance(
    weight: Vec<i64>,
    buy_price: Vec<Vec<i64>>,
    sell_price: Vec<Vec<i64>>,
    capacity: i64,
) -> Instance {
    validate_instance(&weight, &buy_price, &sell_price, capacity);

    let n_ports = buy_price.len();
    let n_goods = weight.len();

    let inst = Instance {
        n_ports,
        n_goods,
        scale: 1,
        weight,
        buy_price,
        sell_price,
        capacity,

        // defaults
        travel_time: vec![vec![0; n_ports]; n_ports],
        travel_cost: 0,
        visit_cost: vec![0; n_ports],
        initial_capital: 0,

        // not read by the interval evaluator
        time_limit: 0,
        buy_cap: vec![vec![0; n_goods]; n_ports],
        sell_cap: vec![vec![0; n_goods]; n_ports],
        start_port: 0,
    };
    assert!(inst.check_well_formed());
    inst
}

fn validate_instance(
    weight: &[i64],
    buy_price: &[Vec<i64>],
    sell_price: &[Vec<i64>],
    capacity: i64,
) {
    assert!(!weight.is_empty());
    assert_eq!(buy_price.len(), sell_price.len());

    assert!(buy_price.iter().all(|prices| prices.len() == weight.len()));
    assert!(sell_price.iter().all(|prices| prices.len() == weight.len()));

    assert!(capacity >= 0);
}

fn permute<T>(v: Vec<T>, perm: &[usize]) -> Vec<T>
where
    T: Clone,
{
    let mut answ: Vec<T> = v.to_vec();

    for (i, e) in perm.iter().zip(v) {
        answ[*i] = e;
    }

    answ
}

/// Asserts that the decisions' net quantities equal the expected exact
/// integer values.
fn assert_net(d: &Decisions, expected: &[Vec<i64>]) {
    assert_eq!(d.bought.len(), expected.len());
    for (j, row) in expected.iter().enumerate() {
        for (g, &v) in row.iter().enumerate() {
            let net = d.net(j, g);
            assert!(
                net.eq_int(v),
                "net at stop {} good {}: expected {}, got {}/{}",
                j,
                g,
                v,
                net.num,
                net.den
            );
        }
    }
}

#[test]
fn sanity_check() {
    let instance = test_instance(vec![1], vec![vec![1], vec![0]], vec![vec![0], vec![2]], 2);

    let solver = IntervalEvaluator::new();
    let solution = solver.calculate_best_profit(&instance, &vec![0, 1]);

    assert!(solution.0.eq_int(2));
    assert_net(&solution.1, &[vec![2], vec![-2]]);
}

#[test]
fn skips_bad_deal() {
    let instance = test_instance(
        vec![1, 1],
        vec![vec![1, 2], vec![2, 2], vec![0, 0]],
        vec![vec![0, 0], vec![0, 0], vec![3, 3]],
        2,
    );

    let solver = IntervalEvaluator::new();
    let solution = solver.calculate_best_profit(&instance, &vec![0, 1, 2]);

    assert!(solution.0.eq_int(4));
    assert_net(&solution.1, &[vec![2, 0], vec![0, 0], vec![-2, 0]]);
}

#[test]
fn shuffled_order() {
    let weight = vec![1, 1, 1];
    let buy_price = vec![vec![10, 1, 10], vec![10, 10, 10], vec![10, 10, 10]];
    let sell_price = vec![vec![0, 0, 0], vec![0, 10, 0], vec![0, 0, 0]];
    let permutation = [1, 0, 2];
    let perm_buy = permute(buy_price, &permutation);
    let perm_sell = permute(sell_price, &permutation);

    let instance = test_instance(weight, perm_buy, perm_sell, 2);

    let solver = IntervalEvaluator::new();
    let solution = solver.calculate_best_profit(&instance, &permutation.to_vec());

    assert!(solution.0.eq_int((10 - 1) * 2));
    // Decisions are indexed by stop: relabeling the ports while mapping the
    // route through the same relabeling leaves them unchanged.
    assert_net(
        &solution.1,
        &[vec![0, 2, 0], vec![0, -2, 0], vec![0, 0, 0]],
    );
}

#[test]
fn shuffled_two_buys() {
    let weight = vec![1, 1, 1];
    let buy_price = vec![
        vec![10, 1, 10],
        vec![10, 10, 10],
        vec![10, 10, 2],
        vec![10, 10, 10],
        vec![10, 10, 10],
    ];
    let sell_price = vec![
        vec![0, 0, 0],
        vec![0, 10, 0],
        vec![0, 0, 0],
        vec![0, 0, 0],
        vec![0, 0, 10],
    ];
    let permutation = [1, 4, 3, 0, 2];
    let perm_buy = permute(buy_price, &permutation);
    let perm_sell = permute(sell_price, &permutation);

    let instance = test_instance(weight, perm_buy, perm_sell, 2);

    let solver = IntervalEvaluator::new();
    let solution = solver.calculate_best_profit(&instance, &permutation.to_vec());

    assert!(solution.0.eq_int((10 - 1) * 2 + (10 - 2) * 2));
    // Decisions are indexed by stop: relabeling the ports while mapping the
    // route through the same relabeling leaves them unchanged.
    assert_net(
        &solution.1,
        &[
            vec![0, 2, 0],
            vec![0, -2, 0],
            vec![0, 0, 2],
            vec![0, 0, 0],
            vec![0, 0, -2],
        ],
    );
}

#[test]
fn calculate_finl_profit_simple() {
    // All amounts are halves: scale 2, so a raw value k denotes k/2.
    let weight = vec![2, 2, 2];
    let buy_price = vec![
        vec![20, 2, 20],
        vec![20, 20, 20],
        vec![20, 20, 4],
        vec![20, 20, 20],
        vec![20, 20, 20],
    ];
    let sell_price = vec![
        vec![0, 0, 0],
        vec![0, 20, 0],
        vec![0, 0, 0],
        vec![0, 0, 0],
        vec![0, 0, 20],
    ];

    let mut instance = test_instance(weight, buy_price, sell_price, 4);
    instance.scale = 2;
    instance.initial_capital = 40;
    instance.visit_cost = vec![2, 2, 2, 2, 2];
    instance.travel_cost = 3;
    instance.travel_time = vec![
        vec![0, 2, 600, 600, 600],
        vec![600, 0, 2, 600, 600],
        vec![600, 600, 0, 2, 600],
        vec![600, 600, 600, 0, 2],
        vec![2, 600, 600, 600, 0],
    ];
    assert!(instance.check_well_formed());

    let solver = IntervalEvaluator::new();
    let solution = solver.calculate_best_profit(&instance, &vec![0, 1, 2, 3, 4]);

    // 20 + (10-1)*2 + (10-2)*2 - 1.5*4 - 1*4 = 44
    assert!(solution.0.eq_int(44));
    assert_net(
        &solution.1,
        &[
            vec![0, 2, 0],
            vec![0, -2, 0],
            vec![0, 0, 2],
            vec![0, 0, 0],
            vec![0, 0, -2],
        ],
    );
}

#[test]
fn calculates_final_profit_permuted() {
    let weight = vec![2, 2, 2];
    let buy_price = vec![
        vec![20, 2, 20],
        vec![20, 20, 20],
        vec![20, 20, 4],
        vec![20, 20, 20],
        vec![20, 20, 20],
    ];
    let sell_price = vec![
        vec![0, 0, 0],
        vec![0, 20, 0],
        vec![0, 0, 0],
        vec![0, 0, 0],
        vec![0, 0, 20],
    ];
    let permutation = [1, 4, 3, 0, 2];
    let perm_buy = permute(buy_price, &permutation);
    let perm_sell = permute(sell_price, &permutation);

    let mut instance = test_instance(weight, perm_buy, perm_sell, 4);
    instance.scale = 2;
    instance.initial_capital = 40;
    instance.visit_cost = vec![2, 2, 2, 2, 2];
    instance.travel_cost = 3;
    instance.travel_time = permute(
        vec![
            permute(vec![0, 2, 600, 600, 600], &permutation),
            permute(vec![600, 0, 2, 600, 600], &permutation),
            permute(vec![600, 600, 0, 2, 600], &permutation),
            permute(vec![600, 600, 600, 0, 2], &permutation),
            permute(vec![2, 600, 600, 600, 0], &permutation),
        ],
        &permutation,
    );
    assert!(instance.check_well_formed());

    let solver = IntervalEvaluator::new();
    let solution = solver.calculate_best_profit(&instance, &permutation.to_vec());

    assert!(solution.0.eq_int(44));
    // Decisions are indexed by stop: relabeling the ports while mapping the
    // route through the same relabeling leaves them unchanged.
    assert_net(
        &solution.1,
        &[
            vec![0, 2, 0],
            vec![0, -2, 0],
            vec![0, 0, 2],
            vec![0, 0, 0],
            vec![0, 0, -2],
        ],
    );
}

#[test]
fn empty_route_earns_baseline() {
    let mut instance = test_instance(vec![1], vec![vec![1], vec![0]], vec![vec![0], vec![2]], 2);
    instance.initial_capital = 7;
    assert!(instance.check_well_formed());

    let solver = IntervalEvaluator::new();
    let (profit, decisions) = solver.calculate_best_profit(&instance, &vec![]);

    assert!(profit.eq_int(7));
    assert_eq!(decisions.bought.len(), 0);
    assert_eq!(decisions.sold.len(), 0);
}

#[test]
fn single_stop_sells_nothing() {
    let mut instance = test_instance(vec![1], vec![vec![1], vec![0]], vec![vec![9], vec![2]], 2);
    instance.initial_capital = 5;
    assert!(instance.check_well_formed());

    let solver = IntervalEvaluator::new();
    let (profit, decisions) = solver.calculate_best_profit(&instance, &vec![1]);

    assert!(profit.eq_int(5));
    assert_net(&decisions, &[vec![0]]);
}

#[test]
fn interval_evaluator_name() {
    let r: Rat = Rat::from_int(0);
    assert!(r.eq_int(0));
    assert_eq!(IntervalEvaluator::new().name(), "IntervalEvaluator");
}
