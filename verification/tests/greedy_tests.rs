use dm_solution::greedy::InfiniteCapacityDebtEvaluator;
use dm_solution::instance::Instance;

#[test]
fn test_calculate_best_profit_simple_case() {
    // 2 ports, 1 good
    let instance = Instance {
        n_ports: 2,
        n_goods: 1,
        scale: 1,
        travel_time: vec![vec![0, 1], vec![1, 0]],
        travel_cost: 0,
        weight: vec![1],
        buy_price: vec![vec![2], vec![0]],
        sell_price: vec![vec![0], vec![5]],
        buy_cap: vec![vec![10], vec![0]],
        sell_cap: vec![vec![0], vec![10]],
        visit_cost: vec![0, 0],
        start_port: 0,
        capacity: 10,
        time_limit: 100,
        initial_capital: 20,
    };
    assert!(instance.check_well_formed());
    // Route: port 0 -> port 1
    let route = vec![0, 1];
    let evaluator = InfiniteCapacityDebtEvaluator::new();
    let (profit, _) = evaluator.calculate_best_profit(&instance, &route);
    // Buy 10 at port 0 for 2 each, sell 10 at port 1 for 5 each
    // Initial: 20, buy: -20, sell: +50, final: 50
    assert!(
        profit.eq_int(50),
        "Expected profit 50.0, got {}/{}",
        profit.num,
        profit.den
    );
}

#[test]
fn test_calculate_best_profit_liquidity_and_multi_stop() {
    // 4 ports, 2 goods
    // Good 0: Cheap (Weight 1.0, Buy 10, Sell 20)
    // Good 1: Luxury (Weight 2.0, Buy 200, Sell 1000)
    let instance = Instance {
        n_ports: 4,
        n_goods: 2,
        scale: 1,
        travel_time: vec![
            vec![0, 1, 1, 1],
            vec![1, 0, 1, 1],
            vec![1, 1, 0, 1],
            vec![1, 1, 1, 0],
        ],
        travel_cost: 0,
        weight: vec![1, 2],
        buy_price: vec![
            vec![10, 200],
            vec![0, 0],
            vec![0, 200],
            vec![0, 0],
        ],
        sell_price: vec![
            vec![0, 0],
            vec![20, 0],
            vec![0, 0],
            vec![0, 1000],
        ],
        buy_cap: vec![
            vec![10, 5],
            vec![0, 0],
            vec![0, 5],
            vec![0, 0],
        ],
        sell_cap: vec![
            vec![0, 0],
            vec![10, 0],
            vec![0, 0],
            vec![0, 5],
        ],
        visit_cost: vec![0, 0, 0, 0],
        start_port: 0,
        capacity: 10,
        time_limit: 100,
        initial_capital: 105,
    };
    assert!(instance.check_well_formed());

    // Route: 0 -> 1 -> 2 -> 3
    let route = vec![0, 1, 2, 3];
    let evaluator = InfiniteCapacityDebtEvaluator::new();
    let (profit, _) = evaluator.calculate_best_profit(&instance, &route);

    assert!(
        profit.eq_int(4205),
        "The merchant should at least make more than initial capital"
    );
}

#[test]
fn test_pair_greatest_sell_to_greatest_buy() {
    // 3 ports, 1 good
    let instance = Instance {
        n_ports: 3,
        n_goods: 1,
        scale: 1,
        travel_time: vec![vec![0, 1, 1], vec![1, 0, 1], vec![1, 1, 0]],
        travel_cost: 0,
        weight: vec![1],
        buy_price: vec![vec![2], vec![0], vec![0]],
        sell_price: vec![vec![0], vec![5], vec![10]],
        buy_cap: vec![vec![1], vec![0], vec![0]],
        sell_cap: vec![vec![0], vec![1], vec![1]],
        visit_cost: vec![0, 0, 0],
        start_port: 0,
        capacity: 1000000,
        time_limit: 100000,
        initial_capital: 0,
    };
    assert!(instance.check_well_formed());

    // Route: 0 -> 1 -> 2
    let route = vec![0, 1, 2];
    let evaluator = InfiniteCapacityDebtEvaluator::new();
    let (profit, _) = evaluator.calculate_best_profit(&instance, &route);

    assert!(
        profit.eq_int(8),
        "Invalid profit: Expected 8, got {}/{}",
        profit.num,
        profit.den
    );
}

#[test]
fn greedy_records_decisions() {
    let instance = Instance {
        n_ports: 2,
        n_goods: 1,
        scale: 1,
        travel_time: vec![vec![0, 1], vec![1, 0]],
        travel_cost: 0,
        weight: vec![1],
        buy_price: vec![vec![2], vec![0]],
        sell_price: vec![vec![0], vec![5]],
        buy_cap: vec![vec![10], vec![0]],
        sell_cap: vec![vec![0], vec![7]],
        visit_cost: vec![0, 0],
        start_port: 0,
        capacity: 10,
        time_limit: 100,
        initial_capital: 0,
    };
    assert!(instance.check_well_formed());

    let route = vec![0, 1];
    let evaluator = InfiniteCapacityDebtEvaluator::new();
    let (profit, d) = evaluator.calculate_best_profit(&instance, &route);

    // Only 7 units can be sold at stop 1.
    assert!(profit.eq_int(21));
    assert!(d.bought_qty(0, 0).eq_int(7));
    assert!(d.sold_qty(1, 0).eq_int(7));
    assert!(d.sold_qty(0, 0).eq_int(0));
}

#[test]
fn greedy_single_stop_no_sales() {
    let instance = Instance {
        n_ports: 1,
        n_goods: 1,
        scale: 1,
        travel_time: vec![vec![0]],
        travel_cost: 1,
        weight: vec![1],
        buy_price: vec![vec![1]],
        sell_price: vec![vec![9]],
        buy_cap: vec![vec![5]],
        sell_cap: vec![vec![5]],
        visit_cost: vec![3],
        start_port: 0,
        capacity: 10,
        time_limit: 10,
        initial_capital: 13,
    };
    assert!(instance.check_well_formed());

    let evaluator = InfiniteCapacityDebtEvaluator::new();
    let (profit, d) = evaluator.calculate_best_profit(&instance, &vec![0]);

    assert!(profit.eq_int(13));
    assert!(d.sold_qty(0, 0).eq_int(0));
    assert_eq!(
        evaluator.name(),
        "InfiniteCapacityDebtEvaluator"
    );
}
