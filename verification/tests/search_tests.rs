use dm_solution::greedy::InfiniteCapacityDebtEvaluator;
use dm_solution::instance::Instance;
use dm_solution::intervals::IntervalEvaluator;
use dm_solution::search::{brute_force_solve, BruteForceSolver};

fn three_port_instance() -> Instance {
    let instance = Instance {
        n_ports: 3,
        n_goods: 1,
        scale: 1,
        travel_time: vec![vec![0, 2, 9], vec![2, 0, 2], vec![9, 2, 0]],
        travel_cost: 1,
        weight: vec![1],
        buy_price: vec![vec![1], vec![50], vec![50]],
        sell_price: vec![vec![0], vec![6], vec![9]],
        buy_cap: vec![vec![10], vec![0], vec![0]],
        sell_cap: vec![vec![0], vec![10], vec![10]],
        visit_cost: vec![0, 0, 0],
        start_port: 0,
        capacity: 4,
        time_limit: 8,
        initial_capital: 10,
    };
    assert!(instance.check_well_formed());
    instance
}

#[test]
fn search_route_within_time_budget() {
    let instance = three_port_instance();
    let solver = BruteForceSolver::new(IntervalEvaluator::new());
    let solution = solver.solve(&instance).expect("a cycle always closes");

    // The route is a cycle from and to the start port.
    assert!(solution.route.len() >= 2);
    assert_eq!(solution.route[0], instance.start_port);
    assert_eq!(*solution.route.last().unwrap(), instance.start_port);

    // Its cumulative travel time is within the budget.
    let mut time = 0;
    for j in 1..solution.route.len() {
        time += instance.travel_time[solution.route[j - 1]][solution.route[j]];
    }
    assert!(time <= instance.time_limit);
}

#[test]
fn search_reproduces_reported_profit() {
    let instance = three_port_instance();
    let evaluator = IntervalEvaluator::new();
    let solver = BruteForceSolver::new(IntervalEvaluator::new());
    let (profit, solution) = solver.solve_scored(&instance).expect("a cycle always closes");

    // Re-evaluating the returned route through the same evaluator reproduces
    // the reported profit exactly.
    let (again, _) = evaluator.calculate_best_profit(&instance, &solution.route);
    assert_eq!(profit.num, again.num);
    assert_eq!(profit.den, again.den);

    // The best cycle trades at port 1 and returns; port 2 is out of time
    // reach: profit 10 + (6-1)*4 - 4*1 = 26.
    assert!(profit.eq_int(26));
    assert_eq!(solution.route, vec![0, 1, 0]);
}

#[test]
fn search_with_greedy_evaluator() {
    let instance = three_port_instance();
    let solver = BruteForceSolver::new(InfiniteCapacityDebtEvaluator::new());
    let (profit, solution) = solver.solve_scored(&instance).expect("a cycle always closes");

    // Greedy ignores capacity: it buys all 10 units at port 0 and sells them
    // at port 1: 10 + (6-1)*10 - 4 = 56.
    assert!(profit.eq_int(56));
    assert_eq!(solution.route, vec![0, 1, 0]);
    assert_eq!(solver.name(), "BruteForceSolver");
}

#[test]
fn trivial_cycle_is_always_found() {
    let mut instance = three_port_instance();
    // No travel budget at all: only the immediate return to the start port
    // closes a cycle.
    instance.time_limit = 0;
    assert!(instance.check_well_formed());

    let solution = brute_force_solve(&instance).expect("the trivial cycle closes");
    assert_eq!(solution.route, vec![0, 0]);
}
