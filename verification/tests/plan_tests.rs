use dm_solution::instance::{check_route, Instance};
use dm_solution::plan::{check_plan, check_shape, route_expense, Decisions};

fn two_port_instance() -> Instance {
    let instance = Instance {
        n_ports: 2,
        n_goods: 1,
        scale: 1,
        travel_time: vec![vec![0, 3], vec![3, 0]],
        travel_cost: 2,
        weight: vec![2],
        buy_price: vec![vec![4], vec![9]],
        sell_price: vec![vec![1], vec![7]],
        buy_cap: vec![vec![5], vec![5]],
        sell_cap: vec![vec![5], vec![5]],
        visit_cost: vec![1, 1],
        start_port: 0,
        capacity: 8,
        time_limit: 50,
        initial_capital: 30,
    };
    assert!(instance.check_well_formed());
    instance
}

#[test]
fn feasible_plan_exact_capital() {
    let instance = two_port_instance();
    let route = vec![0, 1];
    assert!(check_route(&instance, &route));
    // Buy 3 units at port 0 (cost 12), sell them at port 1 (revenue 21);
    // travelling costs 3 * 2 plus visit cost 1.
    let plan = Decisions {
        den: 1,
        bought: vec![vec![3], vec![0]],
        sold: vec![vec![0], vec![3]],
    };
    assert!(check_shape(&plan, 2, 1));
    let profit = check_plan(&instance, &route, &plan).expect("plan is feasible");
    // 30 - 12 + 21 - 7 = 32
    assert!(profit.eq_int(32));
}

#[test]
fn selling_from_empty_hold_is_rejected() {
    let instance = two_port_instance();
    let route = vec![0, 1];
    let plan = Decisions {
        den: 1,
        bought: vec![vec![0], vec![0]],
        sold: vec![vec![0], vec![1]],
    };
    assert!(check_plan(&instance, &route, &plan).is_none());
}

#[test]
fn selling_at_first_stop_is_rejected() {
    let instance = two_port_instance();
    let route = vec![0, 1];
    let plan = Decisions {
        den: 1,
        bought: vec![vec![1], vec![0]],
        sold: vec![vec![1], vec![0]],
    };
    assert!(check_plan(&instance, &route, &plan).is_none());
}

#[test]
fn exceeding_boat_capacity_is_rejected() {
    let instance = two_port_instance();
    let route = vec![0, 1];
    // 5 units of weight 2 weigh 10, over the capacity 8.
    let plan = Decisions {
        den: 1,
        bought: vec![vec![5], vec![0]],
        sold: vec![vec![0], vec![5]],
    };
    assert!(check_plan(&instance, &route, &plan).is_none());
}

#[test]
fn exceeding_port_capacity_is_rejected() {
    let instance = two_port_instance();
    let route = vec![0, 1];
    let plan = Decisions {
        den: 1,
        bought: vec![vec![6], vec![0]],
        sold: vec![vec![0], vec![6]],
    };
    assert!(check_plan(&instance, &route, &plan).is_none());
}

#[test]
fn negative_capital_is_rejected() {
    let mut instance = two_port_instance();
    instance.initial_capital = 5;
    assert!(instance.check_well_formed());
    let route = vec![0, 1];
    // Buying 2 units costs 8, more than the capital of 5.
    let plan = Decisions {
        den: 1,
        bought: vec![vec![2], vec![0]],
        sold: vec![vec![0], vec![2]],
    };
    assert!(check_plan(&instance, &route, &plan).is_none());
}

#[test]
fn fractional_quantities_are_exact() {
    let instance = two_port_instance();
    let route = vec![0, 1];
    // Buy and sell three halves of a unit.
    let plan = Decisions {
        den: 2,
        bought: vec![vec![3], vec![0]],
        sold: vec![vec![0], vec![3]],
    };
    let profit = check_plan(&instance, &route, &plan).expect("plan is feasible");
    // 30 - 1.5*4 + 1.5*7 - 7 = 27.5
    assert_eq!(profit.num, 55);
    assert_eq!(profit.den, 2);
    assert!(!profit.eq_int(27));
}

#[test]
fn empty_route_keeps_initial_capital() {
    let instance = two_port_instance();
    let route: Vec<usize> = vec![];
    let plan = Decisions { den: 1, bought: vec![], sold: vec![] };
    let profit = check_plan(&instance, &route, &plan).expect("empty plan is feasible");
    assert!(profit.eq_int(30));
}

#[test]
fn route_expense_counts_later_stops_only() {
    let instance = two_port_instance();
    // Expense of [0, 1]: travel 3 at cost 2, plus visit cost 1 at port 1.
    assert_eq!(route_expense(&instance, &vec![0, 1]), 7);
    assert_eq!(route_expense(&instance, &vec![0]), 0);
    assert_eq!(route_expense(&instance, &vec![]), 0);
}

#[test]
fn malformed_instances_are_detected() {
    let mut instance = two_port_instance();
    instance.weight = vec![0];
    assert!(!instance.check_well_formed());

    let mut instance = two_port_instance();
    instance.travel_time = vec![vec![0, 3], vec![3, 1]];
    assert!(!instance.check_well_formed());

    let mut instance = two_port_instance();
    instance.buy_price = vec![vec![4]];
    assert!(!instance.check_well_formed());

    let mut instance = two_port_instance();
    instance.start_port = 2;
    assert!(!instance.check_well_formed());

    let instance = two_port_instance();
    assert!(!check_route(&instance, &vec![0, 2]));
}
