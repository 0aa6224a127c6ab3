use dm_solution::instance::Instance;
use dm_solution::lp::{ConstraintOp, IntegerBruteForce, LpModel, LpProfitCalculator};
use dm_solution::plan::{check_plan, check_shape, Decisions};
use dm_solution::rat::Rat;

fn rat_f64(r: &Rat) -> f64 {
    r.num as f64 / r.den as f64
}

/// Solves a built model with the outside linear optimizer and returns the
/// value of every variable.
fn solve_with_minilp(model: &LpModel) -> Option<Vec<f64>> {
    let mut problem = minilp::Problem::new(minilp::OptimizationDirection::Maximize);
    let mut vars = Vec::new();
    for v in &model.vars {
        let lower = rat_f64(&v.lower);
        let upper = match &v.upper {
            Some(u) => rat_f64(u),
            None => f64::INFINITY,
        };
        vars.push(problem.add_var(rat_f64(&v.objective), (lower, upper)));
    }
    for c in &model.constraints {
        let terms: Vec<(minilp::Variable, f64)> =
            c.terms.iter().map(|(i, coeff)| (vars[*i], rat_f64(coeff))).collect();
        let op = match c.op {
            ConstraintOp::Eq => minilp::ComparisonOp::Eq,
            ConstraintOp::Le => minilp::ComparisonOp::Le,
        };
        problem.add_constraint(terms, op, rat_f64(&c.rhs));
    }
    match problem.solve() {
        Ok(solution) => Some(vars.iter().map(|v| *solution.var_value(*v)).collect()),
        Err(_) => None,
    }
}

/// Reads the bought/sold quantities back from a solved model, as exact
/// numerators over `den`.
fn plan_from_values(values: &[f64], r: usize, g: usize, den: i64) -> Decisions {
    let mut bought = Vec::new();
    let mut sold = Vec::new();
    for j in 0..r {
        let mut row_b = Vec::new();
        let mut row_s = Vec::new();
        for m in 0..g {
            let qb = values[j * 49 + 3 * m];
            let qs = values[j * 49 + 3 * m + 1];
            row_b.push((qb * den as f64).round() as i64);
            row_s.push((qs * den as f64).round() as i64);
        }
        bought.push(row_b);
        sold.push(row_s);
    }
    Decisions { den, bought, sold }
}

fn simple_instance() -> Instance {
    let instance = Instance {
        n_ports: 2,
        n_goods: 1,
        scale: 1,
        travel_time: vec![vec![0, 1], vec![1, 0]],
        travel_cost: 1,
        weight: vec![1],
        buy_price: vec![vec![2], vec![0]],
        sell_price: vec![vec![0], vec![5]],
        buy_cap: vec![vec![10], vec![0]],
        sell_cap: vec![vec![0], vec![10]],
        visit_cost: vec![1, 0],
        start_port: 0,
        capacity: 10,
        time_limit: 100,
        initial_capital: 20,
    };
    assert!(instance.check_well_formed());
    instance
}

#[test]
fn profit_calculator_test_test_calculate_best_profit_simple_case() {
    let instance = simple_instance();
    // Route: port 0 -> port 1 -> port 0
    let route = vec![0, 1, 0];
    let calculator = LpProfitCalculator::new();
    let model = calculator.build_model(&instance, &route);
    let values = solve_with_minilp(&model).expect("the all-zero plan is feasible");
    let plan = plan_from_values(&values, route.len(), instance.n_goods, 1);
    assert!(check_shape(&plan, route.len(), instance.n_goods));
    let profit = check_plan(&instance, &route, &plan).expect("optimizer plan is feasible");
    // Buy 10 at port 0 for 2 each, sell 10 at port 1 for 5 each;
    // expenses: 2 travel time at cost 1, visit cost 1 on returning to port 0.
    assert!(
        profit.eq_int(47),
        "Expected profit 47.0, got {}/{}",
        profit.num,
        profit.den
    );
}

#[test]
fn profit_calculator_test_test_calculate_best_profit_liquidity_and_multi_stop() {
    let instance = Instance {
        n_ports: 4,
        n_goods: 2,
        scale: 1,
        travel_time: vec![
            vec![0, 1, 1, 1],
            vec![1, 0, 1, 1],
            vec![1, 1, 0, 1],
            vec![1, 1, 1, 0],
        ],
        travel_cost: 0,
        weight: vec![1, 2],
        buy_price: vec![
            vec![10, 200],
            vec![0, 0],
            vec![0, 200],
            vec![0, 0],
        ],
        sell_price: vec![
            vec![0, 0],
            vec![20, 0],
            vec![0, 0],
            vec![0, 1000],
        ],
        buy_cap: vec![
            vec![10, 5],
            vec![0, 0],
            vec![0, 5],
            vec![0, 0],
        ],
        sell_cap: vec![
            vec![0, 0],
            vec![10, 0],
            vec![0, 0],
            vec![0, 5],
        ],
        visit_cost: vec![0, 0, 0, 0],
        start_port: 0,
        capacity: 10,
        time_limit: 100,
        initial_capital: 10105,
    };
    assert!(instance.check_well_formed());

    let route = vec![0, 1, 2, 3];
    let calculator = LpProfitCalculator::new();
    let model = calculator.build_model(&instance, &route);
    let values = solve_with_minilp(&model).expect("the all-zero plan is feasible");
    let plan = plan_from_values(&values, route.len(), instance.n_goods, 1);
    assert!(check_shape(&plan, route.len(), instance.n_goods));
    let profit = check_plan(&instance, &route, &plan).expect("optimizer plan is feasible");
    assert!(
        profit.eq_int(14205),
        "Expected profit 14205.0, got {}/{}",
        profit.num,
        profit.den
    );
}

/// The integer optimum never exceeds the optimum of the linear relaxation:
/// here the integer optimum is found by trying every integral plan.
#[test]
fn integer_profit_below_relaxation() {
    let instance = simple_instance();
    let route = vec![0, 1, 0];

    let lp = LpProfitCalculator::new().build_model(&instance, &route);
    let values = solve_with_minilp(&lp).expect("the all-zero plan is feasible");
    let lp_plan = plan_from_values(&values, route.len(), instance.n_goods, 1);
    let lp_profit = check_plan(&instance, &route, &lp_plan).unwrap();

    // The integer model shares all bounds and constraints.
    let ip = IntegerBruteForce::new().build_model(&instance, &route);
    assert_eq!(ip.vars.len(), lp.vars.len());
    assert_eq!(ip.constraints.len(), lp.constraints.len());
    assert!(ip.vars.iter().all(|v| v.integer));
    assert!(lp.vars.iter().all(|v| !v.integer));

    // Exact integer optimum by exhausting all integral single-good plans.
    let mut best: Option<Rat> = None;
    for qb in 0..=10i64 {
        for qs in 0..=qb {
            let plan = Decisions {
                den: 1,
                bought: vec![vec![qb], vec![0], vec![0]],
                sold: vec![vec![0], vec![qs], vec![0]],
            };
            if let Some(p) = check_plan(&instance, &route, &plan) {
                best = match best {
                    None => Some(p),
                    Some(b) => {
                        if b.lt(&p) {
                            Some(p)
                        } else {
                            Some(b)
                        }
                    },
                };
            }
        }
    }
    let int_profit = best.expect("the all-zero plan is feasible");
    assert!(int_profit.le(&lp_profit));
    assert!(int_profit.eq_int(47));
}

#[test]
fn calculator_names() {
    assert_eq!(LpProfitCalculator::new().name(), "LpProfitCalculator");
    assert_eq!(IntegerBruteForce::new().name(), "IntegerBruteForce");
}

/// Optimizer infeasibility degrades to the baseline: when expenses drain the
/// capital below zero on every plan, the evaluation falls back to the
/// initial capital and the all-zero plan.
#[test]
fn infeasible_route_falls_back_to_baseline() {
    let mut instance = simple_instance();
    instance.initial_capital = 1;
    assert!(instance.check_well_formed());
    // Travelling 0 -> 1 -> 0 already costs more than the capital of 1, so
    // even trading nothing drives the capital negative.
    let route = vec![0, 1, 0];
    let model = LpProfitCalculator::new().build_model(&instance, &route);
    assert!(solve_with_minilp(&model).is_none());

    let (profit, plan) = dm_solution::plan::baseline_result(&instance, &route);
    assert!(profit.eq_int(1));
    assert!(check_shape(&plan, route.len(), instance.n_goods));
    for j in 0..route.len() {
        assert!(plan.bought_qty(j, 0).eq_int(0));
        assert!(plan.sold_qty(j, 0).eq_int(0));
    }
    // The all-zero plan itself is rejected exactly because the capital goes
    // negative, which is why the degraded result exists.
    assert!(check_plan(&instance, &route, &plan).is_none());
}
