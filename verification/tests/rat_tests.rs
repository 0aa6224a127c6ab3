use dm_solution::path_evaluator::{evaluator_for_name, EvaluatorError, EvaluatorKind};
use dm_solution::rat::Rat;

#[test]
fn rational_comparisons_are_exact() {
    let half = Rat::new(1, 2);
    let two_quarters = Rat::new(2, 4);
    let third = Rat::new(1, 3);

    assert!(half.eq_rat(&two_quarters));
    assert!(!half.eq_rat(&third));
    assert!(third.le(&half));
    assert!(third.lt(&half));
    assert!(half.le(&two_quarters));
    assert!(!half.lt(&two_quarters));
    assert!(Rat::from_int(-3).lt(&Rat::from_int(2)));
    assert!(Rat::new(5, 2).eq_int(2) == false);
    assert!(Rat::new(6, 2).eq_int(3));
}

#[test]
fn known_evaluator_names_are_selected() {
    assert_eq!(
        evaluator_for_name("IntervalEvaluator"),
        Ok(EvaluatorKind::Interval)
    );
    assert_eq!(
        evaluator_for_name("LpProfitCalculator"),
        Ok(EvaluatorKind::LpRelaxation)
    );
    assert_eq!(
        evaluator_for_name("IntegerBruteForce"),
        Ok(EvaluatorKind::Integer)
    );
    assert_eq!(
        evaluator_for_name("InfiniteCapacityDebtEvaluator"),
        Ok(EvaluatorKind::GreedyDebt)
    );
}

#[test]
fn unknown_evaluator_name_is_a_named_error() {
    let err = evaluator_for_name("ClairvoyantEvaluator");
    assert_eq!(err, Err(EvaluatorError::UnknownEvaluator));
    assert_eq!(
        EvaluatorError::UnknownEvaluator.message(),
        "Unsupported evaluator name"
    );
}
