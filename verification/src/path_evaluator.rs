//! The common contract of the route evaluators.

use vstd::prelude::*;

use crate::greedy::{good_result, greedy_profit_num, InfiniteCapacityDebtEvaluator};
use crate::instance::{Instance, PortId, valid_route};
use crate::intervals::{
    buys_in, chosen, interval_profit_num, qty_num, sells_in, IntervalEvaluator,
};
use crate::plan::Decisions;
use crate::rat::Rat;

verus! {

/// An evaluation strategy: a pure function from an instance and a route to
/// the achievable profit and the decisions realizing it.
///
/// Every implementation fixes its result by a specification function, so two
/// evaluations of the same route always agree.
pub trait PathEvaluator {
    /// The exact profit this strategy reports for the route.
    spec fn spec_profit(&self, inst: Instance, route: Seq<PortId>) -> Rat;

    /// The decisions this strategy reports for the route.
    spec fn decisions_ok(&self, inst: Instance, route: Seq<PortId>, d: Decisions) -> bool;

    /// Evaluates the route: the profit achievable under this strategy's
    /// assumptions and the buy/sell decisions realizing it.
    fn calculate_best_profit(&self, inst: &Instance, nodes: &Vec<PortId>) -> (r: (Rat, Decisions))
        requires
            inst.well_formed(),
            valid_route(*inst, nodes@),
        ensures
            r.0.wf(),
            r.0 == self.spec_profit(*inst, nodes@),
            self.decisions_ok(*inst, nodes@, r.1),
    ;

    /// The strategy's diagnostic name.
    fn name(&self) -> &'static str;
}

impl PathEvaluator for IntervalEvaluator {
    /// The interval dynamic program's exact profit.
    open spec fn spec_profit(&self, inst: Instance, route: Seq<PortId>) -> Rat {
        Rat {
            num: interval_profit_num(inst, route) as i64,
            den: (inst.scale * inst.scale * inst.weight_product()) as i64,
        }
    }

    /// The decisions trade the full-capacity quantity of each chosen
    /// interval at its buy and sell stops.
    open spec fn decisions_ok(&self, inst: Instance, route: Seq<PortId>, d: Decisions) -> bool {
        &&& d.den == inst.weight_product()
        &&& d.shape_wf(route.len() as int, inst.n_goods as int)
        &&& forall|p: int, g: int|
            0 <= p < route.len() && 0 <= g < inst.n_goods ==> #[trigger] d.bought_at(p, g)
                == if buys_in(chosen(inst, route, route.len() - 1), p, g) {
                qty_num(inst, g)
            } else {
                0
            }
        &&& forall|p: int, g: int|
            0 <= p < route.len() && 0 <= g < inst.n_goods ==> #[trigger] d.sold_at(p, g)
                == if sells_in(chosen(inst, route, route.len() - 1), p, g) {
                qty_num(inst, g)
            } else {
                0
            }
    }

    fn calculate_best_profit(&self, inst: &Instance, nodes: &Vec<PortId>) -> (r: (Rat, Decisions)) {
        let r = IntervalEvaluator::calculate_best_profit(self, inst, nodes);
        r
    }

    fn name(&self) -> &'static str {
        IntervalEvaluator::name(self)
    }
}

impl PathEvaluator for InfiniteCapacityDebtEvaluator {
    /// The greedy matching's exact profit.
    open spec fn spec_profit(&self, inst: Instance, route: Seq<PortId>) -> Rat {
        Rat { num: greedy_profit_num(inst, route) as i64, den: (inst.scale * inst.scale) as i64 }
    }

    /// The decisions are exactly the per-good greedy matching quantities.
    open spec fn decisions_ok(&self, inst: Instance, route: Seq<PortId>, d: Decisions) -> bool {
        &&& d.den == inst.scale
        &&& d.shape_wf(route.len() as int, inst.n_goods as int)
        &&& forall|j: int, g: int|
            0 <= j < route.len() && 0 <= g < inst.n_goods ==> #[trigger] d.bought_at(j, g)
                == good_result(inst, route, g).bought[j]
        &&& forall|j: int, g: int|
            0 <= j < route.len() && 0 <= g < inst.n_goods ==> #[trigger] d.sold_at(j, g)
                == good_result(inst, route, g).sold[j]
    }

    fn calculate_best_profit(&self, inst: &Instance, nodes: &Vec<PortId>) -> (r: (Rat, Decisions)) {
        let r = InfiniteCapacityDebtEvaluator::calculate_best_profit(self, inst, nodes);
        r
    }

    fn name(&self) -> &'static str {
        InfiniteCapacityDebtEvaluator::name(self)
    }
}

/// The four evaluation strategies, selected by explicit tag at the call
/// site.
#[derive(Clone, Copy, Debug, PartialEq, Eq, Structural)]
pub enum EvaluatorKind {
    /// The exact full-capacity interval dynamic program.
    Interval,
    /// The continuous linear relaxation.
    LpRelaxation,
    /// The exact integer-constrained model.
    Integer,
    /// The greedy matching on unlimited capacity and credit.
    GreedyDebt,
}

/// Why a requested evaluator could not be selected.
#[derive(Clone, Copy, Debug, PartialEq, Eq, Structural)]
pub enum EvaluatorError {
    /// The requested name matches no evaluator.
    UnknownEvaluator,
}

impl EvaluatorError {
    /// A user-visible description of the error.
    pub fn message(&self) -> (r: &'static str)
        ensures
            r@ == "Unsupported evaluator name"@,
    {
        "Unsupported evaluator name"
    }
}

/// Selects an evaluator by its diagnostic name; an unrecognized name is a
/// named error, never a crash.
pub fn evaluator_for_name(name: &str) -> (r: Result<EvaluatorKind, EvaluatorError>)
    ensures
        r == if name@ == "IntervalEvaluator"@ {
            Result::<EvaluatorKind, EvaluatorError>::Ok(EvaluatorKind::Interval)
        } else if name@ == "LpProfitCalculator"@ {
            Result::<EvaluatorKind, EvaluatorError>::Ok(EvaluatorKind::LpRelaxation)
        } else if name@ == "IntegerBruteForce"@ {
            Result::<EvaluatorKind, EvaluatorError>::Ok(EvaluatorKind::Integer)
        } else if name@ == "InfiniteCapacityDebtEvaluator"@ {
            Result::<EvaluatorKind, EvaluatorError>::Ok(EvaluatorKind::GreedyDebt)
        } else {
            Result::<EvaluatorKind, EvaluatorError>::Err(EvaluatorError::UnknownEvaluator)
        },
{
    let owned = name.to_owned();
    if owned == "IntervalEvaluator".to_owned() {
        Ok(EvaluatorKind::Interval)
    } else if owned == "LpProfitCalculator".to_owned() {
        Ok(EvaluatorKind::LpRelaxation)
    } else if owned == "IntegerBruteForce".to_owned() {
        Ok(EvaluatorKind::Integer)
    } else if owned == "InfiniteCapacityDebtEvaluator".to_owned() {
        Ok(EvaluatorKind::GreedyDebt)
    } else {
        Err(EvaluatorError::UnknownEvaluator)
    }
}

} // verus!
