//! Exhaustive route search: depth-first search over simple cycles from the
//! start port under the travel-time budget, scored by an injected evaluator.

use vstd::prelude::*;

use crate::instance::{Instance, PortId, valid_route};
use crate::intervals::IntervalEvaluator;
use crate::path_evaluator::PathEvaluator;
use crate::plan::Decisions;
use crate::rat::Rat;

verus! {

/// A route found by the search together with the decisions realizing its
/// profit.
pub struct Solution {
    /// The found cyclic route, starting and ending at the start port.
    pub route: Vec<PortId>,
    /// The quantities bought and sold at each stop of the route.
    pub transactions: Decisions,
}

/// A simple search path: it starts at the start port and afterwards visits
/// pairwise distinct other ports.
pub open spec fn simple_path(inst: Instance, path: Seq<PortId>) -> bool {
    &&& path.len() >= 1
    &&& path[0] == inst.start_port
    &&& forall|k: int|
        1 <= k < path.len() ==> #[trigger] path[k] < inst.n_ports && path[k] != inst.start_port
    &&& forall|k1: int, k2: int| 1 <= k1 < k2 < path.len() ==> path[k1] != path[k2]
}

/// Raw travel time along the path: the sum of the travel times of its legs.
pub open spec fn path_time(inst: Instance, path: Seq<PortId>) -> int
    decreases path.len(),
{
    if path.len() <= 1 {
        0
    } else {
        path_time(inst, path.take(path.len() - 1)) + inst.travel_time@[path[path.len()
            - 2] as int]@[path[path.len() - 1] as int]
    }
}

/// A closed candidate route: a simple path from the start port, closed back
/// to the start port.
pub open spec fn valid_cycle(inst: Instance, route: Seq<PortId>) -> bool {
    &&& route.len() >= 2
    &&& route[route.len() - 1] == inst.start_port
    &&& simple_path(inst, route.take(route.len() - 1))
}

/// What the search promises of a found solution: a closed cycle within the
/// travel-time budget, whose decisions and profit are exactly what the
/// injected evaluator reports for its route.
pub open spec fn solution_ok<E: PathEvaluator>(
    ev: E,
    inst: Instance,
    profit: Rat,
    sol: Solution,
) -> bool {
    &&& valid_cycle(inst, sol.route@)
    &&& path_time(inst, sol.route@) <= inst.time_limit
    &&& profit.wf()
    &&& profit == ev.spec_profit(inst, sol.route@)
    &&& ev.decisions_ok(inst, sol.route@, sol.transactions)
}

/// Whether the path visits the port.
fn path_contains(path: &Vec<PortId>, port: PortId) -> (r: bool)
    ensures
        r == path@.contains(port),
{
    for k in 0..path.len()
        invariant
            forall|kk: int| 0 <= kk < k ==> #[trigger] path@[kk] != port,
    {
        if path[k] == port {
            return true;
        }
    }
    false
}

/// Copies a route.
fn clone_route(path: &Vec<PortId>) -> (r: Vec<PortId>)
    ensures
        r@ == path@,
{
    let mut r: Vec<PortId> = Vec::new();
    for k in 0..path.len()
        invariant
            r@.len() == k,
            forall|kk: int| 0 <= kk < k ==> #[trigger] r@[kk] == path@[kk],
    {
        r.push(path[k]);
    }
    proof {
        assert(r@ =~= path@);
    }
    r
}

/// The exhaustive search over simple cycles from the start port.
pub struct BruteForceSolver<E> {
    /// The injected evaluation strategy scoring candidate routes.
    pub evaluator: E,
}

impl<E: PathEvaluator> BruteForceSolver<E> {
    /// A solver scoring routes with the given evaluator.
    pub fn new(evaluator: E) -> (r: BruteForceSolver<E>)
        ensures
            r.evaluator == evaluator,
    {
        BruteForceSolver { evaluator }
    }

    /// Extends the current path by every admissible next port: closing the
    /// cycle evaluates the route, visiting a new port recurses.
    fn solve_recursive(
        &self,
        inst: &Instance,
        current_path: &mut Vec<PortId>,
        current_time: i64,
        best: &mut Option<(Rat, Solution)>,
    )
        requires
            inst.well_formed(),
            simple_path(*inst, old(current_path)@),
            old(current_path)@.len() <= inst.n_ports,
            current_time == path_time(*inst, old(current_path)@),
            0 <= current_time <= inst.time_limit,
            match *old(best) {
                Option::None => true,
                Option::Some((p, ref sol)) => solution_ok(self.evaluator, *inst, p, *sol),
            },
        ensures
            final(current_path)@ == old(current_path)@,
            match *final(best) {
                Option::None => true,
                Option::Some((p, ref sol)) => solution_ok(self.evaluator, *inst, p, *sol),
            },
            *old(best) is Some ==> *final(best) is Some,
            current_time + inst.travel_time@[old(current_path)@.last() as int]@[inst.start_port as int]
                <= inst.time_limit ==> *final(best) is Some,
        decreases inst.n_ports - old(current_path)@.len(),
    {
        let current_port = current_path[current_path.len() - 1];
        let n = inst.n_ports;
        for next_port in 0..n
            invariant
                inst.well_formed(),
                n == inst.n_ports,
                simple_path(*inst, current_path@),
                current_path@ == old(current_path)@,
                current_path@.len() <= inst.n_ports,
                current_port == current_path@.last(),
                current_time == path_time(*inst, current_path@),
                0 <= current_time <= inst.time_limit,
                match *best {
                    Option::None => true,
                    Option::Some((p, ref sol)) => solution_ok(self.evaluator, *inst, p, *sol),
                },
                *old(best) is Some ==> *best is Some,
                next_port > inst.start_port && current_time + inst.travel_time@[current_port as int]@[inst.start_port as int]
                    <= inst.time_limit ==> *best is Some,
        {
            let travel = inst.travel_time[current_port][next_port];
            if current_time + travel <= inst.time_limit {
                if next_port == inst.start_port {
                    current_path.push(next_port);
                    proof {
                        assert(current_path@.take(current_path@.len() - 1) =~= old(
                            current_path,
                        )@);
                        assert(path_time(*inst, current_path@) == current_time + travel);
                        assert(valid_route(*inst, current_path@));
                    }
                    let (profit, transactions) = self.evaluator.calculate_best_profit(
                        inst,
                        current_path,
                    );
                    let take_it = match best {
                        Option::None => true,
                        Option::Some((bp, _)) => bp.lt(&profit),
                    };
                    if take_it {
                        let route = clone_route(current_path);
                        *best = Some((profit, Solution { route, transactions }));
                    }
                    current_path.pop();
                    proof {
                        assert(current_path@ =~= old(current_path)@);
                    }
                } else {
                    let visited = path_contains(current_path, next_port);
                    if !visited && current_path.len() < n {
                        current_path.push(next_port);
                        proof {
                            assert(current_path@.take(current_path@.len() - 1) =~= old(
                                current_path,
                            )@);
                            assert(simple_path(*inst, current_path@));
                            assert(path_time(*inst, current_path@) == current_time + travel);
                        }
                        self.solve_recursive(inst, current_path, current_time + travel, best);
                        current_path.pop();
                        proof {
                            assert(current_path@ =~= old(current_path)@);
                        }
                    }
                }
            }
        }
    }

    /// Searches all simple cycles from the start port within the travel-time
    /// budget and returns the best-scored one with its exact profit.
    ///
    /// A well-formed instance always admits the immediate return to the
    /// start port, so the search always finds a solution.
    pub fn solve_scored(&self, inst: &Instance) -> (r: Option<(Rat, Solution)>)
        requires
            inst.well_formed(),
        ensures
            r is Some,
            match r {
                Option::None => true,
                Option::Some((p, ref sol)) => solution_ok(self.evaluator, *inst, p, *sol),
            },
    {
        let mut best: Option<(Rat, Solution)> = None;
        let mut current_path: Vec<PortId> = Vec::new();
        current_path.push(inst.start_port);
        proof {
            assert(simple_path(*inst, current_path@));
            assert(path_time(*inst, current_path@) == 0);
        }
        self.solve_recursive(inst, &mut current_path, 0, &mut best);
        best
    }

    /// Searches all simple cycles from the start port within the travel-time
    /// budget and returns the best-scored one.
    pub fn solve(&self, inst: &Instance) -> (r: Option<Solution>)
        requires
            inst.well_formed(),
        ensures
            r is Some,
            match r {
                Option::None => true,
                Option::Some(ref sol) => {
                    &&& valid_cycle(*inst, sol.route@)
                    &&& path_time(*inst, sol.route@) <= inst.time_limit
                    &&& self.evaluator.decisions_ok(*inst, sol.route@, sol.transactions)
                },
            },
    {
        match self.solve_scored(inst) {
            Option::Some((_, sol)) => Some(sol),
            Option::None => None,
        }
    }

    /// The solver's diagnostic name.
    pub fn name(&self) -> (r: &'static str)
        ensures
            r@ == "BruteForceSolver"@,
    {
        "BruteForceSolver"
    }
}

/// Searches for the most profitable simple cycle of the instance, scoring
/// candidate routes with the exact interval evaluator.
pub fn brute_force_solve(inst: &Instance) -> (r: Option<Solution>)
    requires
        inst.well_formed(),
    ensures
        r is Some,
        match r {
            Option::None => true,
            Option::Some(ref sol) => {
                &&& valid_cycle(*inst, sol.route@)
                &&& path_time(*inst, sol.route@) <= inst.time_limit
            },
        },
{
    let solver = BruteForceSolver::new(IntervalEvaluator::new());
    solver.solve(inst)
}

} // verus!
