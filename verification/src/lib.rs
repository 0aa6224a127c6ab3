//! Exact profit evaluation for capacitated multi-commodity trading routes.
//!
//! A single capacity- and capital-constrained vehicle visits a fixed sequence
//! of trading posts ("route") in a market with per-port price, capacity and
//! cost tables.  The library computes the profit achievable along the route
//! and the buy/sell decisions realizing it, with several evaluation
//! strategies, and searches for profitable cyclic routes under a travel-time
//! budget.
//!
//! All market data are exact fixed-point amounts: an instance stores raw
//! 64-bit integers together with one positive `scale`, and a stored raw value
//! `k` denotes the amount `k / scale`.  Quantities and profits are exact
//! rationals, so every evaluation is reproducible and every stated contract
//! is exact.

pub mod rat;
pub mod instance;
pub mod plan;
pub mod intervals;
pub mod greedy;
pub mod lp;
pub mod path_evaluator;
pub mod search;
pub mod star;
pub mod laws;
