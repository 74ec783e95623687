//! A brute-force N-body simulation core.
//!
//! The library holds the decisions of the simulation: how many particles a
//! room holds, the fixed-size particle store and the order in which one tick
//! accumulates pairwise contributions and advances positions, and the bounded
//! tick counter that ends a run. The arithmetic of the force law itself is
//! handed in by the caller as closures.
pub mod room;
pub mod run_loop;
pub mod store;
