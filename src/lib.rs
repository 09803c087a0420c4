//! Explicit-state deadlock detection for shared-memory concurrent programs.
//!
//! Processes are small guarded control-flow graphs over a shared valuation.
//! Their asynchronous composition is explored breadth-first into a labelled
//! transition system, and every reachable state without successors is
//! reported together with the path that first reached it.
pub mod model;
pub mod successors;
pub mod explore;
pub mod laws;
pub mod report;
