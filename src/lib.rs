//! Host-liveness monitoring: classification of probe results, the per-host
//! status store, edge-triggered change detection and the round driver.




pub mod config;
pub mod detect;
pub mod monitor;
pub mod probe;
pub mod store;

