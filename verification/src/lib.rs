//! Worst-case response-time schedulability analysis for fixed-priority,
//! resource-sharing real-time task sets under the Stack Resource Policy (SRP).
//!
//! Given a set of periodic/sporadic tasks, each with a nested execution trace
//! describing when it holds shared resources, the library derives per-resource
//! priority ceilings, per-task blocking time from lower-priority resource
//! holders, preemption time from higher-priority task interference, the total
//! worst-case response time, and the aggregate CPU utilization as an exact
//! fraction.

pub mod model;
pub mod maps;
pub mod pre_analysis;
pub mod blocking;
pub mod preemption;
pub mod analysis;
pub mod load;
pub mod laws;

pub use analysis::ResultHolder;
pub use analysis::execution_time;
pub use analysis::response_time;
pub use analysis::srp_analysis;
pub use blocking::blocking_time;
pub use blocking::fetch_block;
pub use load::cpu_load_fraction;
pub use maps::IdPrio;
pub use maps::TaskResources;
pub use model::SrpError;
pub use model::Task;
pub use model::Tasks;
pub use model::Trace;
pub use model::validate_tasks;
pub use pre_analysis::pre_analysis;
pub use preemption::PreemptionMode;
pub use preemption::preemption_approximation;
pub use preemption::preemption_revisited;
pub use preemption::preemption_time;
