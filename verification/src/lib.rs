//! Intent planning and execution pipeline.
//!
//! A free-form command string is parsed into intents, the intents are
//! deduplicated, checked for conflicts and batched under a concurrency
//! bound, and the resulting plan is simulated or executed with per-action
//! timeouts. Executions leave a compact, paginated history keyed by a
//! content-addressed signature of the deduplicated intents.

pub mod concurrency;
pub mod conflict;
pub mod descriptor;
pub mod discovery;
pub mod executor;
pub mod facade;
pub mod history;
pub mod invocation;
pub mod launch;
pub mod model;
pub mod params;
pub mod parser;
pub mod plan;
pub mod plan_cache;
pub mod registry;
pub mod signature;
pub mod text;
pub mod util;
