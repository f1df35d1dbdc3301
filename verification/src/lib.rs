//! An in-process registry for dynamically declared, labeled numeric metrics
//! (gauges and counters), backed by the `prometheus` collector library.
//!
//! Callers declare metric families at runtime under a free-form group tag,
//! mutate per-label-combination values, and tear families down one at a time
//! or a whole group at once.  The registry keeps its own name-to-family maps
//! consistent with the underlying collector registry.

pub mod entry;
pub mod errors;
pub mod hash;
pub mod prom;
pub mod registry;

pub use errors::RegistryError;
pub use registry::MetricRegistry;
