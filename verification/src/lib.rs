//! A periodic housekeeping engine for a pool of short-lived workload
//! containers: inventory records are grouped by workload category and a
//! single-survivor retention policy is enforced per category, with a
//! best-effort removal path, an audit log, and ingestion of an external
//! resource snapshot, all driven by a fixed-interval scheduler.

pub mod audit;
pub mod category;
pub mod inventory;
pub mod removal;
pub mod retention;
pub mod scheduler;
pub mod snapshot;
pub mod text;
pub mod tick;
