//! Target-selection engine for radar scans.
//!
//! A request supplies a list of scan records (a coordinate, the enemies seen
//! there, and an optional count of allied units) together with an ordered list
//! of named selection rules ("protocols"). The engine attaches to every record
//! its distance to the origin, threads the records through the mandatory range
//! filter and then through each requested protocol in order, and hands back the
//! coordinates of the first surviving record.

pub mod distance;
pub mod enemies;
pub mod engine;
pub mod filtering;
pub mod ordering;
pub mod protocols;
pub mod requests;
pub mod scan;

pub use enemies::Enemies;
pub use enemies::EnemyKind;
pub use protocols::AssistAllies;
pub use protocols::AvoidCrossfire;
pub use protocols::AvoidMech;
pub use protocols::ClosestEnemies;
pub use protocols::FurthestEnemies;
pub use protocols::IgnoreOutOfRange;
pub use protocols::PrioritizeMech;
pub use protocols::Protocol;
pub use protocols::ProtocolStep;
pub use protocols::Protocols;
pub use scan::AugmentedScan;
pub use scan::Coordinates;
pub use scan::Scan;
