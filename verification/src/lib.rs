//! Mirror benchmarking and source-switching engine.
//!
//! The crate discovers, ranks and applies download mirrors for package
//! managers (pip, npm, docker, go, cargo, brew, apt).  Every piece of logic
//! here works on plain values: configuration texts come in as strings and the
//! rewritten texts go out as strings, while the surrounding process does the
//! actual file, network and command work.

pub mod backup;
pub mod bench;
pub mod error;
pub mod sources;
pub mod text;
pub mod traits;
pub mod types;
