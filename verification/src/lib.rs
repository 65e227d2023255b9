use vstd::prelude::*;

pub mod commands;
pub mod config;
pub mod duration;
pub mod errors;
pub mod events;
pub mod flatten;
pub mod integrity;
pub mod model;
pub mod paths;
pub mod resolve;
pub mod scheduler;
pub mod strings;
pub mod sync;
pub mod terminal;
pub mod utils;

pub use errors::SyncError;
pub use model::Node;
pub use model::NodeKind;
pub use model::Snapshot;
pub use model::Timestamp;

verus! {

} // verus!
