//! Building blocks shared by the tasks.

pub mod guarantees;
pub mod identity;
pub mod labelinfo;
pub mod namemap;
pub mod placement;
pub mod progress;
pub mod reconcile;
pub mod scandir;
pub mod timestamp;
pub mod utils;
