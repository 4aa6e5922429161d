//! Storage layer: the memory frame schema, relation kinds and the computing
//! parts of the vault.

pub mod frame;
pub mod relations;
pub mod vault;

pub use frame::{LifecycleState, MemoryFrame, MemoryType, PutOptions};
pub use vault::VaultStats;
