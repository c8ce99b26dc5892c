//! An arena of cells with a compacting collector, and a protocol of regions
//! that keeps handles into the arena from being read after a collection.

pub mod arena;
pub mod chain;
pub mod collect;
pub mod handle;
pub mod heap;
pub mod laws;
pub mod marks;
pub mod region;
pub mod token;
pub mod update;

pub use arena::Arena;
pub use arena::ArenaHandle;
pub use handle::Global;
pub use handle::Handle;
pub use token::Gc;
pub use token::NoGc;
