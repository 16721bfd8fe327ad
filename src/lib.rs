//! Chain-state core of a minimal blockchain node: the block model with its
//! content-addressed identity, a content-addressed block store, and the state
//! machine that validates candidate blocks and advances the chain head.

pub mod block;
pub mod chain;
pub mod storage;

pub use block::{Block, BlockHeader};
pub use chain::{ChainError, ChainState};
pub use storage::{Storage, StorageError};
