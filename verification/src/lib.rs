//! Block synchronization engine for a peer-to-peer chain node: a pool of
//! peer-supplied block artifacts, common-ancestor discovery, ordered block
//! application, and the session state machine that ties them together.

pub mod order;
pub mod hash;
pub mod block;
pub mod pool;
pub mod consensus;
pub mod argon_consensus;
pub mod dummy;
pub mod storage;
pub mod memory_storage;
pub mod chain;
pub mod ancestor;
pub mod ancestor_lemmas;
pub mod process;
pub mod download;
pub mod sync;
pub mod full_sync;
pub mod pool_lemmas;
