//! Transaction state layer of an EVM-compatible execution engine: an
//! overlay cache of accounts over a key-value storage backend, with nested
//! checkpoints, plus the gas and fee arithmetic of transaction execution.

pub mod types;
pub mod uint;
pub mod codec;
pub mod assoc;
pub mod collateral;
pub mod account;
pub mod storage_key;
pub mod storage;
pub mod internal_common;
pub mod parameters;
pub mod statedb;
pub mod overlay;
pub mod state;
pub mod observer;
pub mod executive;
pub mod execution;
pub mod spec;

