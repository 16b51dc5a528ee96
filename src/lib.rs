//! A minimal proof-of-work blockchain node library: primitives and codecs,
//! state execution, transaction pool, mining, consensus decisions and the
//! wire protocol, each with a machine-checked contract.

pub mod bytes;
pub mod u256;
pub mod crypto;
pub mod types;
pub mod transaction;
pub mod block;
pub mod merkle;
pub mod miner;
pub mod state;
pub mod executor;
pub mod pool;
pub mod consensus;
pub mod db;
pub mod provider;
pub mod message;
pub mod txpool;
pub mod builder;
pub mod peer;
pub mod configs;
pub mod network;
