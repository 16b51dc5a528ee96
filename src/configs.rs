//! Node settings.
use vstd::prelude::*;
use crate::types::Address;

verus! {

/// Settings of the transaction pool; none yet.
#[derive(Clone, Copy, Debug, Default)]
pub struct PoolConfig {}

/// Settings of the RPC server; none yet.
#[derive(Clone, Copy, Debug, Default)]
pub struct RpcConfig {}

/// Settings of the executor; none yet.
#[derive(Clone, Copy, Debug, Default)]
pub struct ExecConfig {}

/// Settings of block production: who receives the fees.
#[derive(Clone, Copy, Debug)]
pub struct BlockConfig {
    pub miner_address: Address,
}

impl BlockConfig {
    pub fn new(miner_address: Address) -> (r: BlockConfig)
        ensures
            r.miner_address == miner_address,
    {
        BlockConfig { miner_address }
    }
}

} // verus!
