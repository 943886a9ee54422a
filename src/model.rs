use vstd::prelude::*;

verus! {

#[verifier::external_type_specification]
#[verifier::external_body]
pub struct ExJsonValue(serde_json::Value);

/// A JSON-RPC 2.0 call.
pub struct JSONRPCRequest {
    pub id: i64,
    pub method: String,
    pub jsonrpc: String,
    pub params: Option<serde_json::Value>,
}

/// The part of a JSON-RPC answer that the probes read.
pub struct JSONRPCResponse<T> {
    pub result: T,
}

pub struct XRPBlock {
    pub ledger_current_index: u64,
}

pub struct NearBlock {
    pub header: NearBlockHeader,
}

pub struct NearBlockHeader {
    pub height: u64,
}

pub struct TonBlock {
    pub consensus_block: u64,
}

pub struct AptosBlock {
    pub block_height: String,
}

pub struct TronBlock {
    pub block_header: TronBlockHeader,
}

pub struct TronBlockHeader {
    pub raw_data: TronBlockHeaderRaw,
}

pub struct TronBlockHeaderRaw {
    pub number: u64,
}

pub struct CosmosBlockResponse {
    pub block: CosmosBlock,
}

pub struct CosmosBlock {
    pub header: CosmosBlockHeader,
}

pub struct CosmosBlockHeader {
    pub height: String,
}

pub struct BitcoinBlock {
    pub blockbook: BitcoinBlockbook,
}

pub struct BitcoinBlockbook {
    pub best_height: u64,
}

} // verus!
