use vstd::prelude::*;

use crate::chain_type::ChainType;
use crate::model::{
    AptosBlock, BitcoinBlock, CosmosBlockResponse, JSONRPCRequest, JSONRPCResponse, NearBlock,
    TonBlock, TronBlock, XRPBlock,
};
use crate::numbers::{parse_hex_quantity, parse_hex_u64, parse_u64, parse_unsigned};

verus! {

/// Why a height probe produced no height. Every cause leads to the same
/// treatment: the candidate sits out the current monitoring cycle.
#[derive(Debug, PartialEq, Eq)]
pub enum ProbeError {
    /// The request could not be sent or its answer could not be read.
    Transport(String),
    /// The answer was not the JSON document the chain's API returns.
    Decode(String),
    /// The height field held something other than an unsigned 64-bit number.
    InvalidNumber,
    /// The decoded answer belongs to another chain's API.
    MismatchedReply,
    /// The call's parameters could not be built.
    Params,
    /// The upstream answered with a status outside 200..=299.
    Status(u16),
}

/// An upstream answer is read only when its status is a success (2xx).
pub fn check_status(status: u16) -> (r: Result<(), ProbeError>)
    ensures
        r is Ok <==> 200 <= status <= 299,
        r is Err ==> r == Err::<(), ProbeError>(ProbeError::Status(status)),
{
    if 200 <= status && status <= 299 {
        Ok(())
    } else {
        Err(ProbeError::Status(status))
    }
}

/// The HTTP methods that probes use.
#[derive(Clone, Copy, Debug, PartialEq, Eq, Structural)]
pub enum HttpMethod {
    Get,
    Post,
}

/// Everything needed to send one probe: method, full URI, and for JSON-RPC
/// chains the call to post as the JSON body (an empty body otherwise). Every
/// probe is sent with `Content-Type: application/json`.
pub struct ProbeRequest {
    pub method: HttpMethod,
    pub uri: String,
    pub rpc: Option<JSONRPCRequest>,
}

/// The decoded answer to a probe, in the shape of the chain's API.
pub enum BlockReply {
    Ethereum(JSONRPCResponse<String>),
    Bitcoin(BitcoinBlock),
    Solana(JSONRPCResponse<u64>),
    Cosmos(CosmosBlockResponse),
    Ton(JSONRPCResponse<TonBlock>),
    Tron(TronBlock),
    Aptos(AptosBlock),
    Sui(JSONRPCResponse<String>),
    Xrp(JSONRPCResponse<XRPBlock>),
    Near(JSONRPCResponse<NearBlock>),
}

/// The JSON-RPC method that reads a chain's height, for chains probed by JSON-RPC.
pub open spec fn rpc_method_of(c: ChainType) -> Option<Seq<char>> {
    match c {
        ChainType::Ethereum => Some("eth_blockNumber"@),
        ChainType::Solana => Some("getSlot"@),
        ChainType::Sui => Some("sui_getLatestCheckpointSequenceNumber"@),
        ChainType::Xrp => Some("ledger_current"@),
        ChainType::Near => Some("block"@),
        _ => None,
    }
}

/// The REST method and path that read a chain's height, for the other chains.
pub open spec fn rest_call_of(c: ChainType) -> Option<(HttpMethod, Seq<char>)> {
    match c {
        ChainType::Bitcoin => Some((HttpMethod::Get, "/api/"@)),
        ChainType::Cosmos => Some((HttpMethod::Get, "/cosmos/base/tendermint/v1beta1/blocks/latest"@)),
        ChainType::Ton => Some((HttpMethod::Get, "/api/v2/getConsensusBlock"@)),
        ChainType::Tron => Some((HttpMethod::Post, "/wallet/getnowblock"@)),
        ChainType::Aptos => Some((HttpMethod::Get, "/v1/"@)),
        _ => None,
    }
}

/// The chain whose API gives answers of this shape.
pub open spec fn reply_chain(r: BlockReply) -> ChainType {
    match r {
        BlockReply::Ethereum(_) => ChainType::Ethereum,
        BlockReply::Bitcoin(_) => ChainType::Bitcoin,
        BlockReply::Solana(_) => ChainType::Solana,
        BlockReply::Cosmos(_) => ChainType::Cosmos,
        BlockReply::Ton(_) => ChainType::Ton,
        BlockReply::Tron(_) => ChainType::Tron,
        BlockReply::Aptos(_) => ChainType::Aptos,
        BlockReply::Sui(_) => ChainType::Sui,
        BlockReply::Xrp(_) => ChainType::Xrp,
        BlockReply::Near(_) => ChainType::Near,
    }
}

/// The height an answer reports: a `0x` quantity for Ethereum, a decimal
/// string for Cosmos, Aptos and Sui, a JSON number elsewhere.
pub open spec fn reply_height(r: BlockReply) -> Option<u64> {
    match r {
        BlockReply::Ethereum(x) => parse_hex_quantity(x.result@),
        BlockReply::Bitcoin(b) => Some(b.blockbook.best_height),
        BlockReply::Solana(x) => Some(x.result),
        BlockReply::Cosmos(c) => parse_unsigned(c.block.header.height@, 10),
        BlockReply::Ton(x) => Some(x.result.consensus_block),
        BlockReply::Tron(t) => Some(t.block_header.raw_data.number),
        BlockReply::Aptos(a) => parse_unsigned(a.block_height@, 10),
        BlockReply::Sui(x) => parse_unsigned(x.result@, 10),
        BlockReply::Xrp(x) => Some(x.result.ledger_current_index),
        BlockReply::Near(x) => Some(x.result.header.height),
    }
}

/// Relies on serde_json::from_str to read a JSON text into a value; it
/// returns nothing when the text is not well-formed JSON.
#[verifier::external_body]
fn json_value_from_str(text: &str) -> (r: Option<serde_json::Value>) {
    serde_json::from_str(text).ok()
}

/// A height probe against one endpoint of one chain.
pub struct ChainService {
    pub chain_type: ChainType,
    pub url: String,
}

impl ChainService {
    /// A JSON-RPC 2.0 call of `method` with id 1, posted to the endpoint's URL.
    pub fn get_json_rpc_data(&self, method: &str, params: Option<serde_json::Value>) -> (r:
        ProbeRequest)
        ensures
            r.method == HttpMethod::Post,
            r.uri@ == self.url@,
            r.rpc matches Some(q) && q.id == 1 && q.method@ == method@ && q.jsonrpc@ == "2.0"@
                && q.params == params,
    {
        ProbeRequest {
            method: HttpMethod::Post,
            uri: self.url.clone(),
            rpc: Some(
                JSONRPCRequest {
                    id: 1,
                    method: String::from_str(method),
                    jsonrpc: String::from_str("2.0"),
                    params,
                },
            ),
        }
    }

    /// A REST call: `method` on the endpoint's URL followed by `path`.
    pub fn get_data(&self, method: HttpMethod, path: &str) -> (r: ProbeRequest)
        ensures
            r.method == method,
            r.uri@ == self.url@ + path@,
            r.rpc is None,
    {
        let mut uri = self.url.clone();
        uri.append(path);
        ProbeRequest { method, uri, rpc: None }
    }

    /// The one request that reads this chain's height from this endpoint.
    pub fn probe_request(&self) -> (r: Result<ProbeRequest, ProbeError>)
        ensures
            self.chain_type != ChainType::Near ==> r is Ok,
            r is Err ==> r == Err::<ProbeRequest, ProbeError>(ProbeError::Params),
            rpc_method_of(self.chain_type) matches Some(m) ==> (r matches Ok(q) ==> {
                &&& q.method == HttpMethod::Post
                &&& q.uri@ == self.url@
                &&& q.rpc matches Some(call) && {
                    &&& call.id == 1
                    &&& call.method@ == m
                    &&& call.jsonrpc@ == "2.0"@
                    &&& (self.chain_type == ChainType::Near <==> call.params is Some)
                }
            }),
            rest_call_of(self.chain_type) matches Some((method, path)) ==> (r matches Ok(q) && {
                &&& q.method == method
                &&& q.uri@ == self.url@ + path
                &&& q.rpc is None
            }),
    {
        match self.chain_type {
            ChainType::Ethereum => Ok(self.get_json_rpc_data("eth_blockNumber", None)),
            ChainType::Bitcoin => Ok(self.get_data(HttpMethod::Get, "/api/")),
            ChainType::Solana => Ok(self.get_json_rpc_data("getSlot", None)),
            ChainType::Cosmos => Ok(
                self.get_data(HttpMethod::Get, "/cosmos/base/tendermint/v1beta1/blocks/latest"),
            ),
            ChainType::Ton => Ok(self.get_data(HttpMethod::Get, "/api/v2/getConsensusBlock")),
            ChainType::Tron => Ok(self.get_data(HttpMethod::Post, "/wallet/getnowblock")),
            ChainType::Aptos => Ok(self.get_data(HttpMethod::Get, "/v1/")),
            ChainType::Sui => Ok(
                self.get_json_rpc_data("sui_getLatestCheckpointSequenceNumber", None),
            ),
            ChainType::Xrp => Ok(self.get_json_rpc_data("ledger_current", None)),
            ChainType::Near => match json_value_from_str("{\"finality\": \"final\"}") {
                Some(params) => Ok(self.get_json_rpc_data("block", Some(params))),
                None => Err(ProbeError::Params),
            },
        }
    }

    /// The height that a decoded answer reports. An answer in another chain's
    /// shape is refused, and so is a height field that is not a 64-bit number.
    pub fn get_block_number(&self, reply: &BlockReply) -> (r: Result<u64, ProbeError>)
        ensures
            reply_chain(*reply) != self.chain_type ==> r == Err::<u64, ProbeError>(
                ProbeError::MismatchedReply,
            ),
            reply_chain(*reply) == self.chain_type ==> r == match reply_height(*reply) {
                Some(h) => Ok::<u64, ProbeError>(h),
                None => Err(ProbeError::InvalidNumber),
            },
    {
        let (chain, height) = match reply {
            BlockReply::Ethereum(x) => (ChainType::Ethereum, parse_hex_u64(x.result.as_str())),
            BlockReply::Bitcoin(b) => (ChainType::Bitcoin, Some(b.blockbook.best_height)),
            BlockReply::Solana(x) => (ChainType::Solana, Some(x.result)),
            BlockReply::Cosmos(c) => (ChainType::Cosmos, parse_u64(c.block.header.height.as_str(), 10)),
            BlockReply::Ton(x) => (ChainType::Ton, Some(x.result.consensus_block)),
            BlockReply::Tron(t) => (ChainType::Tron, Some(t.block_header.raw_data.number)),
            BlockReply::Aptos(a) => (ChainType::Aptos, parse_u64(a.block_height.as_str(), 10)),
            BlockReply::Sui(x) => (ChainType::Sui, parse_u64(x.result.as_str(), 10)),
            BlockReply::Xrp(x) => (ChainType::Xrp, Some(x.result.ledger_current_index)),
            BlockReply::Near(x) => (ChainType::Near, Some(x.result.header.height)),
        };
        if chain != self.chain_type {
            return Err(ProbeError::MismatchedReply);
        }
        match height {
            Some(h) => Ok(h),
            None => Err(ProbeError::InvalidNumber),
        }
    }
}

} // verus!
