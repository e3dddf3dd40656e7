//! The response shapes of the coordination store's transaction protocol, as
//! its REST transport hands them back.

use vstd::prelude::*;

verus! {

#[derive(Clone, Debug)]
pub struct Header {
    pub cluster_id: Option<String>,
    pub member_id: Option<String>,
    pub revision: Option<String>,
    pub raft_term: Option<String>,
}

#[derive(Clone, Debug)]
pub struct RangeResponse {
    pub header: Header,
    pub kvs: Option<Vec<RangeResult>>,
    pub count: Option<String>,
}

#[derive(Clone, Debug)]
pub struct RangeResult {
    pub key: Option<String>,
    pub create_revision: Option<String>,
    pub mod_revision: Option<String>,
    pub version: Option<String>,
    pub value: Option<String>,
}

#[derive(Clone, Debug)]
pub struct ResponsePut {
    pub header: Header,
}

#[derive(Clone, Debug)]
pub struct OperationResult {
    pub response_range: Option<RangeResponse>,
    pub response_put: Option<ResponsePut>,
}

#[derive(Clone, Debug)]
pub struct TxResp {
    pub header: Header,
    pub succeeded: Option<bool>,
    pub responses: Vec<OperationResult>,
}

} // verus!
