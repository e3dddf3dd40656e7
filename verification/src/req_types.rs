//! The request shapes of the coordination store's transaction protocol:
//! a transaction compares a key's value or version and then either puts a
//! new value or reads the current one. Keys and values are carried base64
//! encoded.

use vstd::prelude::*;

verus! {

#[derive(Clone, Debug)]
pub struct Transaction {
    pub compare: Vec<Comparison>,
    pub success: Vec<OperationRequest>,
    pub failure: Vec<OperationRequest>,
}

#[derive(Clone, Debug)]
pub struct Comparison {
    pub key: String,
    pub result: CompareResult,
    pub target_value: Target,
    pub target: CompareTarget,
}

#[derive(Clone, Debug)]
pub enum CompareResult {
    EQUAL,
    GREATER,
    LESS,
    NotEqual,
}

#[derive(Clone, Debug)]
pub enum CompareTarget {
    VERSION,
    CREATE,
    MOD,
    VALUE,
}

#[derive(Clone, Debug)]
pub enum Target {
    Version(u64),
    CreateRevision(u64),
    ModRevision(u64),
    Value(String),
}

#[derive(Clone, Debug)]
pub enum OperationRequest {
    Put(RequestPut),
    Range(RequestRange),
}

#[derive(Clone, Debug)]
pub struct RequestRange {
    pub key: String,
}

#[derive(Clone, Debug)]
pub struct RequestPut {
    pub key: String,
    pub value: String,
}

} // verus!
