//! Building the coordination store's transactions and reading its answers
//! back: the enlarge-sequence compare-and-swap, the create-if-absent
//! transaction, and the extraction of a counter from a transaction response.

use vstd::prelude::*;
use vstd::string::StringSliceAdditionalSpecFns;
use vstd::utf8::encode_utf8;

use crate::b64::{b64_decode, b64_encode, b64_of, lemma_be_bytes_injective, u64_be_bytes,
    u64_from_be_bytes, u64_to_be_bytes};
use crate::req_types::{CompareResult, CompareTarget, Comparison, OperationRequest, RequestPut,
    RequestRange, Target, Transaction};
use crate::resp_types::{RangeResponse, TxResp};

verus! {

/// How a sequence name appears as a transaction key: its UTF-8 bytes, base64
/// encoded.
pub open spec fn tx_key_of(name: Seq<char>) -> Seq<char> {
    b64_of(encode_utf8(name))
}

/// How a counter appears as a transaction value: its eight big-endian bytes,
/// base64 encoded.
pub open spec fn tx_value_of(counter: u64) -> Seq<char> {
    b64_of(u64_be_bytes(counter))
}

fn encode_key(sequence_name: &String) -> (r: String)
    ensures
        r@ == tx_key_of(sequence_name@),
{
    b64_encode(sequence_name.as_str().as_bytes())
}

fn encode_counter(counter: u64) -> (r: String)
    ensures
        r@ == tx_value_of(counter),
{
    let bytes = u64_to_be_bytes(counter);
    b64_encode(bytes.as_slice())
}

/// The enlarge-sequence transaction: advance the counter from an expected
/// old value to a new one, atomically.
pub struct EnlargeSeqTx {
    pub tx: Transaction,
}

/// The create-sequence transaction: establish the counter at 0, atomically,
/// only if the key is absent.
pub struct CreateSeqTx {
    pub tx: Transaction,
}

impl EnlargeSeqTx {
    /// Compare `sequence_name`'s value against `old_value`; on success put
    /// `new_value`, on failure read the current value back.
    pub fn new(sequence_name: String, old_value: u64, new_value: u64) -> (r: Self)
        ensures
            r.tx.compare@.len() == 1,
            r.tx.compare@[0].key@ == tx_key_of(sequence_name@),
            r.tx.compare@[0].result is EQUAL,
            r.tx.compare@[0].target is VALUE,
            r.tx.compare@[0].target_value matches Target::Value(v) && v@ == tx_value_of(old_value),
            r.tx.success@.len() == 1,
            r.tx.success@[0] matches OperationRequest::Put(p) && p.key@ == tx_key_of(
                sequence_name@,
            ) && p.value@ == tx_value_of(new_value),
            r.tx.failure@.len() == 1,
            r.tx.failure@[0] matches OperationRequest::Range(rr) && rr.key@ == tx_key_of(
                sequence_name@,
            ),
    {
        let key = encode_key(&sequence_name);
        let old_value = encode_counter(old_value);
        let new_value = encode_counter(new_value);

        Self {
            tx: Transaction {
                compare: vec![
                    Comparison {
                        key: key.clone(),
                        target_value: Target::Value(old_value),
                        target: CompareTarget::VALUE,
                        result: CompareResult::EQUAL,
                    },
                ],
                success: vec![
                    OperationRequest::Put(RequestPut { key: key.clone(), value: new_value }),
                ],
                failure: vec![OperationRequest::Range(RequestRange { key })],
            },
        }
    }
}

impl CreateSeqTx {
    /// Compare `sequence_name`'s existence version against 0 (absent); on
    /// success put counter 0, on failure read the current value back.
    pub fn new(sequence_name: String) -> (r: Self)
        ensures
            r.tx.compare@.len() == 1,
            r.tx.compare@[0].key@ == tx_key_of(sequence_name@),
            r.tx.compare@[0].result is EQUAL,
            r.tx.compare@[0].target is VERSION,
            r.tx.compare@[0].target_value matches Target::Version(v) && v == 0,
            r.tx.success@.len() == 1,
            r.tx.success@[0] matches OperationRequest::Put(p) && p.key@ == tx_key_of(
                sequence_name@,
            ) && p.value@ == tx_value_of(0),
            r.tx.failure@.len() == 1,
            r.tx.failure@[0] matches OperationRequest::Range(rr) && rr.key@ == tx_key_of(
                sequence_name@,
            ),
    {
        let key = encode_key(&sequence_name);
        let new_value = encode_counter(0);

        Self {
            tx: Transaction {
                compare: vec![
                    // check key version; if the key exists, its version is greater than 0
                    Comparison {
                        key: key.clone(),
                        target_value: Target::Version(0),
                        target: CompareTarget::VERSION,
                        result: CompareResult::EQUAL,
                    },
                ],
                success: vec![
                    OperationRequest::Put(RequestPut { key: key.clone(), value: new_value }),
                ],
                failure: vec![OperationRequest::Range(RequestRange { key })],
            },
        }
    }
}

/// Parse a counter out of a base64 payload: the eight big-endian bytes of
/// exactly one `u64`, base64 encoded; anything else is rejected.
pub fn num_from_base64(encoded: &str) -> (r: Result<u64, Base64DecodeErr>)
    ensures
        r matches Ok(x) ==> encoded@ == tx_value_of(x),
        forall|x: u64| encoded@ == tx_value_of(x) ==> (r matches Ok(y) && y == x),
        r matches Err(Base64DecodeErr::NumFromBytesErr(_)) <==> (exists|bs: Seq<u8>|
            encoded@ == b64_of(bs) && bs.len() != 8),
        r matches Err(Base64DecodeErr::DecodeErr(_)) <==> !(exists|bs: Seq<u8>|
            encoded@ == b64_of(bs)),
{
    let decoded = match b64_decode(encoded) {
        Ok(v) => v,
        Err(e) => {
            return Err(Base64DecodeErr::DecodeErr(e));
        },
    };
    if decoded.len() != 8 {
        return Err(Base64DecodeErr::NumFromBytesErr("Couldn't parse u64 from bytes".to_string()));
    }
    let value = u64_from_be_bytes(&decoded);
    proof {
        assert forall|x: u64| encoded@ == tx_value_of(x) implies value == x by {
            lemma_be_bytes_injective(value, x);
        }
    }
    Ok(value)
}

// =========| Reading responses back |=========

/// The base64 payload a range response carries for the first key, if any.
pub open spec fn range_resp_value(rr: RangeResponse) -> Option<Seq<char>> {
    match rr.kvs {
        Option::Some(kvs) => if kvs@.len() > 0 {
            match kvs@[0].value {
                Option::Some(s) => Option::Some(s@),
                Option::None => Option::None,
            }
        } else {
            Option::None
        },
        Option::None => Option::None,
    }
}

/// The payload of a transaction response's first range operation, if any.
pub open spec fn tx_resp_value(res: TxResp) -> Option<Seq<char>> {
    if res.responses@.len() == 0 {
        Option::None
    } else {
        match res.responses@[0].response_range {
            Option::Some(rr) => range_resp_value(rr),
            Option::None => Option::None,
        }
    }
}

/// The response carries a payload that encodes some counter.
pub open spec fn resp_counter_ok(v: Option<Seq<char>>) -> bool {
    v matches Some(s) && exists|x: u64| s == tx_value_of(x)
}

/// Extract the counter a range response carries for the sequence: present
/// exactly when the response holds a first key with a payload that encodes a
/// counter.
pub fn unwrap_range_response(rang_resp: RangeResponse) -> (r: Result<u64, RangeRespParsingErr>)
    ensures
        r matches Ok(x) ==> (range_resp_value(rang_resp) matches Some(s) && s == tx_value_of(x)),
        forall|x: u64| (range_resp_value(rang_resp) matches Some(s) && s == #[trigger] tx_value_of(
            x,
        )) ==> (r matches Ok(y) && y == x),
        r matches Err(RangeRespParsingErr::Common(_)) <==> range_resp_value(rang_resp) is None,
        r matches Err(RangeRespParsingErr::Base64(_)) <==> (range_resp_value(rang_resp) matches Some(
            s,
        ) && !(exists|x: u64| s == tx_value_of(x))),
{
    let mut kvs = match rang_resp.kvs {
        Option::Some(k) => k,
        Option::None => {
            return Err(
                RangeRespParsingErr::Common(
                    "Couldn't parse range op response: no such key".to_string(),
                ),
            );
        },
    };
    if kvs.len() == 0 {
        return Err(
            RangeRespParsingErr::Common(
                "Couldn't parse range op response: no such key".to_string(),
            ),
        );
    }
    let first = kvs.remove(0);
    let value = match first.value {
        Option::Some(v) => v,
        Option::None => {
            return Err(
                RangeRespParsingErr::Common("Couldn't parse range result value".to_string()),
            );
        },
    };
    match num_from_base64(value.as_str()) {
        Ok(x) => Ok(x),
        Err(e) => Err(RangeRespParsingErr::Base64(e)),
    }
}

/// Extract the counter a transaction response carries in its first
/// operation's range response.
pub fn unwrap_seq_value(res: TxResp) -> (r: Result<u64, RangeRespParsingErr>)
    ensures
        r matches Ok(x) ==> (tx_resp_value(res) matches Some(s) && s == tx_value_of(x)),
        forall|x: u64| (tx_resp_value(res) matches Some(s) && s == #[trigger] tx_value_of(x)) ==> (
        r matches Ok(y) && y == x),
        r matches Err(RangeRespParsingErr::Common(_)) <==> tx_resp_value(res) is None,
        r matches Err(RangeRespParsingErr::Base64(_)) <==> (tx_resp_value(res) matches Some(s)
            && !(exists|x: u64| s == tx_value_of(x))),
{
    let mut responses = res.responses;
    if responses.len() == 0 {
        return Err(
            RangeRespParsingErr::Common(
                "Couldn't get value of sequence. No operation responses from etcd.".to_string(),
            ),
        );
    }
    let response = responses.remove(0);
    let response_range = match response.response_range {
        Option::Some(rr) => rr,
        Option::None => {
            return Err(
                RangeRespParsingErr::Common(
                    "Couldn't get value of sequence. No response of range operation from etcd."
                        .to_string(),
                ),
            );
        },
    };
    unwrap_range_response(response_range)
}

fn interop_of_parsing(e: RangeRespParsingErr) -> (r: EtcdInteropErr)
    ensures
        e is Common ==> r is DeserializationErr,
        e is Base64 ==> r is Base64DecodeErr,
{
    match e {
        RangeRespParsingErr::Common(s) => EtcdInteropErr::DeserializationErr(
            DeserializeErr::Common(s),
        ),
        RangeRespParsingErr::Base64(err) => EtcdInteropErr::Base64DecodeErr(err),
    }
}

/// Read an enlarge transaction's outcome: success means the compare matched
/// and the counter was advanced; otherwise the current counter is reported
/// as stale, when the failure branch's read can be parsed.
pub fn interpret_enlarge_response(response: TxResp) -> (r: Result<(), EnlargeTxErr>)
    ensures
        r is Ok <==> response.succeeded matches Some(true),
        r matches Err(EnlargeTxErr::StaleSequenceNum { new_num }) ==> (tx_resp_value(
            response,
        ) matches Some(s) && s == tx_value_of(new_num)),
        forall|x: u64|
            !(response.succeeded matches Some(true)) && (tx_resp_value(response) matches Some(s)
                && s == #[trigger] tx_value_of(x)) ==> (r matches Err(
                EnlargeTxErr::StaleSequenceNum { new_num },
            ) && new_num == x),
        r matches Err(EnlargeTxErr::EtcdInteropError(_)) <==> !(response.succeeded matches Some(
            true,
        )) && !resp_counter_ok(tx_resp_value(response)),
{
    let succeeded = match response.succeeded {
        Option::Some(b) => b,
        Option::None => false,
    };
    if succeeded {
        return Ok(());
    }
    match unwrap_seq_value(response) {
        Ok(new_num) => Err(EnlargeTxErr::StaleSequenceNum { new_num }),
        Err(e) => Err(EnlargeTxErr::EtcdInteropError(interop_of_parsing(e))),
    }
}

/// Read a create transaction's outcome: success means the sequence was
/// absent and its counter is now 0; otherwise the sequence already existed
/// and its current counter is reported, when the failure branch's read can
/// be parsed.
pub fn interpret_create_response(response: TxResp) -> (r: Result<(), CreateSeqTxErr>)
    ensures
        r is Ok <==> response.succeeded matches Some(true),
        r matches Err(CreateSeqTxErr::SeqAlreadyExists { seq_value }) ==> (tx_resp_value(
            response,
        ) matches Some(s) && s == tx_value_of(seq_value)),
        forall|x: u64|
            !(response.succeeded matches Some(true)) && (tx_resp_value(response) matches Some(s)
                && s == #[trigger] tx_value_of(x)) ==> (r matches Err(
                CreateSeqTxErr::SeqAlreadyExists { seq_value },
            ) && seq_value == x),
        r matches Err(CreateSeqTxErr::EtcdInteropError(_)) <==> !(response.succeeded matches Some(
            true,
        )) && !resp_counter_ok(tx_resp_value(response)),
{
    let succeeded = match response.succeeded {
        Option::Some(b) => b,
        Option::None => false,
    };
    if succeeded {
        return Ok(());
    }
    match unwrap_seq_value(response) {
        Ok(seq_value) => Err(CreateSeqTxErr::SeqAlreadyExists { seq_value }),
        Err(e) => Err(CreateSeqTxErr::EtcdInteropError(interop_of_parsing(e))),
    }
}

/// The plain read of a sequence's counter, as a request body.
pub fn make_range_request(seq_id: &String) -> (r: RequestRange)
    ensures
        r.key@ == tx_key_of(seq_id@),
{
    RequestRange { key: encode_key(seq_id) }
}

/// Read a counter read-back: an absent key set means no such sequence; an
/// empty key set or a missing payload is a malformed answer; otherwise the
/// payload must encode a counter.
pub fn interpret_range_read(seq_id: String, response: RangeResponse) -> (r: Result<
    u64,
    GetRangeErr,
>)
    ensures
        r matches Ok(x) ==> (range_resp_value(response) matches Some(s) && s == tx_value_of(x)),
        forall|x: u64| (range_resp_value(response) matches Some(s) && s == #[trigger] tx_value_of(
            x,
        )) ==> (r matches Ok(y) && y == x),
        r matches Err(GetRangeErr::NoSuchSeq(n)) ==> response.kvs is None && n@ == seq_id@,
        response.kvs is None ==> r matches Err(GetRangeErr::NoSuchSeq(_)),
        r matches Err(GetRangeErr::EtcdInteropError(EtcdInteropErr::DeserializationErr(_)))
            <==> (response.kvs matches Some(kvs) && (kvs@.len() == 0 || kvs@[0].value is None)),
        r matches Err(GetRangeErr::EtcdInteropError(EtcdInteropErr::Base64DecodeErr(_)))
            <==> (range_resp_value(response) matches Some(s) && !(exists|x: u64|
            s == tx_value_of(x))),
{
    let mut kvs = match response.kvs {
        Option::Some(k) => k,
        Option::None => {
            return Err(GetRangeErr::NoSuchSeq(seq_id));
        },
    };
    if kvs.len() == 0 {
        return Err(
            GetRangeErr::EtcdInteropError(
                EtcdInteropErr::DeserializationErr(
                    DeserializeErr::Common("Etcd didn't sent back value".to_string()),
                ),
            ),
        );
    }
    let first = kvs.remove(0);
    let value = match first.value {
        Option::Some(v) => v,
        Option::None => {
            return Err(
                GetRangeErr::EtcdInteropError(
                    EtcdInteropErr::DeserializationErr(
                        DeserializeErr::Common("Etcd didn't sent back value".to_string()),
                    ),
                ),
            );
        },
    };
    match num_from_base64(value.as_str()) {
        Ok(x) => Ok(x),
        Err(e) => Err(GetRangeErr::EtcdInteropError(EtcdInteropErr::Base64DecodeErr(e))),
    }
}

// =========| ERRORS |=========

#[derive(Debug)]
pub enum EnlargeTxErr {
    StaleSequenceNum { new_num: u64 },
    EtcdInteropError(EtcdInteropErr),
}

#[derive(Debug)]
pub enum CreateSeqTxErr {
    SeqAlreadyExists { seq_value: u64 },
    EtcdInteropError(EtcdInteropErr),
}

#[derive(Debug)]
pub enum GetRangeErr {
    NoSuchSeq(String),
    EtcdInteropError(EtcdInteropErr),
}

#[derive(Debug)]
pub enum RangeRespParsingErr {
    Common(String),
    Base64(Base64DecodeErr),
}

#[derive(Debug)]
pub enum EtcdInteropErr {
    SendReqErr(String),
    SerializationErr(String),
    DeserializationErr(DeserializeErr),
    Base64DecodeErr(Base64DecodeErr),
}

#[derive(Debug)]
pub enum DeserializeErr {
    Common(String),
    JsonPayload(String),
}

#[derive(Debug)]
pub enum Base64DecodeErr {
    DecodeErr(base64::DecodeError),
    NumFromBytesErr(String),
}

} // verus!
