use id_gen::b64::{u64_from_be_bytes, u64_to_be_bytes};
use id_gen::etcd_client::{cas_step, CasStep, EtcdErr};
use id_gen::operations::{
    interpret_create_response, interpret_enlarge_response, interpret_range_read, num_from_base64,
    unwrap_range_response, unwrap_seq_value, Base64DecodeErr, CreateSeqTx, CreateSeqTxErr,
    EnlargeSeqTx, EnlargeTxErr, GetRangeErr, RangeRespParsingErr,
};
use id_gen::req_types::{CompareResult, CompareTarget, OperationRequest, Target};
use id_gen::resp_types::{Header, OperationResult, RangeResponse, RangeResult, TxResp};

fn empty_header() -> Header {
    Header { cluster_id: None, member_id: None, revision: None, raft_term: None }
}

fn range_response_with(value: Option<String>) -> RangeResponse {
    RangeResponse {
        header: empty_header(),
        kvs: Some(vec![RangeResult {
            key: None,
            create_revision: None,
            mod_revision: None,
            version: None,
            value,
        }]),
        count: Some("1".to_string()),
    }
}

fn tx_resp(succeeded: Option<bool>, value: Option<String>) -> TxResp {
    TxResp {
        header: empty_header(),
        succeeded,
        responses: vec![OperationResult {
            response_range: Some(range_response_with(value)),
            response_put: None,
        }],
    }
}

#[test]
fn enlarge_test() {
    let enlarge = EnlargeSeqTx::new("some-sequence-name-2".to_string(), 0, 500);

    assert_eq!(enlarge.tx.compare.len(), 1);
    let cmp = &enlarge.tx.compare[0];
    assert_eq!(cmp.key, "c29tZS1zZXF1ZW5jZS1uYW1lLTI=");
    assert!(matches!(cmp.result, CompareResult::EQUAL));
    assert!(matches!(cmp.target, CompareTarget::VALUE));
    match &cmp.target_value {
        Target::Value(v) => assert_eq!(v, "AAAAAAAAAAA="),
        _ => panic!("the comparison must target the stored value"),
    }

    assert_eq!(enlarge.tx.success.len(), 1);
    match &enlarge.tx.success[0] {
        OperationRequest::Put(p) => {
            assert_eq!(p.key, "c29tZS1zZXF1ZW5jZS1uYW1lLTI=");
            assert_eq!(p.value, "AAAAAAAAAfQ=");
        },
        _ => panic!("success must put the new value"),
    }

    assert_eq!(enlarge.tx.failure.len(), 1);
    match &enlarge.tx.failure[0] {
        OperationRequest::Range(r) => assert_eq!(r.key, "c29tZS1zZXF1ZW5jZS1uYW1lLTI="),
        _ => panic!("failure must read the current value"),
    }
}

#[test]
fn create_seq_test() {
    let create_seq = CreateSeqTx::new("some-sequence-name-2".to_string());

    assert_eq!(create_seq.tx.compare.len(), 1);
    let cmp = &create_seq.tx.compare[0];
    assert_eq!(cmp.key, "c29tZS1zZXF1ZW5jZS1uYW1lLTI=");
    assert!(matches!(cmp.result, CompareResult::EQUAL));
    assert!(matches!(cmp.target, CompareTarget::VERSION));
    assert!(matches!(cmp.target_value, Target::Version(0)));

    match &create_seq.tx.success[0] {
        OperationRequest::Put(p) => {
            assert_eq!(p.key, "c29tZS1zZXF1ZW5jZS1uYW1lLTI=");
            assert_eq!(p.value, "AAAAAAAAAAA=");
        },
        _ => panic!("success must put the initial value"),
    }
}

#[test]
fn counters_round_trip_through_big_endian_bytes() {
    let bytes = u64_to_be_bytes(0x0102030405060708);
    assert_eq!(bytes, vec![1, 2, 3, 4, 5, 6, 7, 8]);
    assert_eq!(u64_from_be_bytes(&bytes), 0x0102030405060708);

    let bytes = u64_to_be_bytes(500);
    assert_eq!(bytes, vec![0, 0, 0, 0, 0, 0, 1, 0xf4]);
    assert_eq!(u64_from_be_bytes(&bytes), 500);
}

#[test]
fn num_from_base64_reads_a_counter_back() {
    assert_eq!(num_from_base64("AAAAAAAAAfQ=").unwrap(), 500);
    assert_eq!(num_from_base64("AAAAAAAAAAA=").unwrap(), 0);
}

#[test]
fn num_from_base64_rejects_bad_payloads() {
    // not base64 at all
    assert!(matches!(
        num_from_base64("!!!"),
        Err(Base64DecodeErr::DecodeErr(_))
    ));
    // valid base64, but four bytes instead of eight
    assert!(matches!(
        num_from_base64("AAAB9A=="),
        Err(Base64DecodeErr::NumFromBytesErr(_))
    ));
}

#[test]
fn range_response_without_keys_is_a_parsing_error() {
    let resp = RangeResponse { header: empty_header(), kvs: None, count: None };
    assert!(matches!(
        unwrap_range_response(resp),
        Err(RangeRespParsingErr::Common(_))
    ));
}

#[test]
fn range_response_with_a_counter_parses() {
    let resp = range_response_with(Some("AAAAAAAAAfQ=".to_string()));
    assert_eq!(unwrap_range_response(resp).unwrap(), 500);
}

#[test]
fn tx_response_without_operations_is_a_parsing_error() {
    let resp = TxResp { header: empty_header(), succeeded: Some(false), responses: vec![] };
    assert!(matches!(
        unwrap_seq_value(resp),
        Err(RangeRespParsingErr::Common(_))
    ));
}

#[test]
fn successful_enlarge_response_is_ok() {
    let resp = tx_resp(Some(true), None);
    assert!(interpret_enlarge_response(resp).is_ok());
}

#[test]
fn failed_enlarge_response_reports_the_stale_counter() {
    let resp = tx_resp(Some(false), Some("AAAAAAAAAfQ=".to_string()));
    assert!(matches!(
        interpret_enlarge_response(resp),
        Err(EnlargeTxErr::StaleSequenceNum { new_num: 500 })
    ));
}

#[test]
fn failed_enlarge_response_with_a_bad_payload_is_an_interop_error() {
    let resp = tx_resp(None, Some("!!!".to_string()));
    assert!(matches!(
        interpret_enlarge_response(resp),
        Err(EnlargeTxErr::EtcdInteropError(_))
    ));
}

#[test]
fn failed_create_response_reports_the_existing_counter() {
    let resp = tx_resp(Some(false), Some("AAAAAAAAAAA=".to_string()));
    assert!(matches!(
        interpret_create_response(resp),
        Err(CreateSeqTxErr::SeqAlreadyExists { seq_value: 0 })
    ));
}

#[test]
fn reading_an_absent_sequence_is_no_such_seq() {
    let resp = RangeResponse { header: empty_header(), kvs: None, count: None };
    match interpret_range_read("missing".to_string(), resp) {
        Err(GetRangeErr::NoSuchSeq(name)) => assert_eq!(name, "missing"),
        _ => panic!("an absent key set must be reported as no such sequence"),
    }
}

#[test]
fn reading_a_present_counter_succeeds() {
    let resp = range_response_with(Some("AAAAAAAAA+g=".to_string()));
    assert_eq!(interpret_range_read("s".to_string(), resp).unwrap(), 1000);
}

#[test]
fn cas_step_commits_retries_and_gives_up() {
    match cas_step(500, 500, Ok(()), 4) {
        CasStep::Done(rng) => {
            assert_eq!(rng.begin, 500);
            assert_eq!(rng.end, 1000);
        },
        _ => panic!("a committed swap allocates the range"),
    }

    assert!(matches!(
        cas_step(0, 500, Err(EnlargeTxErr::StaleSequenceNum { new_num: 700 }), 3),
        CasStep::Retry { next_old: 700 }
    ));

    assert!(matches!(
        cas_step(0, 500, Err(EnlargeTxErr::StaleSequenceNum { new_num: 700 }), 0),
        CasStep::Fail(EtcdErr::OptimisticTxFailed)
    ));
}
