use id_gen::config::{validate_properties, Configs, Properties};
use id_gen::etcd_client::{CasOutcome, CreateOutcome, EtcdClient, EtcdErr, StoreModel};
use id_gen::operations::CreateSeqTxErr;
use id_gen::provider::{RangeProvider, RangeProviderErr};
use id_gen::range::Range;

#[test]
fn creating_a_sequence_twice_reports_it_exists() {
    let mut client = EtcdClient::new();
    assert!(client.create_seq("s".to_string()).is_ok());
    assert!(matches!(
        client.create_seq("s".to_string()),
        Err(EtcdErr::CreateSeqTxErr(CreateSeqTxErr::SeqAlreadyExists { seq_value: 0 }))
    ));
}

#[test]
fn consecutive_fetches_advance_the_counter() {
    let mut client = EtcdClient::new();
    client.create_seq("s".to_string()).unwrap();

    let first = client.next_range("s".to_string(), 500).unwrap();
    assert_eq!(first, Range { begin: 0, end: 500 });

    let second = client.next_range("s".to_string(), 500).unwrap();
    assert_eq!(second, Range { begin: 500, end: 1000 });
}

#[test]
fn fetching_an_unknown_sequence_fails_without_changes() {
    let mut client = EtcdClient::new();
    assert!(matches!(
        client.next_range("ghost".to_string(), 100),
        Err(EtcdErr::NoSuchRangeErr(_))
    ));
    assert!(client.store.read_counter(&"ghost".to_string()).is_none());
}

#[test]
fn the_store_swap_is_compare_and_swap() {
    let mut store = StoreModel::new();
    assert!(matches!(store.create(&"s".to_string()), CreateOutcome::Created));
    assert!(matches!(store.enlarge(&"s".to_string(), 0, 500), CasOutcome::Committed));
    // a second swap with the same expected value loses and learns the winner's
    assert!(matches!(
        store.enlarge(&"s".to_string(), 0, 700),
        CasOutcome::Stale { actual: 500 }
    ));
    // retrying from the observed value wins
    assert!(matches!(store.enlarge(&"s".to_string(), 500, 1200), CasOutcome::Committed));
    assert_eq!(store.read_counter(&"s".to_string()), Some(1200));
}

#[test]
fn an_oversized_request_is_rejected_before_any_store_access() {
    let mut provider = RangeProvider::new(1000, 1000);
    provider.create_sequence("s".to_string()).unwrap();

    let r = provider.get_next_range("s".to_string(), 2000);
    assert!(matches!(r, Err(RangeProviderErr::Validation(_))));
    // the store was not touched
    assert_eq!(provider.etcd_client.store.read_counter(&"s".to_string()), Some(0));
}

#[test]
fn a_shortfall_is_covered_by_one_fetch_and_the_rest_is_buffered() {
    let mut provider = RangeProvider::new(1000, 1000);
    provider.create_sequence("s".to_string()).unwrap();

    let first = provider.get_next_range("s".to_string(), 60).unwrap();
    assert_eq!(first, vec![Range { begin: 0, end: 60 }]);
    // one block of 1000 was fetched; 940 stay buffered
    assert_eq!(provider.etcd_client.store.read_counter(&"s".to_string()), Some(1000));

    let second = provider.get_next_range("s".to_string(), 60).unwrap();
    assert_eq!(second, vec![Range { begin: 60, end: 120 }]);
    // the cache covered it: no further fetch
    assert_eq!(provider.etcd_client.store.read_counter(&"s".to_string()), Some(1000));
}

#[test]
fn served_ranges_are_disjoint_and_cover_the_counter_prefix() {
    let mut provider = RangeProvider::new(100, 50);
    provider.create_sequence("s".to_string()).unwrap();

    let mut served: Vec<Range> = Vec::new();
    for _ in 0..5 {
        served.extend(provider.get_next_range("s".to_string(), 30).unwrap());
    }

    let total: u64 = served.iter().map(|r| r.end - r.begin).sum();
    assert_eq!(total, 150);
    for (i, a) in served.iter().enumerate() {
        for b in served.iter().skip(i + 1) {
            assert!(a.end <= b.begin || b.end <= a.begin);
        }
    }
    // two blocks of 100 were fetched to serve five requests of 30
    assert_eq!(provider.etcd_client.store.read_counter(&"s".to_string()), Some(200));
}

#[test]
fn requesting_from_an_unknown_sequence_is_an_error() {
    let mut provider = RangeProvider::new(1000, 1000);
    assert!(matches!(
        provider.get_next_range("ghost".to_string(), 10),
        Err(RangeProviderErr::Etcd(EtcdErr::NoSuchRangeErr(_)))
    ));
}

#[test]
fn configuration_must_keep_the_client_maximum_under_the_fetch_size() {
    let good = Properties {
        etcd_addr: "http://localhost:2379".to_string(),
        etcd_fetch_range_size: 1000,
        client_range_max_size: 1000,
    };
    assert!(validate_properties(&good));

    let bad = Properties {
        etcd_addr: "http://localhost:2379".to_string(),
        etcd_fetch_range_size: 500,
        client_range_max_size: 1000,
    };
    assert!(!validate_properties(&bad));

    let cfg = Configs { props: good, logs_cfg_path: "configs/default/logs.yaml".to_string() };
    assert_eq!(cfg.props.client_range_max_size, 1000);
}
