use id_gen::cache_map;
use id_gen::cache_worker::{handle_msg, Msg, MsgGet, MsgPut, WorkerReply};
use id_gen::oneshot::OneShot;
use id_gen::range::Range;

#[test]
fn do_test() {
    assert_eq!(2 + 2, 4);

    let mut cache = cache_map::new();

    let rng = Range { begin: 0, end: 100 };

    let put = handle_msg(
        Msg::PutToCache(MsgPut { key: "some-seq".to_string(), value: rng }),
        &mut cache,
    );
    assert!(matches!(put, WorkerReply::PutDone));

    let got = handle_msg(
        Msg::GetFromCache(MsgGet { key: "some-seq".to_string(), range_size: 100 }),
        &mut cache,
    );
    let from_cache = match got {
        WorkerReply::Got(ranges, needed) => (ranges, needed),
        _ => panic!("expected a withdrawal reply"),
    };

    assert_eq!(from_cache.0.len(), 1);

    let range_from_cache = from_cache.0.first().unwrap();
    let needed = from_cache.1;

    assert_eq!(0, range_from_cache.begin);
    assert_eq!(100, range_from_cache.end);
    assert_eq!(0, needed);
}

#[test]
fn empty_cache_reports_the_full_shortfall() {
    let mut cache = cache_map::new();
    let (ranges, needed) = cache_map::get_range("seq".to_string(), 100, &mut cache);
    assert!(ranges.is_empty());
    assert_eq!(needed, 100);
}

#[test]
fn withdrawal_splits_and_keeps_the_remainder() {
    let mut cache = cache_map::new();
    cache_map::store_range("seq".to_string(), Range { begin: 0, end: 100 }, &mut cache);

    let (ranges, needed) = cache_map::get_range("seq".to_string(), 60, &mut cache);
    assert_eq!(ranges, vec![Range { begin: 0, end: 60 }]);
    assert_eq!(needed, 0);

    let (ranges, needed) = cache_map::get_range("seq".to_string(), 60, &mut cache);
    assert_eq!(ranges, vec![Range { begin: 60, end: 100 }]);
    assert_eq!(needed, 20);
}

#[test]
fn withdrawal_goes_front_first_over_several_ranges() {
    let mut cache = cache_map::new();
    cache_map::store_range("seq".to_string(), Range { begin: 0, end: 100 }, &mut cache);
    cache_map::store_range("seq".to_string(), Range { begin: 100, end: 150 }, &mut cache);

    let (ranges, needed) = cache_map::get_range("seq".to_string(), 120, &mut cache);
    assert_eq!(
        ranges,
        vec![Range { begin: 0, end: 100 }, Range { begin: 100, end: 120 }]
    );
    assert_eq!(needed, 0);

    // conservation: 150 deposited, 120 withdrawn, 30 still buffered
    let (ranges, needed) = cache_map::get_range("seq".to_string(), 100, &mut cache);
    assert_eq!(ranges, vec![Range { begin: 120, end: 150 }]);
    assert_eq!(needed, 70);
}

#[test]
fn sequences_are_cached_independently() {
    let mut cache = cache_map::new();
    cache_map::store_range("a".to_string(), Range { begin: 0, end: 10 }, &mut cache);
    cache_map::store_range("b".to_string(), Range { begin: 50, end: 60 }, &mut cache);

    let (ranges, needed) = cache_map::get_range("a".to_string(), 10, &mut cache);
    assert_eq!(ranges, vec![Range { begin: 0, end: 10 }]);
    assert_eq!(needed, 0);

    let (ranges, needed) = cache_map::get_range("b".to_string(), 10, &mut cache);
    assert_eq!(ranges, vec![Range { begin: 50, end: 60 }]);
    assert_eq!(needed, 0);
}

#[test]
fn stop_leaves_the_cache_alone() {
    let mut cache = cache_map::new();
    cache_map::store_range("seq".to_string(), Range { begin: 0, end: 5 }, &mut cache);
    let reply = handle_msg(Msg::Stop, &mut cache);
    assert!(matches!(reply, WorkerReply::Stopped));
    let (ranges, needed) = cache_map::get_range("seq".to_string(), 5, &mut cache);
    assert_eq!(ranges, vec![Range { begin: 0, end: 5 }]);
    assert_eq!(needed, 0);
}

#[test]
fn one_shot_yields_the_payload_exactly_once() {
    let mut slot: OneShot<(Vec<Range>, u64)> = OneShot::new();
    assert!(slot.try_take().is_none());
    slot.signal((vec![Range { begin: 0, end: 3 }], 7));
    let taken = slot.try_take().unwrap();
    assert_eq!(taken.0, vec![Range { begin: 0, end: 3 }]);
    assert_eq!(taken.1, 7);
}
