use id_gen::range::{get_range_size, split_range, Range};

#[test]
fn range_size_is_end_minus_begin() {
    let r = Range { begin: 10, end: 35 };
    assert_eq!(get_range_size(&r), 25);
    let empty = Range { begin: 7, end: 7 };
    assert_eq!(get_range_size(&empty), 0);
}

#[test]
fn split_yields_adjacent_parts_of_the_right_sizes() {
    let r = Range { begin: 0, end: 100 };
    let (left, right) = split_range(r, 60).unwrap();
    assert_eq!(left, Range { begin: 0, end: 60 });
    assert_eq!(right, Range { begin: 60, end: 100 });
    assert_eq!(get_range_size(&left), 60);
    assert_eq!(get_range_size(&right), 40);
    assert_eq!(left.end, right.begin);
}

#[test]
fn split_refuses_offsets_at_or_past_the_size() {
    let r = Range { begin: 5, end: 15 };
    assert!(split_range(r, 10).is_none());
    assert!(split_range(r, 11).is_none());
    assert!(split_range(r, 9).is_some());
}

#[test]
fn split_at_offset_keeps_begin_and_end() {
    let r = Range { begin: 200, end: 260 };
    let (left, right) = split_range(r, 1).unwrap();
    assert_eq!(left, Range { begin: 200, end: 201 });
    assert_eq!(right, Range { begin: 201, end: 260 });
}
