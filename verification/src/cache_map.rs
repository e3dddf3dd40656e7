//! The range cache: per sequence name, an ordered collection of disjoint,
//! unused ranges previously withdrawn from the coordination store.
//!
//! `get_range` withdraws ranges front-first until their summed size reaches
//! the request or the collection is exhausted; a range larger than what is
//! still needed is split, the remainder going back to the front. `store_range`
//! deposits a leftover range at the back and never evicts anything.

use vstd::prelude::*;

use crate::range::{get_range_size, spec_split, split_range, Range};
use crate::strmap::StrMap;

verus! {

/// Every range in the sequence is well formed.
pub open spec fn all_wf(rs: Seq<Range>) -> bool {
    forall|i: int| 0 <= i < rs.len() ==> rs[i].wf()
}

/// The summed size of the ranges.
pub open spec fn sum_sizes(rs: Seq<Range>) -> int
    decreases rs.len(),
{
    if rs.len() == 0 {
        0
    } else {
        rs[0].size() + sum_sizes(rs.drop_first())
    }
}

/// The set of identifiers the ranges carry together.
pub open spec fn units_of(rs: Seq<Range>) -> Set<int>
    decreases rs.len(),
{
    if rs.len() == 0 {
        Set::empty()
    } else {
        rs[0].units().union(units_of(rs.drop_first()))
    }
}

/// No identifier occurs in two of the ranges.
pub open spec fn pairwise_disjoint(rs: Seq<Range>) -> bool {
    forall|i: int, j: int| 0 <= i < j < rs.len() ==> rs[i].units().disjoint(rs[j].units())
}

/// What one withdrawal does to one sequence's collection: the remaining
/// collection, the ranges handed out in order, and the unmet shortfall.
pub open spec fn spec_withdraw(entry: Seq<Range>, needed: int) -> (Seq<Range>, Seq<Range>, int)
    decreases entry.len(),
{
    if needed <= 0 {
        (entry, Seq::empty(), 0)
    } else if entry.len() == 0 {
        (entry, Seq::empty(), needed)
    } else {
        let r = entry[0];
        if r.size() == needed {
            (entry.drop_first(), seq![r], 0)
        } else if r.size() > needed {
            let lr = spec_split(r, needed as u64);
            (seq![lr.1] + entry.drop_first(), seq![lr.0], 0)
        } else {
            let rec = spec_withdraw(entry.drop_first(), needed - r.size());
            (rec.0, seq![r] + rec.1, rec.2)
        }
    }
}

proof fn lemma_sum_singleton(x: Range)
    ensures
        sum_sizes(seq![x]) == x.size(),
{
    assert(seq![x].drop_first() =~= Seq::<Range>::empty());
    assert(sum_sizes(seq![x].drop_first()) == 0);
}

proof fn lemma_sum_cons(x: Range, s: Seq<Range>)
    ensures
        sum_sizes(seq![x] + s) == x.size() + sum_sizes(s),
{
    assert((seq![x] + s).drop_first() =~= s);
    assert((seq![x] + s)[0] == x);
}

/// Appending a range adds exactly its size.
pub proof fn lemma_sum_push(s: Seq<Range>, x: Range)
    ensures
        sum_sizes(s.push(x)) == sum_sizes(s) + x.size(),
    decreases s.len(),
{
    if s.len() == 0 {
        assert(s.push(x).drop_first() =~= Seq::<Range>::empty());
        assert(s.push(x)[0] == x);
        assert(sum_sizes(s.push(x).drop_first()) == 0);
    } else {
        assert(s.push(x).drop_first() =~= s.drop_first().push(x));
        lemma_sum_push(s.drop_first(), x);
    }
}

/// Conservation through one withdrawal: the sizes handed out plus the sizes
/// still buffered equal the sizes buffered before; the sizes handed out are
/// exactly the request minus the reported shortfall; and a shortfall is
/// reported only with the collection exhausted.
pub proof fn lemma_withdraw_conservation(entry: Seq<Range>, needed: int)
    requires
        all_wf(entry),
        0 <= needed,
    ensures
        sum_sizes(spec_withdraw(entry, needed).1) + sum_sizes(spec_withdraw(entry, needed).0)
            == sum_sizes(entry),
        sum_sizes(spec_withdraw(entry, needed).1) == needed - spec_withdraw(entry, needed).2,
        0 <= spec_withdraw(entry, needed).2 <= needed,
        spec_withdraw(entry, needed).2 > 0 ==> spec_withdraw(entry, needed).0.len() == 0,
        all_wf(spec_withdraw(entry, needed).0),
        all_wf(spec_withdraw(entry, needed).1),
    decreases entry.len(),
{
    if needed <= 0 {
    } else if entry.len() == 0 {
    } else {
        let r = entry[0];
        assert(r.wf());
        if r.size() == needed {
            lemma_sum_singleton(r);
            assert(all_wf(entry.drop_first()));
            assert(all_wf(seq![r]));
        } else if r.size() > needed {
            let lr = spec_split(r, needed as u64);
            lemma_sum_cons(lr.1, entry.drop_first());
            lemma_sum_singleton(lr.0);
            assert(all_wf(seq![lr.1] + entry.drop_first()));
            assert(all_wf(seq![lr.0]));
        } else {
            assert(all_wf(entry.drop_first()));
            lemma_withdraw_conservation(entry.drop_first(), needed - r.size());
            let rec = spec_withdraw(entry.drop_first(), needed - r.size());
            lemma_sum_cons(r, rec.1);
            assert(all_wf(seq![r] + rec.1));
        }
    }
}

pub proof fn lemma_units_elem(rs: Seq<Range>, i: int)
    requires
        0 <= i < rs.len(),
    ensures
        rs[i].units().subset_of(units_of(rs)),
    decreases i,
{
    if i > 0 {
        lemma_units_elem(rs.drop_first(), i - 1);
    }
}

proof fn lemma_units_cons(x: Range, s: Seq<Range>)
    ensures
        units_of(seq![x] + s) == x.units().union(units_of(s)),
{
    assert((seq![x] + s).drop_first() =~= s);
    assert((seq![x] + s)[0] == x);
}

/// Appending a range adds exactly its identifiers.
pub proof fn lemma_units_push(s: Seq<Range>, x: Range)
    ensures
        units_of(s.push(x)) == units_of(s).union(x.units()),
    decreases s.len(),
{
    if s.len() == 0 {
        assert(s.push(x).drop_first() =~= Seq::<Range>::empty());
        assert(units_of(s.push(x).drop_first()) =~= Set::<int>::empty());
        assert(units_of(s.push(x)) =~= units_of(s).union(x.units()));
    } else {
        assert(s.push(x).drop_first() =~= s.drop_first().push(x));
        lemma_units_push(s.drop_first(), x);
        assert(units_of(s.push(x)) =~= units_of(s).union(x.units()));
    }
}

proof fn lemma_units_singleton(x: Range)
    ensures
        units_of(seq![x]) == x.units(),
{
    assert(seq![x].drop_first() =~= Seq::<Range>::empty());
    assert(units_of(seq![x].drop_first()) =~= Set::<int>::empty());
    assert(units_of(seq![x]) =~= x.units());
}

proof fn lemma_disjoint_from_all(x: Range, rs: Seq<Range>)
    requires
        forall|i: int| 0 <= i < rs.len() ==> x.units().disjoint(#[trigger] rs[i].units()),
    ensures
        x.units().disjoint(units_of(rs)),
    decreases rs.len(),
{
    if rs.len() > 0 {
        lemma_disjoint_from_all(x, rs.drop_first());
    }
}

/// Every identifier a withdrawal hands out existed in the collection before,
/// none stays buffered as well, and none is handed out twice: the ranges
/// handed out and the ranges still buffered partition the identifiers that
/// were buffered, and each side stays pairwise disjoint.
pub proof fn lemma_withdraw_units(entry: Seq<Range>, needed: int)
    requires
        all_wf(entry),
        pairwise_disjoint(entry),
    ensures
        units_of(spec_withdraw(entry, needed).1).disjoint(
            units_of(spec_withdraw(entry, needed).0),
        ),
        units_of(spec_withdraw(entry, needed).1).union(units_of(spec_withdraw(entry, needed).0))
            == units_of(entry),
        pairwise_disjoint(spec_withdraw(entry, needed).1),
        pairwise_disjoint(spec_withdraw(entry, needed).0),
    decreases entry.len(),
{
    if needed <= 0 || entry.len() == 0 {
        let taken = spec_withdraw(entry, needed).1;
        assert(units_of(taken) =~= Set::<int>::empty());
        assert(units_of(taken).union(units_of(entry)) =~= units_of(entry));
    } else {
        let r = entry[0];
        assert(r.wf());
        assert(forall|i: int| 0 <= i < entry.drop_first().len() ==> r.units().disjoint(
            #[trigger] entry.drop_first()[i].units(),
        ));
        lemma_disjoint_from_all(r, entry.drop_first());
        assert(pairwise_disjoint(entry.drop_first()));
        if r.size() == needed {
            lemma_units_singleton(r);
            assert(units_of(seq![r]).union(units_of(entry.drop_first())) =~= units_of(entry));
            assert(pairwise_disjoint(seq![r]));
        } else if r.size() > needed {
            let lr = spec_split(r, needed as u64);
            crate::range::lemma_split_correctness(r, needed as u64);
            lemma_units_cons(lr.1, entry.drop_first());
            lemma_units_singleton(lr.0);
            assert(units_of(seq![lr.0]).disjoint(units_of(seq![lr.1] + entry.drop_first())));
            assert(units_of(seq![lr.0]).union(units_of(seq![lr.1] + entry.drop_first()))
                =~= units_of(entry));
            assert(pairwise_disjoint(seq![lr.0]));
            let rem = seq![lr.1] + entry.drop_first();
            assert forall|i: int, j: int| 0 <= i < j < rem.len() implies rem[i].units().disjoint(
                rem[j].units(),
            ) by {
                if i == 0 {
                    assert(rem[j] == entry.drop_first()[j - 1]);
                    lemma_units_elem(entry.drop_first(), j - 1);
                } else {
                    assert(rem[i] == entry.drop_first()[i - 1]);
                    assert(rem[j] == entry.drop_first()[j - 1]);
                }
            }
        } else {
            lemma_withdraw_units(entry.drop_first(), needed - r.size());
            let rec = spec_withdraw(entry.drop_first(), needed - r.size());
            lemma_units_cons(r, rec.1);
            let taken = seq![r] + rec.1;
            assert(units_of(rec.0).subset_of(units_of(entry.drop_first())));
            assert(units_of(rec.1).subset_of(units_of(entry.drop_first())));
            assert(units_of(taken).disjoint(units_of(rec.0)));
            assert(units_of(taken).union(units_of(rec.0)) =~= units_of(entry));
            assert forall|i: int, j: int| 0 <= i < j < taken.len() implies taken[i].units()
                .disjoint(taken[j].units()) by {
                if i == 0 {
                    assert(taken[j] == rec.1[j - 1]);
                    lemma_units_elem(rec.1, j - 1);
                } else {
                    assert(taken[i] == rec.1[i - 1]);
                    assert(taken[j] == rec.1[j - 1]);
                }
            }
        }
    }
}

/// One operation on one sequence's collection.
pub enum CacheEvent {
    Deposit(Range),
    Withdraw(u64),
}

/// Every deposited range is well formed.
pub open spec fn events_wf(events: Seq<CacheEvent>) -> bool {
    forall|i: int| 0 <= i < events.len() ==> (#[trigger] events[i] matches CacheEvent::Deposit(r)
        ==> r.wf())
}

/// The collection after replaying the events in order.
pub open spec fn replay(entry: Seq<Range>, events: Seq<CacheEvent>) -> Seq<Range>
    decreases events.len(),
{
    if events.len() == 0 {
        entry
    } else {
        let next = match events[0] {
            CacheEvent::Deposit(r) => entry.push(r),
            CacheEvent::Withdraw(n) => spec_withdraw(entry, n as int).0,
        };
        replay(next, events.drop_first())
    }
}

/// The summed size of all deposits among the events.
pub open spec fn total_deposited(events: Seq<CacheEvent>) -> int
    decreases events.len(),
{
    if events.len() == 0 {
        0
    } else {
        (match events[0] {
            CacheEvent::Deposit(r) => r.size(),
            CacheEvent::Withdraw(_) => 0,
        }) + total_deposited(events.drop_first())
    }
}

/// The summed size of all ranges the withdrawals hand out, replaying the
/// events from `entry`.
pub open spec fn total_withdrawn(entry: Seq<Range>, events: Seq<CacheEvent>) -> int
    decreases events.len(),
{
    if events.len() == 0 {
        0
    } else {
        match events[0] {
            CacheEvent::Deposit(r) => total_withdrawn(entry.push(r), events.drop_first()),
            CacheEvent::Withdraw(n) => (n - spec_withdraw(entry, n as int).2) + total_withdrawn(
                spec_withdraw(entry, n as int).0,
                events.drop_first(),
            ),
        }
    }
}

/// Cache conservation: at any quiescent point — that is, after any series of
/// deposits and withdrawals on a sequence's collection — the sizes deposited
/// equal the sizes withdrawn plus the sizes still buffered, beyond whatever
/// was buffered at the start.
pub proof fn lemma_cache_conservation(entry: Seq<Range>, events: Seq<CacheEvent>)
    requires
        all_wf(entry),
        events_wf(events),
    ensures
        sum_sizes(entry) + total_deposited(events) == total_withdrawn(entry, events) + sum_sizes(
            replay(entry, events),
        ),
    decreases events.len(),
{
    if events.len() > 0 {
        assert(events_wf(events.drop_first()));
        match events[0] {
            CacheEvent::Deposit(r) => {
                assert(events[0] matches CacheEvent::Deposit(q) ==> q.wf());
                lemma_sum_push(entry, r);
                assert(all_wf(entry.push(r)));
                lemma_cache_conservation(entry.push(r), events.drop_first());
            },
            CacheEvent::Withdraw(n) => {
                lemma_withdraw_conservation(entry, n as int);
                lemma_cache_conservation(spec_withdraw(entry, n as int).0, events.drop_first());
            },
        }
    }
}

/// The range cache.
pub struct CacheMap {
    inner: StrMap<Vec<Range>>,
}

impl CacheMap {
    #[verifier::type_invariant]
    spec fn inv(self) -> bool {
        forall|n: Seq<char>| self.inner@.contains_key(n) ==> all_wf(#[trigger] self.inner@[n]@)
    }

    /// The collection buffered for `name`; empty when the name was never
    /// deposited to.
    pub closed spec fn ranges_of(&self, name: Seq<char>) -> Seq<Range> {
        if self.inner@.contains_key(name) {
            self.inner@[name]@
        } else {
            Seq::empty()
        }
    }
}

/// An empty cache.
pub fn new() -> (m: CacheMap)
    ensures
        forall|n: Seq<char>| #[trigger] m.ranges_of(n) == Seq::<Range>::empty(),
{
    CacheMap { inner: StrMap::new() }
}

/// Deposit `range` at the back of `seq_name`'s collection; nothing is evicted
/// and no other sequence is touched.
pub fn store_range(seq_name: String, range: Range, map: &mut CacheMap)
    requires
        range.wf(),
    ensures
        final(map).ranges_of(seq_name@) == old(map).ranges_of(seq_name@).push(range),
        forall|n: Seq<char>| n != seq_name@ ==> #[trigger] final(map).ranges_of(n) == old(
            map,
        ).ranges_of(n),
{
    proof {
        use_type_invariant(&*map);
    }
    let ghost old_map = *map;
    let mut inner = StrMap::new();
    core::mem::swap(&mut inner, &mut map.inner);
    let mut ranges = match inner.take(&seq_name) {
        Some(rs) => rs,
        None => Vec::new(),
    };
    ranges.push(range);
    inner.set(seq_name, ranges);
    proof {
        assert(forall|n: Seq<char>| inner@.contains_key(n) ==> all_wf(#[trigger] inner@[n]@));
    }
    map.inner = inner;
}

/// Withdraw up to `range_size` units from `seq_name`'s collection, front
/// first, splitting the last range taken when it is larger than what is still
/// needed; the second component reports the unmet shortfall.
pub fn get_range(seq_name: String, range_size: u64, map: &mut CacheMap) -> (r: (Vec<Range>, u64))
    ensures
        r.0@ == spec_withdraw(old(map).ranges_of(seq_name@), range_size as int).1,
        r.1 == spec_withdraw(old(map).ranges_of(seq_name@), range_size as int).2,
        final(map).ranges_of(seq_name@) == spec_withdraw(
            old(map).ranges_of(seq_name@),
            range_size as int,
        ).0,
        forall|n: Seq<char>| n != seq_name@ ==> #[trigger] final(map).ranges_of(n) == old(
            map,
        ).ranges_of(n),
{
    proof {
        use_type_invariant(&*map);
    }
    let ghost old_map = *map;
    let mut inner = StrMap::new();
    core::mem::swap(&mut inner, &mut map.inner);
    let mut ranges = match inner.take(&seq_name) {
        Some(rs) => rs,
        None => {
            proof {
                assert(spec_withdraw(Seq::<Range>::empty(), range_size as int).1
                    =~= Seq::<Range>::empty());
            }
            map.inner = inner;
            return (Vec::new(), range_size);
        },
    };
    let ghost orig = ranges@;
    let mut result: Vec<Range> = Vec::new();
    let mut needed: u64 = range_size;

    while needed > 0 && ranges.len() > 0
        invariant
            all_wf(ranges@),
            spec_withdraw(orig, range_size as int).0 == spec_withdraw(ranges@, needed as int).0,
            spec_withdraw(orig, range_size as int).1 == result@ + spec_withdraw(
                ranges@,
                needed as int,
            ).1,
            spec_withdraw(orig, range_size as int).2 == spec_withdraw(ranges@, needed as int).2,
        decreases ranges@.len(), needed,
    {
        let ghost pre_ranges = ranges@;
        let ghost pre_needed = needed as int;
        let ghost pre_result = result@;
        let next_range = ranges.remove(0);
        proof {
            assert(ranges@ =~= pre_ranges.drop_first());
        }
        let rsize = get_range_size(&next_range);
        if rsize == needed {
            result.push(next_range);
            needed = 0;
            proof {
                assert(spec_withdraw(pre_ranges, pre_needed).1 =~= seq![next_range]);
                assert(result@ =~= pre_result + seq![next_range]);
                assert(result@ + spec_withdraw(ranges@, 0).1 =~= result@);
            }
        } else if rsize > needed {
            let lr = split_range(next_range, needed).unwrap();
            result.push(lr.0);
            ranges.insert(0, lr.1);
            needed = 0;
            proof {
                assert(ranges@ =~= seq![lr.1] + pre_ranges.drop_first());
                assert(spec_withdraw(pre_ranges, pre_needed).1 =~= seq![lr.0]);
                assert(result@ =~= pre_result + seq![lr.0]);
                assert(result@ + spec_withdraw(ranges@, 0).1 =~= result@);
                assert(all_wf(ranges@));
            }
        } else {
            result.push(next_range);
            needed = needed - rsize;
            proof {
                let rec = spec_withdraw(pre_ranges.drop_first(), pre_needed - next_range.size());
                assert(spec_withdraw(pre_ranges, pre_needed).1 =~= seq![next_range] + rec.1);
                assert(pre_result + (seq![next_range] + rec.1) =~= (pre_result + seq![next_range])
                    + rec.1);
                assert(result@ =~= pre_result + seq![next_range]);
            }
        }
    }
    proof {
        assert(spec_withdraw(ranges@, needed as int).1 =~= Seq::<Range>::empty());
        assert(result@ + Seq::<Range>::empty() =~= result@);
    }
    inner.set(seq_name, ranges);
    proof {
        assert(forall|n: Seq<char>| inner@.contains_key(n) ==> all_wf(#[trigger] inner@[n]@));
    }
    map.inner = inner;
    (result, needed)
}

} // verus!
