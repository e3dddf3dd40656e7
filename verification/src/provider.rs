//! The orchestration layer: validate a request against the configured
//! maximum, satisfy it from the cache, and on shortfall fetch one fresh block
//! from the coordination store, hand out its first part and buffer the rest.
//!
//! Disjointness is the point of the whole service, and `seq_inv` states it:
//! for each sequence, the identifiers ever handed out and the identifiers
//! still buffered are disjoint and together cover exactly `[0, counter)`, so
//! no identifier is ever handed out twice and none is skipped.

use vstd::prelude::*;

use crate::cache_map::{self, all_wf, lemma_sum_push, lemma_units_elem, lemma_units_push,
    lemma_withdraw_conservation, lemma_withdraw_units, pairwise_disjoint, spec_withdraw,
    sum_sizes, units_of, CacheMap};
use crate::etcd_client::{EtcdClient, EtcdErr};
use crate::operations::GetRangeErr;
use crate::range::{split_range, Range};

verus! {

#[derive(Debug)]
pub enum RangeProviderErr {
    Etcd(EtcdErr),
    Validation(String),
}

/// The identifiers below `c`.
pub open spec fn interval_below(c: u64) -> Set<int> {
    Set::new(|i: int| 0 <= i < c)
}

/// Disjointness across calls: each call of `get_next_range` hands out ranges
/// that avoid everything handed out before it and adds them to the
/// handed-out set, so the outputs of any two calls, however interleaved per
/// sequence, share no identifier.
pub proof fn lemma_returned_disjoint_across_calls(
    first: Seq<Range>,
    second: Seq<Range>,
    returned_before: Set<int>,
    returned_middle: Set<int>,
)
    requires
        units_of(first).disjoint(returned_before),
        returned_middle == returned_before.union(units_of(first)),
        units_of(second).disjoint(returned_middle),
    ensures
        units_of(first).disjoint(units_of(second)),
{
}

/// The orchestration layer over one coordination store and one cache.
pub struct RangeProvider {
    pub etcd_client: EtcdClient,
    pub cache: CacheMap,
    pub etcd_fetch_size: u64,
    pub max_client_range_size: u64,
    /// All identifiers ever handed out, per sequence.
    pub returned: Ghost<Map<Seq<char>, Set<int>>>,
}

impl RangeProvider {
    /// The identifiers already handed out for `name`.
    pub open spec fn returned_of(&self, name: Seq<char>) -> Set<int> {
        if self.returned@.contains_key(name) {
            self.returned@[name]
        } else {
            Set::empty()
        }
    }

    /// One sequence's allocation state is consistent — the disjointness
    /// property: the identifiers ever handed out and the identifiers still
    /// buffered are disjoint, the buffered ranges are pairwise disjoint, and
    /// together the two sides cover exactly `[0, counter)`; a sequence the
    /// store does not know has nothing out and nothing buffered.
    pub open spec fn seq_inv(&self, name: Seq<char>) -> bool {
        let cached = self.cache.ranges_of(name);
        &&& all_wf(cached)
        &&& pairwise_disjoint(cached)
        &&& if self.etcd_client.store@.contains_key(name) {
            self.returned_of(name).disjoint(units_of(cached)) && self.returned_of(name).union(
                units_of(cached),
            ) == interval_below(self.etcd_client.store@[name])
        } else {
            cached == Seq::<Range>::empty() && self.returned_of(name) == Set::<int>::empty()
        }
    }

    /// The provider is well formed: one fetched block can always cover one
    /// client request, and every sequence's allocation state is consistent.
    pub open spec fn wf(&self) -> bool {
        &&& self.max_client_range_size <= self.etcd_fetch_size
        &&& forall|name: Seq<char>| #[trigger] self.seq_inv(name)
    }

    /// Exact coverage: at a point where nothing is buffered for a sequence,
    /// the identifiers handed out for it are exactly `[0, counter)` — no
    /// identifier was skipped and none handed out twice.
    pub proof fn lemma_returned_covers_prefix(&self, name: Seq<char>)
        requires
            self.wf(),
            self.etcd_client.store@.contains_key(name),
            self.cache.ranges_of(name).len() == 0,
        ensures
            self.returned_of(name) == interval_below(self.etcd_client.store@[name]),
    {
        assert(self.seq_inv(name));
        assert(units_of(self.cache.ranges_of(name)) =~= Set::<int>::empty());
        assert(self.returned_of(name) =~= self.returned_of(name).union(
            units_of(self.cache.ranges_of(name)),
        ));
    }

    /// A provider over a fresh store and an empty cache.
    pub fn new(etcd_fetch_size: u64, max_client_range_size: u64) -> (p: Self)
        requires
            max_client_range_size <= etcd_fetch_size,
        ensures
            p.wf(),
            p.etcd_fetch_size == etcd_fetch_size,
            p.max_client_range_size == max_client_range_size,
            p.etcd_client.store@ == Map::<Seq<char>, u64>::empty(),
            forall|name: Seq<char>| #[trigger] p.cache.ranges_of(name) == Seq::<Range>::empty(),
            forall|name: Seq<char>| #[trigger] p.returned_of(name) == Set::<int>::empty(),
    {
        let p = RangeProvider {
            etcd_client: EtcdClient::new(),
            cache: cache_map::new(),
            etcd_fetch_size,
            max_client_range_size,
            returned: Ghost(Map::empty()),
        };
        p
    }

    /// Create `seq_id` in the coordination store with counter 0; an existing
    /// sequence is reported as already existing and nothing changes.
    pub fn create_sequence(&mut self, seq_id: String) -> (r: Result<(), EtcdErr>)
        requires
            old(self).wf(),
        ensures
            final(self).wf(),
            final(self).etcd_fetch_size == old(self).etcd_fetch_size,
            final(self).max_client_range_size == old(self).max_client_range_size,
            forall|n: Seq<char>| #[trigger] final(self).cache.ranges_of(n) == old(self).cache.ranges_of(n),
            forall|n: Seq<char>| #[trigger] final(self).returned_of(n) == old(self).returned_of(n),
            !old(self).etcd_client.store@.contains_key(seq_id@) ==> r is Ok && final(self).etcd_client.store@ == old(self).etcd_client.store@.insert(seq_id@, 0),
            old(self).etcd_client.store@.contains_key(seq_id@) ==> r is Err && final(self).etcd_client.store@ == old(self).etcd_client.store@,
    {
        let ghost old_self = *self;
        let r = self.etcd_client.create_seq(seq_id);
        proof {
            assert forall|n: Seq<char>| #[trigger] self.seq_inv(n) by {
                assert(old_self.seq_inv(n));
                if n == seq_id@ && !old_self.etcd_client.store@.contains_key(seq_id@) {
                    assert(self.returned_of(n).union(units_of(self.cache.ranges_of(n)))
                        =~= interval_below(0));
                }
            }
        }
        r
    }

    /// Serve `range_size` identifiers of `seq_id`: reject an oversized
    /// request before any store access; withdraw what the cache holds; on a
    /// shortfall fetch one block of `etcd_fetch_size` fresh identifiers from
    /// the store, hand out its first `shortfall` units with the cached ones
    /// and buffer the remainder. The ranges handed out are pairwise disjoint,
    /// total exactly `range_size`, and are disjoint from everything any
    /// earlier call handed out.
    pub fn get_next_range(&mut self, seq_id: String, range_size: u64) -> (r: Result<
        Vec<Range>,
        RangeProviderErr,
    >)
        requires
            old(self).wf(),
            old(self).etcd_client.store@.contains_key(seq_id@) ==> old(self).etcd_client.store@[seq_id@] + old(self).etcd_fetch_size <= u64::MAX,
        ensures
            final(self).wf(),
            final(self).etcd_fetch_size == old(self).etcd_fetch_size,
            final(self).max_client_range_size == old(self).max_client_range_size,
            forall|n: Seq<char>|
                n != seq_id@ ==> #[trigger] final(self).cache.ranges_of(n) == old(self).cache.ranges_of(n) && final(self).returned_of(n) == old(self).returned_of(n)
                    && final(self).etcd_client.store@.contains_key(n) == old(self).etcd_client.store@.contains_key(n) && (old(self).etcd_client.store@.contains_key(n) ==> final(self).etcd_client.store@[n] == old(self).etcd_client.store@[n]),
            r is Ok <==> range_size <= old(self).max_client_range_size && (spec_withdraw(
                old(self).cache.ranges_of(seq_id@),
                range_size as int,
            ).2 == 0 || old(self).etcd_client.store@.contains_key(seq_id@)),
            range_size > old(self).max_client_range_size ==> (r matches Err(
                RangeProviderErr::Validation(_),
            )) && final(self).etcd_client.store@ == old(self).etcd_client.store@ && final(self).cache.ranges_of(seq_id@) == old(self).cache.ranges_of(seq_id@) && final(self).returned_of(seq_id@) == old(self).returned_of(seq_id@),
            r matches Err(RangeProviderErr::Etcd(e)) ==> (e matches EtcdErr::NoSuchRangeErr(
                GetRangeErr::NoSuchSeq(n),
            ) && n@ == seq_id@) && final(self).etcd_client.store@ == old(self).etcd_client.store@
                && final(self).cache.ranges_of(seq_id@) == old(self).cache.ranges_of(seq_id@)
                && final(self).returned_of(seq_id@) == old(self).returned_of(seq_id@),
            r matches Ok(ranges) ==> all_wf(ranges@) && pairwise_disjoint(ranges@) && sum_sizes(
                ranges@,
            ) == range_size && units_of(ranges@).disjoint(old(self).returned_of(seq_id@)) && final(self).returned_of(seq_id@) == old(self).returned_of(seq_id@).union(units_of(ranges@)),
            r matches Ok(ranges) ==> ({
                let wd = spec_withdraw(old(self).cache.ranges_of(seq_id@), range_size as int);
                let c0 = old(self).etcd_client.store@[seq_id@];
                let fsz = old(self).etcd_fetch_size;
                &&& wd.2 == 0 ==> ranges@ == wd.1 && final(self).cache.ranges_of(seq_id@) == wd.0
                    && final(self).etcd_client.store@ == old(self).etcd_client.store@
                &&& wd.2 > 0 ==> ranges@ == wd.1.push(
                    Range { begin: c0, end: (c0 + wd.2) as u64 },
                ) && final(self).etcd_client.store@ == old(self).etcd_client.store@.insert(
                    seq_id@,
                    (c0 + fsz) as u64,
                ) && final(self).cache.ranges_of(seq_id@) == (if wd.2 < fsz {
                    seq![Range { begin: (c0 + wd.2) as u64, end: (c0 + fsz) as u64 }]
                } else {
                    Seq::<Range>::empty()
                })
            }),
    {
        let ghost old_self = *self;

        // reject a range request above the configured per-client maximum
        if range_size > self.max_client_range_size {
            return Err(
                RangeProviderErr::Validation(
                    "Client requested too large range".to_string(),
                ),
            );
        }

        let ghost cached0 = self.cache.ranges_of(seq_id@);
        proof {
            assert(old_self.seq_inv(seq_id@));
            lemma_withdraw_conservation(cached0, range_size as int);
            lemma_withdraw_units(cached0, range_size as int);
        }
        let ghost wd = spec_withdraw(cached0, range_size as int);

        // first, try to get the requested range from the cache
        let (mut from_cache, needed) = cache_map::get_range(
            seq_id.clone(),
            range_size,
            &mut self.cache,
        );
        if needed == 0 {
            proof {
                self.returned@ = old_self.returned@.insert(
                    seq_id@,
                    old_self.returned_of(seq_id@).union(units_of(wd.1)),
                );
            }
            proof {
                assert forall|n: Seq<char>| #[trigger] self.seq_inv(n) by {
                    assert(old_self.seq_inv(n));
                    if n == seq_id@ {
                        if old_self.etcd_client.store@.contains_key(n) {
                            assert(self.returned_of(n).union(units_of(self.cache.ranges_of(n)))
                                =~= old_self.returned_of(n).union(units_of(cached0)));
                        } else {
                            assert(units_of(cached0) =~= Set::<int>::empty());
                            assert(wd.1 =~= Seq::<Range>::empty());
                            assert(self.returned_of(n) =~= Set::<int>::empty());
                            assert(self.cache.ranges_of(n) =~= Seq::<Range>::empty());
                        }
                    }
                }
                assert(units_of(wd.1).disjoint(old_self.returned_of(seq_id@)));
                assert(self.returned_of(seq_id@) =~= old_self.returned_of(seq_id@).union(
                    units_of(wd.1),
                ));
            }
            return Ok(from_cache);
        }

        // there wasn't enough buffered: fetch a fresh block from the store
        let fetched = match self.etcd_client.next_range(seq_id.clone(), self.etcd_fetch_size) {
            Ok(rng) => rng,
            Err(e) => {
                proof {
                    // a shortfall with the sequence unknown to the store:
                    // the cache held nothing, so nothing was withdrawn and
                    // nothing is lost
                    assert(cached0 =~= Seq::<Range>::empty());
                    assert(wd.0 =~= cached0);
                    assert(self.cache.ranges_of(seq_id@) =~= cached0);
                    assert forall|n: Seq<char>| #[trigger] self.seq_inv(n) by {
                        assert(old_self.seq_inv(n));
                    }
                }
                return Err(RangeProviderErr::Etcd(e));
            },
        };
        let ghost c0 = old_self.etcd_client.store@[seq_id@];

        proof {
            // everything handed out or buffered so far sits below the old
            // counter, and the fresh block sits entirely above it
            assert(wd.2 > 0 && wd.0.len() == 0);
            assert(units_of(wd.0) =~= Set::<int>::empty());
            assert(units_of(wd.1) =~= units_of(wd.1).union(units_of(wd.0)));
            assert(units_of(wd.1) == units_of(cached0));
        }

        proof {
            // everything below the old counter is either out or buffered,
            // so what was withdrawn sits below it
            assert(units_of(wd.1).subset_of(interval_below(c0)));
            assert(old_self.returned_of(seq_id@).subset_of(interval_below(c0)));
            assert forall|i: int| 0 <= i < wd.1.len() implies wd.1[i].units().subset_of(
                interval_below(c0),
            ) by {
                lemma_units_elem(wd.1, i);
            }
        }

        // split the block: `needed` more units complete the request, the
        // rest is deposited; a block of exactly `needed` units goes out whole
        let ghost pre_push = from_cache@;
        let handed: Range;
        match split_range(fetched, needed) {
            Some((left, rest)) => {
                cache_map::store_range(seq_id, rest, &mut self.cache);
                handed = left;
                proof {
                    lemma_units_push(wd.0, rest);
                }
            },
            None => {
                // the whole block is exactly the shortfall
                handed = fetched;
            },
        }
        from_cache.push(handed);
        proof {
            lemma_units_push(pre_push, handed);
            lemma_sum_push(pre_push, handed);
            self.returned@ = old_self.returned@.insert(
                seq_id@,
                old_self.returned_of(seq_id@).union(units_of(from_cache@)),
            );
        }
        proof {
            assert(pre_push == wd.1);
            assert(handed.begin == c0 && handed.end == c0 + needed);
            // the handed-out ranges are pairwise disjoint: the cached ones
            // were, and the fresh part sits above all of them
            assert forall|i: int, j: int| 0 <= i < j < from_cache@.len() implies from_cache@[i]
                .units().disjoint(from_cache@[j].units()) by {
                if j < wd.1.len() {
                    assert(wd.1[i].units().disjoint(wd.1[j].units()));
                } else {
                    lemma_units_elem(wd.1, i);
                }
            }
            assert(units_of(from_cache@).disjoint(old_self.returned_of(seq_id@)));
            assert(self.returned_of(seq_id@) =~= old_self.returned_of(seq_id@).union(
                units_of(from_cache@),
            ));
            assert(all_wf(from_cache@));
            let fin_cached = self.cache.ranges_of(seq_id@);
            let fsz = old_self.etcd_fetch_size;
            assert(self.etcd_client.store@[seq_id@] == c0 + fsz);
            assert(units_of(fin_cached) =~= Set::new(|i: int| c0 + needed <= i < c0 + fsz));
            assert(units_of(from_cache@) =~= units_of(wd.1).union(handed.units()));
            assert(old_self.returned_of(seq_id@).union(units_of(cached0)) == interval_below(
                c0 as u64,
            ));
            let hw = self.etcd_client.store@[seq_id@];
            assert(hw == c0 + fsz);
            assert forall|x: int|
                self.returned_of(seq_id@).union(units_of(fin_cached)).contains(x)
                    == #[trigger] interval_below(hw).contains(x) by {
                assert(self.returned_of(seq_id@).contains(x) == (old_self.returned_of(
                    seq_id@,
                ).contains(x) || units_of(from_cache@).contains(x)));
                assert(units_of(from_cache@).contains(x) == (units_of(wd.1).contains(x)
                    || handed.units().contains(x)));
                assert(units_of(wd.1).contains(x) == units_of(cached0).contains(x));
                assert((old_self.returned_of(seq_id@).contains(x) || units_of(cached0).contains(x))
                    == interval_below(c0 as u64).contains(x));
                assert(handed.units().contains(x) == (c0 <= x < c0 + needed));
                assert(units_of(fin_cached).contains(x) == (c0 + needed <= x < c0 + fsz));
                assert(interval_below(hw).contains(x) == (0 <= x < c0 + fsz));
                assert(needed <= fsz);
            }
            assert(self.returned_of(seq_id@).union(units_of(fin_cached)) =~= interval_below(hw));
            assert(self.returned_of(seq_id@).disjoint(units_of(fin_cached)));
            assert forall|n: Seq<char>| #[trigger] self.seq_inv(n) by {
                assert(old_self.seq_inv(n));
                if n == seq_id@ {
                    assert(all_wf(self.cache.ranges_of(n)));
                    assert(pairwise_disjoint(self.cache.ranges_of(n)));
                    assert(self.returned_of(n).disjoint(units_of(self.cache.ranges_of(n))));
                    assert(self.returned_of(n).union(units_of(self.cache.ranges_of(n)))
                        == interval_below(self.etcd_client.store@[n]));
                }
            }
        }
        Ok(from_cache)
    }
}

} // verus!
