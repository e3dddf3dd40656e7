//! The coordination-store client: the store's compare-and-swap semantics as
//! an in-memory model, the optimistic retry loop that advances a sequence's
//! counter, and the per-outcome decision that the loop takes when it runs
//! against a remote store.

use vstd::prelude::*;

use crate::operations::{CreateSeqTxErr, EnlargeTxErr, GetRangeErr};
use crate::range::Range;
use crate::strmap::StrMap;

verus! {

/// How many times an optimistic transaction is attempted before the
/// contention is surfaced as an error.
pub const OPTIMISTIC_RETRY_BOUND: u64 = 5;

/// The outcome of one compare-and-swap on a sequence's counter.
#[derive(Clone, Copy, Debug, PartialEq, Eq, Structural)]
pub enum CasOutcome {
    /// The stored counter matched the expected value and was advanced.
    Committed,
    /// The stored counter had moved; nothing was changed.
    Stale { actual: u64 },
    /// No such sequence; nothing was changed.
    Missing,
}

/// The outcome of one create-if-absent.
#[derive(Clone, Copy, Debug, PartialEq, Eq, Structural)]
pub enum CreateOutcome {
    /// The sequence was absent; its counter now exists and is 0.
    Created,
    /// The sequence already existed; nothing was changed.
    AlreadyExists { current: u64 },
}

/// What a compare-and-swap does to the store.
pub open spec fn spec_cas(
    m: Map<Seq<char>, u64>,
    seq: Seq<char>,
    expected_old: u64,
    new: u64,
) -> (CasOutcome, Map<Seq<char>, u64>) {
    if !m.contains_key(seq) {
        (CasOutcome::Missing, m)
    } else if m[seq] == expected_old {
        (CasOutcome::Committed, m.insert(seq, new))
    } else {
        (CasOutcome::Stale { actual: m[seq] }, m)
    }
}

/// What a create-if-absent does to the store.
pub open spec fn spec_create(m: Map<Seq<char>, u64>, seq: Seq<char>) -> (
    CreateOutcome,
    Map<Seq<char>, u64>,
) {
    if !m.contains_key(seq) {
        (CreateOutcome::Created, m.insert(seq, 0))
    } else {
        (CreateOutcome::AlreadyExists { current: m[seq] }, m)
    }
}

/// An in-memory model of the coordination store: one durable counter per
/// sequence name, advanced only by compare-and-swap.
pub struct StoreModel {
    inner: StrMap<u64>,
}

impl View for StoreModel {
    type V = Map<Seq<char>, u64>;

    closed spec fn view(&self) -> Map<Seq<char>, u64> {
        self.inner@
    }
}

impl StoreModel {
    /// A store with no sequences.
    pub fn new() -> (m: Self)
        ensures
            m@ == Map::<Seq<char>, u64>::empty(),
    {
        StoreModel { inner: StrMap::new() }
    }

    /// The current high-water mark of `seq_name`, if the sequence exists.
    pub fn read_counter(&self, seq_name: &String) -> (r: Option<u64>)
        ensures
            r matches Some(v) ==> self@.contains_key(seq_name@) && v == self@[seq_name@],
            r is None ==> !self@.contains_key(seq_name@),
    {
        match self.inner.get(seq_name) {
            Some(v) => Some(*v),
            None => None,
        }
    }

    /// One atomic compare-and-swap on `seq_name`'s counter: if the stored
    /// value equals `expected_old`, set it to `new`; otherwise report the
    /// actual value and mutate nothing.
    pub fn enlarge(&mut self, seq_name: &String, expected_old: u64, new: u64) -> (r: CasOutcome)
        ensures
            r == spec_cas(old(self)@, seq_name@, expected_old, new).0,
            final(self)@ == spec_cas(old(self)@, seq_name@, expected_old, new).1,
    {
        let current = match self.inner.get(seq_name) {
            Some(v) => *v,
            None => {
                return CasOutcome::Missing;
            },
        };
        if current == expected_old {
            self.inner.set(seq_name.clone(), new);
            CasOutcome::Committed
        } else {
            CasOutcome::Stale { actual: current }
        }
    }

    /// One atomic create-if-absent: if `seq_name` is absent, set its counter
    /// to 0; otherwise report the current value and mutate nothing.
    pub fn create(&mut self, seq_name: &String) -> (r: CreateOutcome)
        ensures
            r == spec_create(old(self)@, seq_name@).0,
            final(self)@ == spec_create(old(self)@, seq_name@).1,
    {
        let current = match self.inner.get(seq_name) {
            Some(v) => Some(*v),
            None => None,
        };
        match current {
            Option::None => {
                self.inner.set(seq_name.clone(), 0);
                CreateOutcome::Created
            },
            Option::Some(v) => CreateOutcome::AlreadyExists { current: v },
        }
    }
}

#[derive(Debug)]
pub enum EtcdErr {
    OptimisticTxFailed,
    EnlargeTxErr(EnlargeTxErr),
    CreateSeqTxErr(CreateSeqTxErr),
    NoSuchRangeErr(GetRangeErr),
}

/// The coordination-store client: owns the store state it talks to and the
/// optimistic-retry policy.
pub struct EtcdClient {
    pub store: StoreModel,
}

impl EtcdClient {
    /// A client over a store with no sequences.
    pub fn new() -> (c: Self)
        ensures
            c.store@ == Map::<Seq<char>, u64>::empty(),
    {
        EtcdClient { store: StoreModel::new() }
    }

    /// Allocate the next `range_size` identifiers of `seq_name`: read the
    /// counter, then advance it by compare-and-swap, retrying on staleness
    /// at most `OPTIMISTIC_RETRY_BOUND` times. The allocated range begins at
    /// the counter value the winning swap observed; an unknown sequence is
    /// reported without any change.
    pub fn next_range(&mut self, seq_name: String, range_size: u64) -> (r: Result<Range, EtcdErr>)
        requires
            old(self).store@.contains_key(seq_name@) ==> old(self).store@[seq_name@] + range_size
                <= u64::MAX,
        ensures
            ({
                let m0 = old(self).store@;
                &&& !m0.contains_key(seq_name@) ==> (r matches Err(EtcdErr::NoSuchRangeErr(
                    GetRangeErr::NoSuchSeq(n),
                )) && n@ == seq_name@) && final(self).store@ == m0
                &&& m0.contains_key(seq_name@) ==> (r matches Ok(rng) && rng.begin == m0[seq_name@]
                    && rng.end == m0[seq_name@] + range_size && final(self).store@ == m0.insert(
                    seq_name@,
                    rng.end,
                ))
            }),
    {
        let mut old_value = match self.store.read_counter(&seq_name) {
            Some(v) => v,
            None => {
                return Err(EtcdErr::NoSuchRangeErr(GetRangeErr::NoSuchSeq(seq_name)));
            },
        };
        let mut attempt: u64 = 0;

        // Against the in-memory model no other writer can intervene between
        // the read and the swap, so the first attempt always commits; the
        // loop still carries the bounded-retry policy that a remote store
        // needs.
        while attempt < OPTIMISTIC_RETRY_BOUND
            invariant
                attempt == 0,
                self.store@ == old(self).store@,
                self.store@.contains_key(seq_name@),
                old_value == self.store@[seq_name@],
                old_value + range_size <= u64::MAX,
            decreases OPTIMISTIC_RETRY_BOUND - attempt,
        {
            let new_value = old_value + range_size;

            match self.store.enlarge(&seq_name, old_value, new_value) {
                CasOutcome::Committed => {
                    return Ok(Range { begin: old_value, end: new_value });
                },
                CasOutcome::Stale { actual } => {
                    old_value = actual;
                    attempt = attempt + 1;
                },
                CasOutcome::Missing => {
                    return Err(
                        EtcdErr::NoSuchRangeErr(GetRangeErr::NoSuchSeq(seq_name.clone())),
                    );
                },
            }
        }
        Err(EtcdErr::OptimisticTxFailed)
    }

    /// Create `seq_name` with counter 0; an existing sequence is reported as
    /// already existing, with its current counter, and nothing is changed.
    pub fn create_seq(&mut self, seq_name: String) -> (r: Result<(), EtcdErr>)
        ensures
            ({
                let m0 = old(self).store@;
                &&& !m0.contains_key(seq_name@) ==> r is Ok && final(self).store@ == m0.insert(
                    seq_name@,
                    0,
                )
                &&& m0.contains_key(seq_name@) ==> (r matches Err(EtcdErr::CreateSeqTxErr(
                    CreateSeqTxErr::SeqAlreadyExists { seq_value },
                )) && seq_value == m0[seq_name@]) && final(self).store@ == m0
            }),
    {
        match self.store.create(&seq_name) {
            CreateOutcome::Created => Ok(()),
            CreateOutcome::AlreadyExists { current } => Err(
                EtcdErr::CreateSeqTxErr(CreateSeqTxErr::SeqAlreadyExists { seq_value: current }),
            ),
        }
    }
}

/// What the optimistic loop decides after one enlarge transaction.
#[derive(Debug)]
pub enum CasStep {
    /// The swap committed: this range was allocated.
    Done(Range),
    /// The counter was stale: read again from the value the store reported.
    Retry { next_old: u64 },
    /// Give up and surface the error.
    Fail(EtcdErr),
}

/// One round of the optimistic retry policy, applied to the outcome of an
/// enlarge transaction that tried to advance the counter from `old_value`
/// by `range_size`.
pub fn cas_step(
    old_value: u64,
    range_size: u64,
    tx_result: Result<(), EnlargeTxErr>,
    attempts_left: u64,
) -> (r: CasStep)
    requires
        old_value + range_size <= u64::MAX,
    ensures
        tx_result is Ok ==> (r matches CasStep::Done(rng) && rng.begin == old_value && rng.end
            == old_value + range_size),
        tx_result matches Err(EnlargeTxErr::StaleSequenceNum { new_num }) ==> ({
            &&& attempts_left > 0 ==> (r matches CasStep::Retry { next_old } && next_old
                == new_num)
            &&& attempts_left == 0 ==> (r matches CasStep::Fail(e) && e is OptimisticTxFailed)
        }),
        tx_result matches Err(EnlargeTxErr::EtcdInteropError(_)) ==> (r matches CasStep::Fail(e)
            && e is EnlargeTxErr),
{
    match tx_result {
        Ok(_) => CasStep::Done(Range { begin: old_value, end: old_value + range_size }),
        Err(EnlargeTxErr::StaleSequenceNum { new_num }) => {
            if attempts_left > 0 {
                CasStep::Retry { next_old: new_num }
            } else {
                CasStep::Fail(EtcdErr::OptimisticTxFailed)
            }
        },
        Err(other) => CasStep::Fail(EtcdErr::EnlargeTxErr(other)),
    }
}

/// Compare-and-swap idempotence under contention: two allocators racing on
/// one sequence both observed the same counter. In whichever order their
/// swaps reach the store, the first commits; the second changes nothing and
/// is told the winner's new value; retrying from that value commits, and the
/// two ranges the rounds allocate are disjoint.
pub proof fn lemma_cas_race(
    m: Map<Seq<char>, u64>,
    seq: Seq<char>,
    observed: u64,
    size_a: u64,
    size_b: u64,
)
    requires
        m.contains_key(seq),
        m[seq] == observed,
        0 < size_a,
        observed + size_a + size_b <= u64::MAX,
    ensures
        ({
            let (ra, m1) = spec_cas(m, seq, observed, (observed + size_a) as u64);
            let (rb, m2) = spec_cas(m1, seq, observed, (observed + size_b) as u64);
            let (rb2, m3) = spec_cas(
                m2,
                seq,
                (observed + size_a) as u64,
                (observed + size_a + size_b) as u64,
            );
            ra is Committed && m1[seq] == observed + size_a && (rb matches CasOutcome::Stale {
                actual,
            } && actual == observed + size_a) && m2 == m1 && rb2 is Committed && m3[seq]
                == observed + size_a + size_b && (Range {
                begin: observed,
                end: (observed + size_a) as u64,
            }).units().disjoint(
                (Range {
                    begin: (observed + size_a) as u64,
                    end: (observed + size_a + size_b) as u64,
                }).units(),
            )
        }),
{
}

} // verus!
