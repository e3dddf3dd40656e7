//! What the shared-cache worker does with each command. The worker owns the
//! cache map exclusively and processes commands strictly in arrival order;
//! the queue, the thread, and the per-request completion signals live with
//! the caller, which hands every received command to `handle_msg` and
//! signals the reply back.

use vstd::prelude::*;

use crate::cache_map::{self, spec_withdraw, CacheMap};
use crate::range::Range;

verus! {

/// A command for the cache worker.
pub enum Msg {
    GetFromCache(MsgGet),
    PutToCache(MsgPut),
    Stop,
}

/// Withdraw `range_size` units of `key`'s collection.
pub struct MsgGet {
    pub key: String,
    pub range_size: u64,
}

/// Deposit `value` into `key`'s collection.
pub struct MsgPut {
    pub key: String,
    pub value: Range,
}

/// What the worker signals back for one command.
pub enum WorkerReply {
    /// The ranges withdrawn and the unmet shortfall.
    Got(Vec<Range>, u64),
    /// The deposit is in.
    PutDone,
    /// The worker loop ends; commands queued after this are not served.
    Stopped,
}

/// One step of the worker loop: apply `msg` to the map and say what to
/// signal back.
pub fn handle_msg(msg: Msg, values: &mut CacheMap) -> (r: WorkerReply)
    requires
        msg matches Msg::PutToCache(p) ==> p.value.wf(),
    ensures
        msg matches Msg::GetFromCache(g) ==> ({
            let wd = spec_withdraw(old(values).ranges_of(g.key@), g.range_size as int);
            &&& (r matches WorkerReply::Got(rs, short) && rs@ == wd.1 && short == wd.2)
            &&& final(values).ranges_of(g.key@) == wd.0
            &&& forall|n: Seq<char>|
                n != g.key@ ==> #[trigger] final(values).ranges_of(n) == old(values).ranges_of(n)
        }),
        msg matches Msg::PutToCache(p) ==> r is PutDone && final(values).ranges_of(p.key@) == old(
            values,
        ).ranges_of(p.key@).push(p.value) && (forall|n: Seq<char>|
            n != p.key@ ==> #[trigger] final(values).ranges_of(n) == old(values).ranges_of(n)),
        msg is Stop ==> r is Stopped && (forall|n: Seq<char>| #[trigger]
            final(values).ranges_of(n) == old(values).ranges_of(n)),
{
    match msg {
        Msg::GetFromCache(g) => {
            let (rs, short) = cache_map::get_range(g.key, g.range_size, values);
            WorkerReply::Got(rs, short)
        },
        Msg::PutToCache(p) => {
            cache_map::store_range(p.key, p.value, values);
            WorkerReply::PutDone
        },
        Msg::Stop => WorkerReply::Stopped,
    }
}

} // verus!
