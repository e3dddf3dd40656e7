//! Service configuration: the coordination-store address, the per-fetch
//! block size, and the per-client maximum, which must not exceed the fetch
//! size so that one fetched block can always cover one shortfall.

use vstd::prelude::*;

verus! {

#[derive(Clone, Debug)]
pub struct Properties {
    pub etcd_addr: String,
    pub etcd_fetch_range_size: u64,
    pub client_range_max_size: u64,
}

#[derive(Clone, Debug)]
pub struct Configs {
    pub props: Properties,
    pub logs_cfg_path: String,
}

/// The invariant the configuration loader refuses to run without.
pub open spec fn props_valid(p: &Properties) -> bool {
    p.client_range_max_size <= p.etcd_fetch_range_size
}

/// Check a loaded configuration: a per-client maximum above the per-fetch
/// block size is rejected.
pub fn validate_properties(props: &Properties) -> (r: bool)
    ensures
        r == props_valid(props),
{
    props.client_range_max_size <= props.etcd_fetch_range_size
}

} // verus!
