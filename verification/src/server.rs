use vstd::prelude::*;

verus! {

/// The query of a download that may name the peer to fetch from.
pub struct RequestArgs {
    pub namespace: String,
    pub resource: String,
    pub filename: String,
    pub endpoint_id: Option<String>,
}

} // verus!
