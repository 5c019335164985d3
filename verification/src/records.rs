use vstd::prelude::*;

verus! {

/// A request for one file of a resource of a namespace.
pub struct Request {
    pub namespace: String,
    pub resource: String,
    pub filename: String,
}

impl Request {
    /// Makes a request from its three parts.
    pub fn new(namespace: String, resource: String, filename: String) -> (r: Request)
        ensures
            r.namespace == namespace,
            r.resource == resource,
            r.filename == filename,
    {
        Request { namespace, resource, filename }
    }
}

/// A video that a peer offers: its tag and its name.
pub struct VideoInfo {
    pub tag: String,
    pub video_name: String,
}

} // verus!
