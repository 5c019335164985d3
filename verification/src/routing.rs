use vstd::prelude::*;

verus! {

/// The protocol name of file requests: `gate`.
pub const ALPN: [u8; 4] = [103u8, 97u8, 116u8, 101u8];

/// The protocol name of video discovery requests: `discovery`.
pub const DISCOVERY_ALPN: [u8; 9] = [100u8, 105u8, 115u8, 99u8, 111u8, 118u8, 101u8, 114u8, 121u8];

/// The requests that the access-control handler serves.
#[derive(Debug, Clone, Copy, PartialEq, Eq, Structural)]
pub enum Protocol {
    /// A file request.
    Gate,
    /// A discovery request.
    Discovery,
}

fn same_bytes(a: &[u8], b: &[u8]) -> (r: bool)
    ensures
        r == (a@ == b@),
{
    if a.len() != b.len() {
        return false;
    }
    let mut i: usize = 0;
    while i < a.len()
        invariant
            a@.len() == b@.len(),
            0 <= i <= a@.len(),
            forall|j: int| 0 <= j < i ==> a@[j] == b@[j],
        decreases a@.len() - i,
    {
        if a[i] != b[i] {
            return false;
        }
        i = i + 1;
    }
    assert(a@ =~= b@);
    true
}

/// Which protocol a connection's protocol name selects; any other name is
/// refused.
pub fn route_alpn(alpn: &[u8]) -> (r: Option<Protocol>)
    ensures
        r == if alpn@ == ALPN@ {
            Some(Protocol::Gate)
        } else if alpn@ == DISCOVERY_ALPN@ {
            Some(Protocol::Discovery)
        } else {
            None
        },
{
    let gate = ALPN;
    let discovery = DISCOVERY_ALPN;
    if same_bytes(alpn, gate.as_slice()) {
        Some(Protocol::Gate)
    } else if same_bytes(alpn, discovery.as_slice()) {
        Some(Protocol::Discovery)
    } else {
        None
    }
}

} // verus!
