//! The public STUN servers that browsers try besides the built-in relay.
use vstd::prelude::*;

use crate::models::{ice_servers_view, IceServer, IceServerView};

verus! {

/// Public STUN servers used before the built-in TURN relay.
///
/// Browsers may contact several ICE servers while gathering candidates, and
/// slow or unreachable STUN servers can delay that on some networks, so this
/// list may be tuned for a region.
pub const PUBLIC_STUN_SERVERS: [&'static str; 3] = [
    "stun:stun.miwifi.com:3478",
    "stun:stun.chat.bilibili.com:3478",
    "stun:stun.l.google.com:19302",
];

/// The entries for the public STUN servers: each URL of
/// [`PUBLIC_STUN_SERVERS`], in order, without credentials.
pub open spec fn public_stun_servers_spec() -> Seq<IceServerView> {
    PUBLIC_STUN_SERVERS@.map_values(
        |u: &str| IceServerView { urls: u@, username: None, credential: None },
    )
}

/// The entries for the public STUN servers.
pub fn public_stun_servers() -> (r: Vec<IceServer>)
    ensures
        ice_servers_view(r@) == public_stun_servers_spec(),
{
    let urls = PUBLIC_STUN_SERVERS;
    let mut out: Vec<IceServer> = Vec::new();
    let mut i: usize = 0;
    while i < 3
        invariant
            urls@ == PUBLIC_STUN_SERVERS@,
            urls@.len() == 3,
            i <= 3,
            out@.len() == i,
            forall|k: int| 0 <= k < i ==> #[trigger] out@[k]@ == public_stun_servers_spec()[k],
        decreases 3 - i,
    {
        let u: &str = urls[i];
        out.push(IceServer { urls: u.to_owned(), username: None, credential: None });
        i = i + 1;
    }
    assert(ice_servers_view(out@) =~= public_stun_servers_spec());
    out
}

} // verus!
