//! The values that the configuration endpoint hands to browsers.
use vstd::prelude::*;

verus! {

/// One entry of the browser's `iceServers` list.
#[derive(Clone, Debug)]
pub struct IceServer {
    pub urls: String,
    pub username: Option<String>,
    pub credential: Option<String>,
}

/// The mathematical content of an [`IceServer`].
pub struct IceServerView {
    pub urls: Seq<char>,
    pub username: Option<Seq<char>>,
    pub credential: Option<Seq<char>>,
}

/// The characters of an optional string.
pub open spec fn opt_view(o: Option<String>) -> Option<Seq<char>> {
    match o {
        Some(s) => Some(s@),
        None => None,
    }
}

/// The characters of each string of a sequence.
pub open spec fn strings_view(v: Seq<String>) -> Seq<Seq<char>> {
    v.map_values(|s: String| s@)
}

impl View for IceServer {
    type V = IceServerView;

    open spec fn view(&self) -> IceServerView {
        IceServerView {
            urls: self.urls@,
            username: opt_view(self.username),
            credential: opt_view(self.credential),
        }
    }
}

/// The body of the configuration endpoint: the ICE servers a browser uses.
#[derive(Clone, Debug)]
pub struct ServerConfig {
    pub ice_servers: Vec<IceServer>,
}

/// The views of a sequence of ICE servers.
pub open spec fn ice_servers_view(v: Seq<IceServer>) -> Seq<IceServerView> {
    v.map_values(|s: IceServer| s@)
}

impl View for ServerConfig {
    type V = Seq<IceServerView>;

    open spec fn view(&self) -> Seq<IceServerView> {
        ice_servers_view(self.ice_servers@)
    }
}

fn copy_opt_string(o: &Option<String>) -> (r: Option<String>)
    ensures
        opt_view(r) == opt_view(*o),
{
    match o {
        Some(s) => Some(s.clone()),
        None => None,
    }
}

impl IceServer {
    /// A copy of this entry, with the same content.
    pub fn copy(&self) -> (r: IceServer)
        ensures
            r@ == self@,
    {
        IceServer {
            urls: self.urls.clone(),
            username: copy_opt_string(&self.username),
            credential: copy_opt_string(&self.credential),
        }
    }
}

impl ServerConfig {
    /// A copy of this configuration, with the same content.
    pub fn copy(&self) -> (r: ServerConfig)
        ensures
            r@ == self@,
    {
        let mut out: Vec<IceServer> = Vec::new();
        let n = self.ice_servers.len();
        let mut i: usize = 0;
        while i < n
            invariant
                n == self.ice_servers@.len(),
                i <= n,
                out@.len() == i,
                forall|k: int| 0 <= k < i ==> #[trigger] out@[k]@ == self.ice_servers@[k]@,
            decreases n - i,
        {
            let s = self.ice_servers[i].copy();
            out.push(s);
            i = i + 1;
        }
        assert(ice_servers_view(out@) =~= ice_servers_view(self.ice_servers@));
        ServerConfig { ice_servers: out }
    }
}

} // verus!
