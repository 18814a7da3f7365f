//! What the HTTP routes decide: the ICE configuration a page is given, and
//! how one signalling connection's messages are acted on.
use vstd::prelude::*;

use crate::ice::{public_stun_servers, public_stun_servers_spec};
use crate::models::{ice_servers_view, IceServerView, ServerConfig};
use crate::turn_relay::{relay_url, TurnConfig};

verus! {

/// The host that the configuration is made for when a request names none.
pub open spec fn default_host() -> Seq<char> {
    "localhost"@
}

/// The ICE servers handed to a page loaded from `host`: the relay as STUN
/// server, the public STUN servers, then the relay as TURN server.
pub open spec fn server_config_spec(turn: crate::turn_relay::TurnConfigView, host: Seq<char>) -> Seq<IceServerView> {
    seq![IceServerView { urls: relay_url("stun:"@, host, turn.turn_port), username: None, credential: None }]
        + public_stun_servers_spec() + seq![
        IceServerView {
            urls: relay_url("turn:"@, host, turn.turn_port),
            username: Some(turn.username),
            credential: Some(turn.credential),
        },
    ]
}

/// For every `Host` header, the configuration announces the relay at the
/// header's host and the relay's port: first as STUN without credentials,
/// last as TURN with the relay's user and password, and the public STUN
/// servers in between.
pub proof fn lemma_config_points_at_page_host(turn: crate::turn_relay::TurnConfigView, host: Seq<char>)
    ensures
        server_config_spec(turn, host).len() == public_stun_servers_spec().len() + 2,
        server_config_spec(turn, host)[0] == (IceServerView {
            urls: "stun:"@ + crate::turn_relay::turn_host_spec(host) + seq![':'] + crate::text::decimal(
                turn.turn_port as nat,
            ),
            username: None,
            credential: None,
        }),
        server_config_spec(turn, host)[server_config_spec(turn, host).len() - 1] == (IceServerView {
            urls: "turn:"@ + crate::turn_relay::turn_host_spec(host) + seq![':'] + crate::text::decimal(
                turn.turn_port as nat,
            ),
            username: Some(turn.username),
            credential: Some(turn.credential),
        }),
        server_config_spec(turn, host).subrange(1, server_config_spec(turn, host).len() - 1)
            == public_stun_servers_spec(),
{
    let c = server_config_spec(turn, host);
    assert(c.subrange(1, c.len() - 1) =~= public_stun_servers_spec());
}

/// The configuration for a page whose request carried the `Host` header
/// `host_header`, if any.
pub fn server_config(turn: &TurnConfig, host_header: Option<&str>) -> (c: ServerConfig)
    ensures
        c@ == server_config_spec(
            turn@,
            match host_header {
                Some(h) => h@,
                None => default_host(),
            },
        ),
{
    let host = match host_header {
        Some(h) => h,
        None => "localhost",
    };
    let mut ice_servers: Vec<crate::models::IceServer> = Vec::new();
    ice_servers.push(turn.stun_server(host));
    let mut public = public_stun_servers();
    ice_servers.append(&mut public);
    ice_servers.push(turn.ice_server(host));
    assert(ice_servers_view(ice_servers@) =~= server_config_spec(turn@, host@));
    ServerConfig { ice_servers }
}

} // verus!
