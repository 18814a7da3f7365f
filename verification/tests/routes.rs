use clip_bridge::ice::{public_stun_servers, PUBLIC_STUN_SERVERS};
use clip_bridge::routes::server_config;
use clip_bridge::turn_relay::{TurnConfig, TurnEnv};

fn turn() -> TurnConfig {
    let env = TurnEnv { public_ip: None, username: None, credential: None };
    TurnConfig::from_sources(3478, Some("203.0.113.10"), Some("user"), Some("pass"), &env, |s: &str| {
        s.split('.').count() == 4
    })
    .unwrap()
}

#[test]
fn public_stun_servers_follow_the_list() {
    let servers = public_stun_servers();
    let urls: Vec<&str> = servers.iter().map(|s| s.urls.as_str()).collect();
    assert_eq!(
        urls,
        vec!["stun:stun.miwifi.com:3478", "stun:stun.chat.bilibili.com:3478", "stun:stun.l.google.com:19302"]
    );
    assert_eq!(urls, PUBLIC_STUN_SERVERS.to_vec());
    assert!(servers.iter().all(|s| s.username.is_none() && s.credential.is_none()));
}

#[test]
fn config_lists_relay_stun_public_stun_then_relay_turn() {
    let config = server_config(&turn(), Some("clip.example.com:443"));
    let urls: Vec<&str> = config.ice_servers.iter().map(|s| s.urls.as_str()).collect();
    assert_eq!(
        urls,
        vec![
            "stun:clip.example.com:3478",
            "stun:stun.miwifi.com:3478",
            "stun:stun.chat.bilibili.com:3478",
            "stun:stun.l.google.com:19302",
            "turn:clip.example.com:3478",
        ]
    );
    assert_eq!(config.ice_servers[0].username, None);
    assert_eq!(config.ice_servers[4].username.as_deref(), Some("user"));
    assert_eq!(config.ice_servers[4].credential.as_deref(), Some("pass"));
}

#[test]
fn config_without_host_header_uses_localhost() {
    let config = server_config(&turn(), None);
    assert_eq!(config.ice_servers[0].urls, "stun:localhost:3478");
    assert_eq!(config.ice_servers[4].urls, "turn:localhost:3478");
}
