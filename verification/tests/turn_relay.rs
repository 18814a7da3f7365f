use clip_bridge::turn_relay::{
    required_value, trim_owned, turn_host, ConfigError, StaticAuthHandler, TurnConfig, TurnEnv,
    TurnSetting, CREDENTIAL_ENV, PUBLIC_IP_ENV, TURN_REALM, USERNAME_ENV,
};

fn no_env() -> TurnEnv {
    TurnEnv { public_ip: None, username: None, credential: None }
}

/// Accepts dotted quads of decimal octets and anything with a colon, which is
/// enough to tell the addresses of these tests from the names.
fn is_ip(s: &str) -> bool {
    if s.contains(':') {
        return true;
    }
    let parts: Vec<&str> = s.split('.').collect();
    parts.len() == 4 && parts.iter().all(|p| !p.is_empty() && p.parse::<u8>().is_ok())
}

#[test]
fn derives_turn_host_from_http_host() {
    assert_eq!(turn_host("clip.example.com"), "clip.example.com");
    assert_eq!(turn_host("clip.example.com:7259"), "clip.example.com");
    assert_eq!(turn_host("127.0.0.1:7259"), "127.0.0.1");
    assert_eq!(turn_host("[::1]:7259"), "[::1]");
}

#[test]
fn builds_turn_config_from_cli_values() {
    let config =
        TurnConfig::from_sources(3478, Some("127.0.0.1"), Some("user"), Some("pass"), &no_env(), is_ip)
            .unwrap();

    let ice_server = config.ice_server("127.0.0.1:7259");
    assert_eq!(ice_server.urls, "turn:127.0.0.1:3478");
    assert_eq!(ice_server.username.as_deref(), Some("user"));
    assert_eq!(ice_server.credential.as_deref(), Some("pass"));

    let stun_server = config.stun_server("127.0.0.1:7259");
    assert_eq!(stun_server.urls, "stun:127.0.0.1:3478");
    assert_eq!(stun_server.username, None);
    assert_eq!(stun_server.credential, None);
}

#[test]
fn turn_host_trims_and_handles_edge_cases() {
    assert_eq!(turn_host("  clip.example.com:443  "), "clip.example.com");
    assert_eq!(turn_host("[2001:db8::1]"), "[2001:db8::1]");
    assert_eq!(turn_host("[::1"), "[");
    assert_eq!(turn_host(""), "");
    assert_eq!(turn_host("\t[fe80::1]:80\n"), "[fe80::1]");
    assert_eq!(turn_host("host:1:2"), "host");
}

#[test]
fn trim_owned_keeps_content_and_drops_blanks() {
    assert_eq!(trim_owned("  a b \t".to_string()), Some("a b".to_string()));
    assert_eq!(trim_owned(" \u{3000}\n".to_string()), None);
    assert_eq!(trim_owned(String::new()), None);
}

#[test]
fn required_value_prefers_command_line() {
    assert_eq!(
        required_value(Some(" cli "), Some("env".to_string()), TurnSetting::Username).unwrap(),
        "cli"
    );
    assert_eq!(required_value(None, Some(" env ".to_string()), TurnSetting::Username).unwrap(), "env");
    match required_value(Some("   "), Some("env".to_string()), TurnSetting::Credential) {
        Err(ConfigError::Missing(TurnSetting::Credential)) => {}
        other => panic!("unexpected {:?}", other),
    }
    match required_value(None, None, TurnSetting::PublicIp) {
        Err(ConfigError::Missing(TurnSetting::PublicIp)) => {}
        other => panic!("unexpected {:?}", other),
    }
}

#[test]
fn from_sources_falls_back_to_environment() {
    let env = TurnEnv {
        public_ip: Some(" 203.0.113.10 ".to_string()),
        username: Some("envuser".to_string()),
        credential: Some("envpass".to_string()),
    };
    let config = TurnConfig::from_sources(5000, None, None, Some("clipass"), &env, is_ip).unwrap();
    assert_eq!(config.turn_port(), 5000);
    assert_eq!(config.public_ip(), "203.0.113.10");
    assert_eq!(config.username(), "envuser");
    assert_eq!(config.credential(), "clipass");
}

#[test]
fn from_sources_reports_the_first_problem() {
    match TurnConfig::from_sources(3478, None, None, None, &no_env(), is_ip) {
        Err(ConfigError::Missing(TurnSetting::PublicIp)) => {}
        other => panic!("unexpected {:?}", other),
    }
    match TurnConfig::from_sources(3478, Some(" not-an-ip "), None, None, &no_env(), is_ip) {
        Err(ConfigError::InvalidPublicIp(v)) => assert_eq!(v, "not-an-ip"),
        other => panic!("unexpected {:?}", other),
    }
    match TurnConfig::from_sources(3478, Some("::1"), Some(" "), None, &no_env(), is_ip) {
        Err(ConfigError::Missing(TurnSetting::Username)) => {}
        other => panic!("unexpected {:?}", other),
    }
    match TurnConfig::from_sources(3478, Some("10.0.0.1"), Some("u"), None, &no_env(), is_ip) {
        Err(ConfigError::Missing(TurnSetting::Credential)) => {}
        other => panic!("unexpected {:?}", other),
    }
}

#[test]
fn setting_names_are_the_documented_variables() {
    assert_eq!(TurnSetting::PublicIp.env_name(), "CLIP_BRIDGE_TURN_PUBLIC_IP");
    assert_eq!(TurnSetting::Username.env_name(), USERNAME_ENV);
    assert_eq!(TurnSetting::Credential.env_name(), CREDENTIAL_ENV);
    assert_eq!(PUBLIC_IP_ENV, "CLIP_BRIDGE_TURN_PUBLIC_IP");
}

#[test]
fn relay_urls_render_the_port_in_decimal() {
    let low = TurnConfig::from_sources(0, Some("1.2.3.4"), Some("u"), Some("p"), &no_env(), is_ip).unwrap();
    assert_eq!(low.stun_server("example.org").urls, "stun:example.org:0");
    let high = TurnConfig::from_sources(65535, Some("1.2.3.4"), Some("u"), Some("p"), &no_env(), is_ip).unwrap();
    assert_eq!(high.ice_server("[::1]:8080").urls, "turn:[::1]:65535");
    let mid = TurnConfig::from_sources(1009, Some("1.2.3.4"), Some("u"), Some("p"), &no_env(), is_ip).unwrap();
    assert_eq!(mid.stun_server(" h ").urls, "stun:h:1009");
}

#[test]
fn auth_handler_accepts_only_the_configured_user() {
    let config =
        TurnConfig::from_sources(3478, Some("127.0.0.1"), Some("user"), Some("pass"), &no_env(), is_ip)
            .unwrap();
    let handler = StaticAuthHandler::new(&config);
    let key = handler.auth_handle("user").unwrap();
    let hex: String = key.iter().map(|b| format!("{:02x}", b)).collect();
    assert_eq!(hex, "17e3a8b5958b861f8488d9bf9b58a78d");
    assert_eq!(key, turn::auth::generate_auth_key("user", TURN_REALM, "pass"));
    assert_eq!(handler.auth_handle("other"), None);
    assert_eq!(handler.auth_handle("user "), None);
}
