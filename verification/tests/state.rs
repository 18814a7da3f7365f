use clip_bridge::models::IceServer;
use clip_bridge::state::{parse_ice_server, parse_ice_servers, AppState};

fn sorted(mut v: Vec<String>) -> Vec<String> {
    v.sort();
    v
}

fn server(urls: &str, username: Option<&str>, credential: Option<&str>) -> (String, Option<String>, Option<String>) {
    (urls.to_string(), username.map(str::to_string), credential.map(str::to_string))
}

fn parts(s: &IceServer) -> (String, Option<String>, Option<String>) {
    (s.urls.clone(), s.username.clone(), s.credential.clone())
}

#[test]
fn join_reports_the_other_peers() {
    let mut state: AppState<u32> = AppState::new(Vec::new());
    assert!(state.join("room", "a", 1).is_empty());
    assert_eq!(state.join("room", "b", 2), vec!["a".to_string()]);
    assert_eq!(sorted(state.join("room", "c", 3)), vec!["a".to_string(), "b".to_string()]);
    assert!(state.join("other", "a", 9).is_empty());
    assert_eq!(state.forward_signal("room", "b"), Some(&2));
    assert_eq!(state.forward_signal("other", "a"), Some(&9));
    assert_eq!(state.forward_signal("other", "b"), None);
    assert_eq!(state.forward_signal("nowhere", "a"), None);
}

#[test]
fn rejoining_under_the_same_id_replaces_the_handle() {
    let mut state: AppState<u32> = AppState::new(Vec::new());
    state.join("room", "a", 1);
    state.join("room", "b", 2);
    assert_eq!(state.join("room", "a", 7), vec!["b".to_string()]);
    assert_eq!(state.forward_signal("room", "a"), Some(&7));
}

#[test]
fn leave_reports_remaining_peers_and_closes_empty_rooms() {
    let mut state: AppState<u32> = AppState::new(Vec::new());
    state.join("room", "a", 1);
    state.join("room", "b", 2);
    assert_eq!(state.leave("room", "a"), vec!["b".to_string()]);
    assert_eq!(state.forward_signal("room", "a"), None);
    assert!(state.leave("room", "b").is_empty());
    assert_eq!(state.forward_signal("room", "b"), None);
    // The room is gone: joining again finds nobody.
    assert!(state.join("room", "c", 3).is_empty());
}

#[test]
fn leave_of_an_absent_peer_keeps_the_room() {
    let mut state: AppState<u32> = AppState::new(Vec::new());
    state.join("room", "a", 1);
    assert_eq!(state.leave("room", "ghost"), vec!["a".to_string()]);
    assert_eq!(state.forward_signal("room", "a"), Some(&1));
    assert!(state.leave("missing", "a").is_empty());
    assert_eq!(state.forward_signal("room", "a"), Some(&1));
}

#[test]
fn leave_undoes_join_on_concrete_rooms() {
    let mut state: AppState<u32> = AppState::new(Vec::new());
    state.join("room", "a", 1);
    state.join("room", "b", 2);
    state.join("room", "new", 3);
    state.leave("room", "new");
    assert_eq!(sorted(state.join("room", "probe", 4)), vec!["a".to_string(), "b".to_string()]);
}

#[test]
fn rooms_do_not_affect_each_other() {
    let mut state: AppState<u32> = AppState::new(Vec::new());
    state.join("one", "a", 1);
    state.join("two", "a", 2);
    state.leave("one", "a");
    assert_eq!(state.forward_signal("two", "a"), Some(&2));
    assert_eq!(state.forward_signal("one", "a"), None);
}

#[test]
fn default_ice_server_is_google_stun() {
    let servers = parse_ice_servers(Vec::new());
    assert_eq!(servers.len(), 1);
    assert_eq!(parts(&servers[0]), server("stun:stun.l.google.com:19302", None, None));
    let state: AppState<u32> = AppState::new(Vec::new());
    assert_eq!(parts(&state.config().ice_servers[0]), server("stun:stun.l.google.com:19302", None, None));
}

#[test]
fn ice_server_arguments_are_split_and_trimmed() {
    let servers = parse_ice_servers(vec![
        "stun:stun.example.com:3478".to_string(),
        " turns:turn.example.com:5349 , user , pass ".to_string(),
        "turn:a, ,secret".to_string(),
        "turn:b,user,".to_string(),
        "turn:c,u,p,extra".to_string(),
        "  ,user,pass".to_string(),
        "".to_string(),
    ]);
    let got: Vec<_> = servers.iter().map(parts).collect();
    assert_eq!(
        got,
        vec![
            server("stun:stun.example.com:3478", None, None),
            server("turns:turn.example.com:5349", Some("user"), Some("pass")),
            server("turn:a", None, Some("secret")),
            server("turn:b", Some("user"), None),
            server("turn:c", Some("u"), Some("p,extra")),
        ]
    );
}

#[test]
fn blank_arguments_give_no_server() {
    assert!(parse_ice_servers(vec![" ".to_string(), ",a,b".to_string()]).is_empty());
    assert!(parse_ice_server("   ").is_none());
    let one = parse_ice_server("x,,").unwrap();
    assert_eq!(parts(&one), server("x", None, None));
}

#[test]
fn configured_state_keeps_its_ice_servers() {
    let state: AppState<u32> = AppState::new(vec!["turn:t,u,p".to_string()]);
    let config = state.config();
    assert_eq!(config.ice_servers.len(), 1);
    assert_eq!(parts(&config.ice_servers[0]), server("turn:t", Some("u"), Some("p")));
}
