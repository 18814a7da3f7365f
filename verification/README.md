# clip_bridge

The verified core of Clip Bridge, a password-in-URL clipboard and file relay:
browsers in the same room find each other over a WebSocket signalling
channel and then talk over WebRTC, with a built-in TURN relay as fallback.

- `src/state.rs`: the room registry (`AppState`), its model as a map from
  room to peers, the laws of joining and leaving, and the parser of
  `URL[,USERNAME[,CREDENTIAL]]` ICE server arguments.
- `src/signaling.rs`: the rules of one signalling connection as a state
  machine from client events to actions, with its laws over event sequences.
- `src/turn_relay.rs`: the TURN relay's settings (command line, then
  environment), the host browsers reach it at, and its static credential.
- `src/routes.rs`: the ICE configuration handed to a page.
- `src/ice.rs`, `src/models.rs`, `src/text.rs`: public STUN servers, the
  configuration values, and character-level helpers.
- `app/`: the server itself (axum routes, the WebSocket loop, the TURN
  server, command-line parsing), which performs the actions the library
  decides.
