//! The built-in TURN relay: where its settings come from, the ICE entries
//! that point browsers at it, and the static credential it accepts.
use vstd::prelude::*;

use crate::models::{opt_view, IceServer, IceServerView};
use crate::text::{after_first, before_first, decimal, trim};

verus! {

/// The realm the TURN relay authenticates in.
pub const TURN_REALM: &'static str = "p2p_clip_bridge_server";

/// The environment variable that supplies the relay's public IP.
pub const PUBLIC_IP_ENV: &'static str = "CLIP_BRIDGE_TURN_PUBLIC_IP";

/// The environment variable that supplies the relay's user name.
pub const USERNAME_ENV: &'static str = "CLIP_BRIDGE_TURN_USERNAME";

/// The environment variable that supplies the relay's password.
pub const CREDENTIAL_ENV: &'static str = "CLIP_BRIDGE_TURN_CREDENTIAL";

/// A setting of the TURN relay that must be given.
#[derive(Clone, Copy, Debug, PartialEq, Eq, Structural)]
pub enum TurnSetting {
    PublicIp,
    Username,
    Credential,
}

impl TurnSetting {
    /// The environment variable that supplies this setting.
    pub fn env_name(&self) -> (name: &'static str)
        ensures
            name@ == match self {
                TurnSetting::PublicIp => PUBLIC_IP_ENV@,
                TurnSetting::Username => USERNAME_ENV@,
                TurnSetting::Credential => CREDENTIAL_ENV@,
            },
    {
        match self {
            TurnSetting::PublicIp => PUBLIC_IP_ENV,
            TurnSetting::Username => USERNAME_ENV,
            TurnSetting::Credential => CREDENTIAL_ENV,
        }
    }
}

/// Why the TURN settings were refused.
#[derive(Clone, Debug)]
pub enum ConfigError {
    /// The setting was given neither on the command line nor in the
    /// environment, or only as blanks.
    Missing(TurnSetting),
    /// The public IP, as given after trimming, is not an IP address.
    InvalidPublicIp(String),
}

/// The values of the settings' environment variables, where they are set.
#[derive(Clone, Debug)]
pub struct TurnEnv {
    pub public_ip: Option<String>,
    pub username: Option<String>,
    pub credential: Option<String>,
}

/// The settings of the TURN relay. It listens on every interface, on
/// `turn_port`.
#[derive(Clone, Debug)]
pub struct TurnConfig {
    turn_port: u16,
    public_ip: String,
    username: String,
    credential: String,
}

/// The mathematical content of a [`TurnConfig`].
pub struct TurnConfigView {
    pub turn_port: u16,
    pub public_ip: Seq<char>,
    pub username: Seq<char>,
    pub credential: Seq<char>,
}

impl View for TurnConfig {
    type V = TurnConfigView;

    closed spec fn view(&self) -> TurnConfigView {
        TurnConfigView {
            turn_port: self.turn_port,
            public_ip: self.public_ip@,
            username: self.username@,
            credential: self.credential@,
        }
    }
}

/// The characters of an optional string slice.
pub open spec fn opt_str_view(o: Option<&str>) -> Option<Seq<char>> {
    match o {
        Some(s) => Some(s@),
        None => None,
    }
}

/// `value` trimmed, unless nothing but whitespace is left.
pub open spec fn trimmed_value(value: Seq<char>) -> Option<Seq<char>> {
    if trim(value).len() > 0 {
        Some(trim(value))
    } else {
        None
    }
}

/// The value of a setting: the command-line value when one is given, else
/// the environment's, trimmed; `None` when that is absent or blank.
pub open spec fn required_value_spec(cli_value: Option<Seq<char>>, env_value: Option<Seq<char>>) -> Option<Seq<char>> {
    let raw = if cli_value is Some {
        cli_value
    } else {
        env_value
    };
    match raw {
        Some(v) => trimmed_value(v),
        None => None,
    }
}

/// `value` trimmed, or `None` when it holds nothing but whitespace.
pub fn trim_owned(value: String) -> (r: Option<String>)
    ensures
        opt_view(r) == trimmed_value(value@),
{
    let t = crate::text::trimmed(value.as_str());
    if t.as_str().is_empty() {
        None
    } else {
        Some(t)
    }
}

/// The value of `setting`: `cli_value` when it is given, else `env_value`,
/// trimmed; missing when that is absent or blank. A blank command-line value
/// does not fall back to the environment.
pub fn required_value(cli_value: Option<&str>, env_value: Option<String>, setting: TurnSetting) -> (r: Result<
    String,
    ConfigError,
>)
    ensures
        match required_value_spec(opt_str_view(cli_value), opt_view(env_value)) {
            Some(v) => r matches Ok(s) && s@ == v,
            None => r matches Err(ConfigError::Missing(m)) && m == setting,
        },
{
    let raw = match cli_value {
        Some(v) => Some(v.to_owned()),
        None => env_value,
    };
    let value = match raw {
        Some(v) => trim_owned(v),
        None => None,
    };
    match value {
        Some(v) => Ok(v),
        None => Err(ConfigError::Missing(setting)),
    }
}

impl TurnConfig {
    /// The UDP port the relay listens on.
    pub fn turn_port(&self) -> (p: u16)
        ensures
            p == self@.turn_port,
    {
        self.turn_port
    }

    /// The IP address the relay announces, as text.
    pub fn public_ip(&self) -> (s: &str)
        ensures
            s@ == self@.public_ip,
    {
        self.public_ip.as_str()
    }

    /// The user name the relay accepts.
    pub fn username(&self) -> (s: &str)
        ensures
            s@ == self@.username,
    {
        self.username.as_str()
    }

    /// The password the relay accepts.
    pub fn credential(&self) -> (s: &str)
        ensures
            s@ == self@.credential,
    {
        self.credential.as_str()
    }

    /// The relay's settings from the command-line values, each falling back
    /// to its environment variable in `env`. The public IP is checked first,
    /// then whether it is an address (`is_ip_address` decides), then the user
    /// name, then the password; the first that fails is the error.
    pub fn from_sources<F: Fn(&str) -> bool>(
        turn_port: u16,
        public_ip: Option<&str>,
        username: Option<&str>,
        credential: Option<&str>,
        env: &TurnEnv,
        is_ip_address: F,
    ) -> (r: Result<TurnConfig, ConfigError>)
        requires
            forall|s: &str| is_ip_address.requires((s,)),
        ensures
            ({
                let ip = required_value_spec(opt_str_view(public_ip), opt_view(env.public_ip));
                let user = required_value_spec(opt_str_view(username), opt_view(env.username));
                let pass = required_value_spec(opt_str_view(credential), opt_view(env.credential));
                match ip {
                    None => r matches Err(ConfigError::Missing(TurnSetting::PublicIp)),
                    Some(ip) => match r {
                        Err(ConfigError::InvalidPublicIp(v)) => v@ == ip && exists|s: &str|
                            s@ == ip && is_ip_address.ensures((s,), false),
                        Err(ConfigError::Missing(m)) => (exists|s: &str| s@ == ip && is_ip_address.ensures((s,), true)) && (
                            if user is None {
                                m == TurnSetting::Username
                            } else {
                                pass is None && m == TurnSetting::Credential
                            }),
                        Ok(c) => (exists|s: &str| s@ == ip && is_ip_address.ensures((s,), true))
                            && user is Some && pass is Some && c@ == (TurnConfigView {
                            turn_port,
                            public_ip: ip,
                            username: user->0,
                            credential: pass->0,
                        }),
                    },
                }
            }),
    {
        let env_ip = match &env.public_ip {
            Some(s) => Some(s.clone()),
            None => None,
        };
        let ip = required_value(public_ip, env_ip, TurnSetting::PublicIp)?;
        let valid = is_ip_address(ip.as_str());
        if !valid {
            return Err(ConfigError::InvalidPublicIp(ip));
        }
        let env_user = match &env.username {
            Some(s) => Some(s.clone()),
            None => None,
        };
        let user = required_value(username, env_user, TurnSetting::Username)?;
        let env_pass = match &env.credential {
            Some(s) => Some(s.clone()),
            None => None,
        };
        let pass = required_value(credential, env_pass, TurnSetting::Credential)?;
        Ok(TurnConfig { turn_port, public_ip: ip, username: user, credential: pass })
    }
}

/// The host part of an HTTP `Host` header: the header trimmed, then a
/// bracketed IPv6 address kept with its brackets, anything else cut at its
/// first colon.
pub open spec fn turn_host_spec(request_host: Seq<char>) -> Seq<char> {
    let host = trim(request_host);
    if host.len() > 0 && host[0] == '[' && host.drop_first().contains(']') {
        seq!['['] + before_first(host.drop_first(), ']') + seq![']']
    } else {
        before_first(host, ':')
    }
}

/// The relay's host is the host part of the trimmed header: a bracketed
/// IPv6 address is kept up to and with its first `]`; any other header is
/// cut before its first `:`, and nothing of it is left out before that.
pub proof fn lemma_turn_host_is_host_part(request_host: Seq<char>)
    ensures
        ({
            let t = trim(request_host);
            let r = turn_host_spec(request_host);
            if t.len() > 0 && t[0] == '[' && t.drop_first().contains(']') {
                &&& r.len() >= 2
                &&& r == t.take(r.len() as int)
                &&& r[r.len() - 1] == ']'
                &&& !r.subrange(1, r.len() - 1).contains(']')
            } else {
                &&& r == t.take(r.len() as int)
                &&& !r.contains(':')
                &&& (r.len() == t.len() || t[r.len() as int] == ':')
            }
        }),
{
    let t = trim(request_host);
    let r = turn_host_spec(request_host);
    if t.len() > 0 && t[0] == '[' && t.drop_first().contains(']') {
        let d = t.drop_first();
        d.index_of_first_ensures(']');
        let k = d.index_of_first(']')->0;
        assert(r =~= t.take(k + 2));
        assert(r.subrange(1, r.len() - 1) =~= d.take(k));
    } else {
        t.index_of_first_ensures(':');
        match t.index_of_first(':') {
            Some(k) => {
                assert(r =~= t.take(k));
                assert(!r.contains(':')) by {
                    if r.contains(':') {
                        let j = choose|j: int| 0 <= j < r.len() && r[j] == ':';
                        assert(t[j] == ':');
                    }
                }
            },
            None => {
                assert(r =~= t.take(t.len() as int));
            },
        }
    }
}

/// The URL `scheme` + host + `:` + port of the relay, as a browser on
/// `request_host` reaches it.
pub open spec fn relay_url(scheme: Seq<char>, request_host: Seq<char>, port: u16) -> Seq<char> {
    scheme + turn_host_spec(request_host) + seq![':'] + decimal(port as nat)
}

/// The host that browsers reach the relay at: the host of the page they
/// loaded, without its port.
pub fn turn_host(request_host: &str) -> (r: String)
    ensures
        r@ == turn_host_spec(request_host@),
{
    let host = crate::text::trimmed(request_host);
    let h = crate::text::chars_of(host.as_str());
    let n = h.len();
    let ghost hs = h@;
    if n > 0 && h[0] == '[' {
        let close = crate::text::find_char(&h, 1, ']');
        proof {
            hs.skip(1).index_of_first_ensures(']');
            assert(hs.skip(1) =~= hs.drop_first());
        }
        match close {
            Some(k) => {
                let mut r = String::new();
                r.push('[');
                crate::text::push_chars(&mut r, &h, 1, k);
                r.push(']');
                proof {
                    assert(hs.drop_first().contains(']'));
                    assert(before_first(hs.drop_first(), ']') =~= hs.subrange(1, k as int));
                    assert(r@ =~= seq!['['] + hs.subrange(1, k as int) + seq![']']);
                }
                return r;
            },
            None => {
                assert(!hs.drop_first().contains(']'));
            },
        }
    }
    let colon = crate::text::find_char(&h, 0, ':');
    proof {
        assert(hs.skip(0) =~= hs);
        hs.index_of_first_ensures(':');
    }
    let end = match colon {
        Some(i) => i,
        None => n,
    };
    assert(before_first(hs, ':') =~= hs.subrange(0, end as int));
    crate::text::string_of(&h, 0, end)
}

impl TurnConfig {
    /// The TURN entry for browsers on `request_host`: the relay at the page's
    /// host with the relay's credentials.
    pub fn ice_server(&self, request_host: &str) -> (s: IceServer)
        ensures
            s@ == (IceServerView {
                urls: relay_url("turn:"@, request_host@, self@.turn_port),
                username: Some(self@.username),
                credential: Some(self@.credential),
            }),
    {
        IceServer {
            urls: self.relay_url("turn:", request_host),
            username: Some(self.username.clone()),
            credential: Some(self.credential.clone()),
        }
    }

    /// The STUN entry for browsers on `request_host`: the relay at the page's
    /// host, without credentials.
    pub fn stun_server(&self, request_host: &str) -> (s: IceServer)
        ensures
            s@ == (IceServerView {
                urls: relay_url("stun:"@, request_host@, self@.turn_port),
                username: None,
                credential: None,
            }),
    {
        IceServer { urls: self.relay_url("stun:", request_host), username: None, credential: None }
    }

    fn relay_url(&self, scheme: &str, request_host: &str) -> (u: String)
        ensures
            u@ == relay_url(scheme@, request_host@, self@.turn_port),
    {
        let mut u = scheme.to_owned();
        let host = turn_host(request_host);
        u.append(host.as_str());
        u.push(':');
        crate::text::push_decimal(&mut u, self.turn_port);
        u
    }
}

/// Names the MD5 digest of the UTF-8 encoding of `text`, the hash that
/// `turn::auth::generate_auth_key` computes.
pub uninterp spec fn md5_of_text(text: Seq<char>) -> Seq<u8>;

/// The key `turn::auth::generate_auth_key` derives: the MD5 digest of
/// `{username}:{realm}:{password}`, each part exactly as given.
pub open spec fn turn_auth_key(username: Seq<char>, realm: Seq<char>, password: Seq<char>) -> Seq<u8> {
    md5_of_text(username + seq![':'] + realm + seq![':'] + password)
}

/// Calls `turn::auth::generate_auth_key`, which formats
/// `{username}:{realm}:{password}` and hashes it with MD5. The contract claims
/// that the key is the named MD5 digest of exactly that text, the three
/// arguments unchanged, and is 16 bytes long; the digest itself is named,
/// not stated.
#[verifier::external_body]
fn generate_auth_key(username: &str, realm: &str, password: &str) -> (key: Vec<u8>)
    ensures
        key@ == md5_of_text(username@ + seq![':'] + realm@ + seq![':'] + password@),
        key@.len() == 16,
{
    turn::auth::generate_auth_key(username, realm, password)
}

fn copy_bytes(v: &Vec<u8>) -> (r: Vec<u8>)
    ensures
        r@ == v@,
{
    let mut r: Vec<u8> = Vec::new();
    let n = v.len();
    let mut i: usize = 0;
    while i < n
        invariant
            n == v@.len(),
            i <= n,
            r@ == v@.take(i as int),
        decreases n - i,
    {
        r.push(v[i]);
        i = i + 1;
        assert(r@ =~= v@.take(i as int));
    }
    assert(v@.take(n as int) =~= v@);
    r
}

/// The relay's authentication: the one configured user, with the key derived
/// from its password in the relay's realm.
pub struct StaticAuthHandler {
    username: String,
    key: Vec<u8>,
}

impl StaticAuthHandler {
    /// The user this handler accepts.
    pub closed spec fn accepted_username(&self) -> Seq<char> {
        self.username@
    }

    /// The key this handler hands out for its user.
    pub closed spec fn key(&self) -> Seq<u8> {
        self.key@
    }

    /// The handler for the user and password of `config`.
    pub fn new(config: &TurnConfig) -> (h: StaticAuthHandler)
        ensures
            h.accepted_username() == config@.username,
            h.key() == turn_auth_key(config@.username, TURN_REALM@, config@.credential),
            h.key() == md5_of_text(config@.username + seq![':'] + TURN_REALM@ + seq![':'] + config@.credential),
    {
        let key = generate_auth_key(config.username.as_str(), TURN_REALM, config.credential.as_str());
        StaticAuthHandler { username: config.username.clone(), key }
    }

    /// The key for `username`, when it is the configured user; `None` refuses
    /// the request.
    pub fn auth_handle(&self, username: &str) -> (r: Option<Vec<u8>>)
        ensures
            r is Some <==> username@ == self.accepted_username(),
            r matches Some(k) ==> k@ == self.key(),
    {
        let asked = username.to_owned();
        if asked == self.username {
            Some(copy_bytes(&self.key))
        } else {
            None
        }
    }
}

} // verus!
