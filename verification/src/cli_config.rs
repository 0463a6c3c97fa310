//! The CLI's configuration, kept in `~/.borehole.json`: the server address
//! and token, and the dashboard URL and JWT for the authenticated commands.

use vstd::prelude::*;

use crate::clock::{parse_rfc3339, rfc3339_instant, UtcTime};
use crate::text::{join_path, joined};

verus! {

/// On-disk CLI configuration.
#[derive(Debug, Clone)]
pub struct CliConfig {
    /// Server control address, e.g. "1.2.3.4:7000".
    pub server_addr: Option<String>,
    /// Authentication token.
    pub token: Option<String>,
    /// Base URL of the control API.
    pub server_url: Option<String>,
    /// Issued JWT.
    pub jwt: Option<String>,
    /// JWT expiry timestamp (RFC 3339).
    pub jwt_expires_at: Option<String>,
}

/// Why the configuration cannot answer.
#[derive(Debug, Clone, Copy, PartialEq, Eq, Structural)]
pub enum ConfigError {
    NoHomeDir,
    NoServer,
    NoToken,
    NoServerUrl,
    NotAuthenticated,
}

/// The message shown to the user for each missing setting.
pub open spec fn config_error_text(e: ConfigError) -> Seq<char> {
    match e {
        ConfigError::NoHomeDir => "cannot determine home directory"@,
        ConfigError::NoServer => "no server configured; run `borehole config` first"@,
        ConfigError::NoToken => "no token configured; run `borehole config` first"@,
        ConfigError::NoServerUrl => "no server URL configured; run `borehole config` first"@,
        ConfigError::NotAuthenticated => "not authenticated; run `borehole login` first"@,
    }
}

impl ConfigError {
    /// The message shown to the user.
    pub fn message(&self) -> (r: &'static str)
        ensures
            r@ == config_error_text(*self),
    {
        match self {
            ConfigError::NoHomeDir => "cannot determine home directory",
            ConfigError::NoServer => "no server configured; run `borehole config` first",
            ConfigError::NoToken => "no token configured; run `borehole config` first",
            ConfigError::NoServerUrl => "no server URL configured; run `borehole config` first",
            ConfigError::NotAuthenticated => "not authenticated; run `borehole login` first",
        }
    }
}

/// The file name of the configuration, in the home directory.
pub open spec fn config_file_name() -> Seq<char> {
    seq!['.', 'b', 'o', 'r', 'e', 'h', 'o', 'l', 'e', '.', 'j', 's', 'o', 'n']
}

/// The value of an optional field, when it is set and not empty.
pub open spec fn present(v: Option<String>) -> Option<Seq<char>> {
    match v {
        Some(s) if s@.len() > 0 => Some(s@),
        _ => None,
    }
}

/// The field's value when it is set and not empty, or `err`.
fn require(v: &Option<String>, err: ConfigError) -> (r: Result<String, ConfigError>)
    ensures
        match present(*v) {
            Some(s) => r matches Ok(t) && t@ == s,
            None => r == Err::<String, ConfigError>(err),
        },
{
    match v {
        Some(s) => {
            if s.as_str().unicode_len() > 0 {
                Ok(s.clone())
            } else {
                Err(err)
            }
        },
        None => Err(err),
    }
}

/// `(a_secs, a_nanos)` is not later than `(b_secs, b_nanos)`.
pub open spec fn not_later(a: (i64, u32), b: (i64, u32)) -> bool {
    a.0 < b.0 || (a.0 == b.0 && a.1 <= b.1)
}

/// Whether a JWT with expiry text `expires_at` counts as expired at `now`:
/// a missing or unreadable expiry counts as expired (fail closed).
pub open spec fn jwt_expired(expires_at: Option<String>, now: (i64, u32)) -> bool {
    match expires_at {
        Some(s) => match rfc3339_instant(s@) {
            Some(expiry) => not_later(expiry, now),
            None => true,
        },
        None => true,
    }
}

impl CliConfig {
    /// An empty configuration.
    pub fn empty() -> (c: Self)
        ensures
            c.server_addr is None && c.token is None && c.server_url is None && c.jwt is None
                && c.jwt_expires_at is None,
    {
        CliConfig { server_addr: None, token: None, server_url: None, jwt: None, jwt_expires_at: None }
    }

    /// The path of `.borehole.json` in the home directory `home`; the home
    /// directory must be known and not empty.
    pub fn path(home: Option<&str>) -> (r: Result<String, ConfigError>)
        ensures
            match home {
                Some(h) if h@.len() > 0 => r matches Ok(p) && p@ == joined(h@, config_file_name()),
                _ => r == Err::<String, ConfigError>(ConfigError::NoHomeDir),
            },
    {
        proof {
            reveal_strlit(".borehole.json");
        }
        assert(".borehole.json"@ =~= config_file_name());
        match home {
            Some(h) => {
                if h.unicode_len() > 0 {
                    Ok(join_path(h, ".borehole.json"))
                } else {
                    Err(ConfigError::NoHomeDir)
                }
            },
            None => Err(ConfigError::NoHomeDir),
        }
    }

    /// Returns the configured server address, or a descriptive error.
    pub fn require_server_addr(&self) -> (r: Result<String, ConfigError>)
        ensures
            match present(self.server_addr) {
                Some(s) => r matches Ok(t) && t@ == s,
                None => r == Err::<String, ConfigError>(ConfigError::NoServer),
            },
    {
        require(&self.server_addr, ConfigError::NoServer)
    }

    /// Returns the configured token, or a descriptive error.
    pub fn require_token(&self) -> (r: Result<String, ConfigError>)
        ensures
            match present(self.token) {
                Some(s) => r matches Ok(t) && t@ == s,
                None => r == Err::<String, ConfigError>(ConfigError::NoToken),
            },
    {
        require(&self.token, ConfigError::NoToken)
    }

    /// Returns the configured dashboard URL, or a descriptive error.
    pub fn require_server_url(&self) -> (r: Result<String, ConfigError>)
        ensures
            match present(self.server_url) {
                Some(s) => r matches Ok(t) && t@ == s,
                None => r == Err::<String, ConfigError>(ConfigError::NoServerUrl),
            },
    {
        require(&self.server_url, ConfigError::NoServerUrl)
    }

    /// Returns the stored JWT, or a descriptive error.
    pub fn require_jwt(&self) -> (r: Result<String, ConfigError>)
        ensures
            match present(self.jwt) {
                Some(s) => r matches Ok(t) && t@ == s,
                None => r == Err::<String, ConfigError>(ConfigError::NotAuthenticated),
            },
    {
        require(&self.jwt, ConfigError::NotAuthenticated)
    }

    /// Whether the stored JWT is expired at instant `now` (seconds and
    /// nanoseconds after the epoch). A missing or unparseable expiry is
    /// treated as expired.
    pub fn jwt_expired_at(&self, now: (i64, u32)) -> (r: bool)
        ensures
            r == jwt_expired(self.jwt_expires_at, now),
    {
        match &self.jwt_expires_at {
            Some(s) => match parse_rfc3339(s.as_str()) {
                Some(expiry) => expiry.0 < now.0 || (expiry.0 == now.0 && expiry.1 <= now.1),
                None => true,
            },
            None => true,
        }
    }

    /// Reports whether the stored JWT is missing or past its expiry now.
    pub fn is_jwt_expired(&self) -> (r: bool)
        ensures
            self.jwt_expires_at is None ==> r,
            (self.jwt_expires_at matches Some(s) && rfc3339_instant(s@) is None) ==> r,
            exists|now: (i64, u32)| now.0 >= 0 && now.1 < 1_000_000_000 && r == jwt_expired(self.jwt_expires_at, now),
    {
        let now = UtcTime::now();
        self.jwt_expired_at((now.secs(), now.nanos()))
    }

    /// Stores the JWT and its expiry received by a browser login.
    pub fn record_login(&mut self, token: String, expires_at: Option<String>)
        ensures
            final(self).jwt == Some(token),
            final(self).jwt_expires_at == expires_at,
            final(self).server_addr == old(self).server_addr,
            final(self).token == old(self).token,
            final(self).server_url == old(self).server_url,
    {
        self.jwt = Some(token);
        self.jwt_expires_at = expires_at;
    }

    /// `borehole config` with flags: each given flag overwrites its field.
    pub fn apply_flags(&mut self, server: Option<String>, token: Option<String>, url: Option<String>)
        ensures
            final(self).server_addr == (if server is Some { server } else { old(self).server_addr }),
            final(self).token == (if token is Some { token } else { old(self).token }),
            final(self).server_url == (if url is Some { url } else { old(self).server_url }),
            final(self).jwt == old(self).jwt,
            final(self).jwt_expires_at == old(self).jwt_expires_at,
    {
        if server.is_some() {
            self.server_addr = server;
        }
        if token.is_some() {
            self.token = token;
        }
        if url.is_some() {
            self.server_url = url;
        }
    }
}

/// `borehole config` asks interactively only when no flag is given.
pub fn needs_wizard(server: &Option<String>, token: &Option<String>, url: &Option<String>) -> (r: bool)
    ensures
        r == (server is None && token is None && url is None),
{
    server.is_none() && token.is_none() && url.is_none()
}

} // verus!
