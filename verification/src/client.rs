//! Decisions of the CLI's tunnel client: what the server's answer to a
//! registration means, where a visitor's data connection goes, whether to
//! reconnect, and the URL of the browser login.

use vstd::prelude::*;

use crate::proto::{Message, NewConn, Protocol, Registered};
use crate::server_config::{data_port_of, next_port};
use crate::text::{decimal, host_port, parse_u16, parsed_u16, push_char, push_decimal, split_host_port};

verus! {

/// Why a server address gives no data address.
#[derive(Debug, Clone, Copy, PartialEq, Eq, Structural)]
pub enum AddrError {
    /// The address has no `:`.
    MissingPort,
    /// What follows the last `:` is not a port number.
    InvalidPort,
}

/// The message shown to the user for each malformed address.
pub open spec fn addr_error_text(e: AddrError) -> Seq<char> {
    match e {
        AddrError::MissingPort => "server address must be host:port"@,
        AddrError::InvalidPort => "invalid server port"@,
    }
}

impl AddrError {
    /// The message shown to the user.
    pub fn message(&self) -> (r: &'static str)
        ensures
            r@ == addr_error_text(*self),
    {
        match self {
            AddrError::MissingPort => "server address must be host:port",
            AddrError::InvalidPort => "invalid server port",
        }
    }
}

/// `host:port` text.
pub open spec fn address_text(host: Seq<char>, port: u16) -> Seq<char> {
    host + seq![':'] + decimal(port as nat)
}

/// Derives the data address (`host:control_port+1`, saturating) from the
/// control address.
pub fn data_addr_of(addr: &str) -> (r: Result<String, AddrError>)
    ensures
        match host_port(addr@) {
            None => r == Err::<String, AddrError>(AddrError::MissingPort),
            Some((h, p)) => match parsed_u16(p) {
                None => r == Err::<String, AddrError>(AddrError::InvalidPort),
                Some(v) => r matches Ok(t) && t@ == address_text(h, next_port(v)),
            },
        },
{
    let (host, port) = match split_host_port(addr) {
        Some(pair) => pair,
        None => return Err(AddrError::MissingPort),
    };
    let port = match parse_u16(port) {
        Some(p) => p,
        None => return Err(AddrError::InvalidPort),
    };
    Ok(address_text_of(host, port.saturating_add(1)))
}

/// Writes `host:port`.
pub fn address_text_of(host: &str, port: u16) -> (r: String)
    ensures
        r@ == address_text(host@, port),
{
    let mut out = String::from_str(host);
    push_char(&mut out, ':');
    push_decimal(&mut out, port as u64);
    out
}

/// What the server's reply to `Register` means: the assigned port, or the
/// reason registration failed.
pub fn registration_verdict(reply: Message) -> (r: Result<u16, String>)
    ensures
        match reply {
            Message::Registered(Registered { remote_port, .. }) => r == Ok::<u16, String>(remote_port),
            Message::Error(e) => r == Err::<u16, String>(e.reason),
            _ => r matches Err(t) && t@ == "unexpected message from server"@,
        },
{
    match reply {
        Message::Registered(reg) => Ok(reg.remote_port),
        Message::Error(e) => Err(e.reason),
        _ => Err(String::from_str("unexpected message from server")),
    }
}

/// The URL the banner of an HTTP tunnel shows: `http://host:port`; a TCP
/// tunnel has none.
pub fn public_url(host: &str, port: u16, protocol: Protocol) -> (r: Option<String>)
    ensures
        match protocol {
            Protocol::Http => r matches Some(u) && u@ == "http://"@ + address_text(host@, port),
            Protocol::Tcp => r is None,
        },
{
    match protocol {
        Protocol::Http => {
            let mut url = String::from_str("http://");
            let addr = address_text_of(host, port);
            url.append(addr.as_str());
            Some(url)
        },
        Protocol::Tcp => None,
    }
}

/// A visitor the server announced: serve it with a data connection.
#[derive(Debug, Clone)]
pub struct VisitorRequest {
    pub conn_id: String,
    /// The node to dial, when the tunnel is hosted on one.
    pub node: Option<(String, u16)>,
}

/// The visitor a control frame announces, if it is a `NewConn`; the node is
/// known only when both its host and port are given. Other frames are ignored.
pub fn visitor_request(frame: Message) -> (r: Option<VisitorRequest>)
    ensures
        match frame {
            Message::NewConn(NewConn { conn_id, node_host, node_port }) => r matches Some(v) && v.conn_id
                == conn_id && v.node == match (node_host, node_port) {
                (Some(h), Some(p)) => Some((h, p)),
                _ => None,
            },
            _ => r is None,
        },
{
    match frame {
        Message::NewConn(n) => {
            let node = match (n.node_host, n.node_port) {
                (Some(h), Some(p)) => Some((h, p)),
                _ => None,
            };
            Some(VisitorRequest { conn_id: n.conn_id, node })
        },
        _ => None,
    }
}

/// Where a visitor's data connection goes: the node when the tunnel is on
/// one, otherwise the server's data port (control port + 1).
pub fn data_endpoint(server_addr: &str, node: &Option<(String, u16)>) -> (r: Result<String, AddrError>)
    ensures
        match node {
            Some((h, p)) => r matches Ok(t) && t@ == address_text(h@, *p),
            None => match host_port(server_addr@) {
                None => r == Err::<String, AddrError>(AddrError::MissingPort),
                Some((h, p)) => match parsed_u16(p) {
                    None => r == Err::<String, AddrError>(AddrError::InvalidPort),
                    Some(v) => r matches Ok(t) && t@ == address_text(h, next_port(v)),
                },
            },
        },
{
    match node {
        Some((host, port)) => Ok(address_text_of(host.as_str(), *port)),
        None => data_addr_of(server_addr),
    }
}

/// How many times an unexpectedly dropped tunnel is reopened.
pub const MAX_RECONNECTS: u32 = 3;

/// After a failed run, whether to reconnect (after `attempts` reconnections).
pub fn should_reconnect(attempts: u32) -> (r: bool)
    ensures
        r == (attempts < MAX_RECONNECTS),
{
    attempts < MAX_RECONNECTS
}

/// Number of `c` at the end of `s`.
pub open spec fn trailing_count(s: Seq<char>, c: char) -> nat
    decreases s.len(),
{
    if s.len() > 0 && s[s.len() - 1] == c {
        1 + trailing_count(s.subrange(0, s.len() - 1), c)
    } else {
        0
    }
}

/// `s` without its trailing `/`s (`str::trim_end_matches('/')`).
pub open spec fn without_trailing_slashes(s: Seq<char>) -> Seq<char> {
    s.subrange(0, s.len() - trailing_count(s, '/'))
}

/// The URL of the browser login: the dashboard's `/api/auth/cli` with the
/// local callback `http://localhost:<port>`.
pub open spec fn login_url_text(server_url: Seq<char>, port: u16) -> Seq<char> {
    without_trailing_slashes(server_url) + "/api/auth/cli?callback=http://localhost:"@ + decimal(port as nat)
}

/// Builds the browser login URL for a callback listener on `port`.
pub fn login_url(server_url: &str, port: u16) -> (r: String)
    ensures
        r@ == login_url_text(server_url@, port),
{
    let n = server_url.unicode_len();
    let mut j = n;
    assert(server_url@.subrange(0, n as int) =~= server_url@);
    while j > 0 && server_url.get_char(j - 1) == '/'
        invariant
            n == server_url@.len(),
            j <= n,
            trailing_count(server_url@, '/') == (n - j) + trailing_count(server_url@.subrange(0, j as int), '/'),
        decreases j,
    {
        assert(server_url@.subrange(0, j as int).subrange(0, j - 1) =~= server_url@.subrange(0, j - 1));
        j = j - 1;
    }
    if j > 0 {
        assert(server_url@.subrange(0, j as int)[j - 1] == server_url@[j - 1]);
    }
    let mut url = String::from_str(server_url.substring_char(0, j));
    url.append("/api/auth/cli?callback=http://localhost:");
    push_decimal(&mut url, port as u64);
    url
}

/// The data address the CLI dials is the one the server listens on: for a
/// control address with a port, the CLI's data address carries the port that
/// `ServerConfig::data_port` gives for that address.
pub proof fn law_client_dials_server_data_port(addr: Seq<char>)
    requires
        host_port(addr) matches Some((h, p)) && parsed_u16(p) is Some,
    ensures
        ({
            let (h, p) = host_port(addr).unwrap();
            address_text(h, next_port(parsed_u16(p).unwrap())) == address_text(h, data_port_of(addr))
        }),
{
}

} // verus!
