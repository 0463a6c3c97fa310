//! Server and node configuration, as the JSON files on disk describe them, and
//! the addresses derived from them.

use vstd::prelude::*;

use crate::auth::UserConfig;
use crate::text::{host_of, host_part, host_port, parse_u16, parsed_u16, split_host_port};

verus! {

/// Paths to the TLS certificate and private key (PEM).
#[derive(Debug, Clone)]
pub struct TlsConfig {
    /// Path to the certificate chain PEM.
    pub cert: String,
    /// Path to the private key PEM.
    pub key: String,
}

/// Top-level server configuration.
#[derive(Debug, Clone)]
pub struct ServerConfig {
    /// Address for the control plane, e.g. "0.0.0.0:7000".
    pub bind_control: String,
    /// Address for the public HTTP plane, e.g. "0.0.0.0:80".
    pub bind_http: String,
    /// Inclusive range of public ports the server may assign.
    pub port_range: [u16; 2],
    /// Accepted client authentication tokens.
    pub tokens: Vec<String>,
    /// Secret used to sign dashboard JWTs (HS256).
    pub jwt_secret: String,
    /// Dashboard users.
    pub users: Vec<UserConfig>,
    /// TLS material for the control plane.
    pub tls: TlsConfig,
}

/// On-disk configuration for a `borehole-node` agent.
#[derive(Debug, Clone)]
pub struct NodeConfig {
    /// Server control-plane address (TLS), e.g. "1.2.3.4:7000".
    pub server_addr: String,
    /// Token presented to the server in `RegisterNode`.
    pub token: String,
    /// Node name, e.g. "frankfurt".
    pub name: String,
    /// Plain-TCP port advertised to the server as the node's data endpoint.
    pub data_port: u16,
    /// Plain-TCP address the node listens on for CLI `DataConn`s.
    pub data_bind: String,
}

/// `p + 1`, saturating at 65535.
pub open spec fn next_port(p: u16) -> u16 {
    if p == u16::MAX {
        u16::MAX
    } else {
        (p + 1) as u16
    }
}

/// The data port of a control address: its port plus one (saturating), or 0
/// when the address has no parseable port.
pub open spec fn data_port_of(bind: Seq<char>) -> u16 {
    match host_port(bind) {
        Some((_, p)) => match parsed_u16(p) {
            Some(v) => next_port(v),
            None => 0,
        },
        None => 0,
    }
}

impl ServerConfig {
    /// Plain-TCP port for CLI data connections: the control port plus one
    /// (e.g. control :7000 -> data :7001). Falls back to 0 if `bind_control`
    /// has no parseable port (the data listener bind then surfaces the error).
    pub fn data_port(&self) -> (r: u16)
        ensures
            r == data_port_of(self.bind_control@),
    {
        match split_host_port(self.bind_control.as_str()) {
            Some((_, port)) => match parse_u16(port) {
                Some(v) => v.saturating_add(1),
                None => 0,
            },
            None => 0,
        }
    }
}

/// Extracts the host part of a `host:port` bind address (used to bind the
/// data listener on the same interface as the control listener).
pub fn control_host(bind: &str) -> (r: &str)
    ensures
        r@ == host_part(bind@),
{
    host_of(bind)
}

/// Default configuration path of the server.
pub const DEFAULT_SERVER_CONFIG: &'static str = "/etc/borehole/config.json";

/// Default configuration path of a node.
pub const DEFAULT_NODE_CONFIG: &'static str = "/etc/borehole/node.json";

/// The path given by the first `--config <path>` of the arguments (the
/// program name excluded), or `default` when there is none.
pub open spec fn config_path_arg(args: Seq<String>, default: Seq<char>) -> Seq<char>
    decreases args.len(),
{
    if args.len() < 2 {
        default
    } else if args[0]@ == "--config"@ {
        args[1]@
    } else {
        config_path_arg(args.subrange(1, args.len() as int), default)
    }
}

/// Returns the path passed via `--config <path>`, or `default` when absent.
pub fn config_path_from_args(args: &Vec<String>, default: &str) -> (r: String)
    ensures
        r@ == config_path_arg(args@, default@),
{
    let n = args.len();
    let mut i: usize = 0;
    assert(args@.subrange(0, n as int) =~= args@);
    while i < n
        invariant
            n == args@.len(),
            i <= n,
            config_path_arg(args@, default@) == config_path_arg(args@.subrange(i as int, n as int), default@),
        decreases n - i,
    {
        let ghost rest = args@.subrange(i as int, n as int);
        if crate::text::same_text(args[i].as_str(), "--config") {
            if i + 1 < n {
                assert(rest[0] == args@[i as int] && rest[1] == args@[i + 1]);
                return args[i + 1].clone();
            }
            assert(rest.len() < 2);
            i = n;
        } else {
            if n - i < 2 {
                assert(rest.len() < 2);
                i = n;
            } else {
                assert(rest[0] == args@[i as int]);
                assert(rest.subrange(1, rest.len() as int) =~= args@.subrange(i + 1, n as int));
                i = i + 1;
            }
        }
    }
    assert(args@.subrange(n as int, n as int).len() == 0);
    String::from_str(default)
}

} // verus!
