//! Verified core of borehole, a self-hosted TCP/HTTP reverse tunnel: the
//! control-protocol framing, the server's control-plane state (port pool,
//! nodes, open tunnels, devices, history) and dashboard API, the CLI's
//! configuration, login callback and tunnel client, and the edge node's
//! decisions.

pub mod api;
pub mod api_tokens;
pub mod auth;
pub mod callback;
pub mod cli_config;
pub mod client;
pub mod clock;
pub mod control;
pub mod devices;
pub mod events;
pub mod history;
pub mod ids;
pub mod node_agent;
pub mod nodes;
pub mod port_pool;
pub mod proto;
pub mod server_config;
pub mod server_state;
pub mod text;
pub mod text_map;
pub mod tunnel_records;
pub mod tunnel_session;
pub mod tunnel_registry;
pub mod update;
