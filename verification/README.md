# borehole

A self-hosted TCP/HTTP reverse tunnel: a CLI exposes a local port through a
server you run yourself, over an authenticated TLS control channel, optionally
routed through edge nodes.

This crate is written in Verus. Its library (`src/`) holds the logic of the
three programs with machine-checked contracts:

- `proto`, `text`, `callback`: the control protocol's framing, the text
  helpers the parsers share, and the parsing of the browser-login callback;
- `server_state`, `control`, `port_pool`, `nodes`, `tunnel_registry`,
  `devices`, `history`, `events`: the server's bookkeeping and the decisions of
  its control plane, with laws such as "a tunnel's whole life leaves the port
  pool as it found it";
- `tunnel_session`: the order of work in one CLI's tunnel session, as a state
  machine the server drives (node or direct path, fallback, visitors, retiring);
- `auth`, `api_tokens`, `api`: dashboard authentication, API tokens and REST
  rows;
- `cli_config`, `client`, `tunnel_records`, `update`, `node_agent`: the CLI's
  configuration, tunnel client, background records and self-update, and the
  edge node's decisions;
- `clock`, `ids`, `text_map`: instants, random ids and a small map keyed by
  text.

Calls into outside crates (rand, uuid, chrono, sha2, semver and a few std
functions) go through small trusted wrappers whose contracts state what those
crates document.

`app/` is ordinary Rust around the library: sockets, TLS, the HTTP API, the
command line, files, and the serde copies of the library's types. `tests/`
exercises the library on concrete values.
