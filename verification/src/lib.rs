//! A TCP/UDP reverse proxy: the decisions that its control server, its
//! proxies and its client tunnels make, each with a contract.
//!
//! - `text`: `host:port` addresses, their host and port parts, decimal ports.
//! - `command`: the commands the control ports receive, and the control state.
//! - `api`: the control server and what it does with each command.
//! - `dns`: what a proxy keeps of a lookup of its remote address.
//! - `tcp`, `udp`: the two proxies; `tunnel`: the UDP client tunnels.
pub mod api;
pub mod command;
pub mod dns;
pub mod tcp;
pub mod text;
pub mod tunnel;
pub mod udp;

pub use api::{APIServer, ApiAction, ProxyPlan};
pub use command::{APICommand, Command, ControlOutcome, ControlState};
pub use dns::DNSResolve;
pub use tcp::TCPProxy;
pub use tunnel::{PeerAddr, TunnelTable};
pub use udp::{MessageType, RelayAction, UDPProxy};
