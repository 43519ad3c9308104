//! Verified core of the MetalBond route distribution protocol.
//!
//! MetalBond distributes virtual network routes between hypervisors over TCP. The crate holds what
//! its clients and servers decide and compute; opening connections, sending and receiving is left
//! to the caller.
//!
//! - [`wire`], [`stream`]: messages, their bytes, and messages in a stream of bytes
//! - [`proto`], [`pb`]: the payloads, as Protobuf messages
//! - [`types`], [`route`], [`ip`]: VNIs, destinations, next hops, routes and tables of them
//! - [`peer`], [`handshake`]: the connection of a client to one server
//! - [`client`], [`multi`], [`origins`]: a client with one or more servers
//! - [`server`], [`session`]: the routing state of a server and its side of a connection
//! - [`netlink`]: which routes go into the kernel

pub mod client;
pub mod error;
pub mod handler;
pub mod handshake;
pub mod ip;
pub mod members;
pub mod multi;
pub mod netlink;
pub mod origins;
pub mod pb;
pub mod peer;
pub mod proto;
pub mod route;
pub mod server;
pub mod session;
pub mod stream;
pub mod text;
pub mod types;
pub mod wire;

pub use crate::client::{ClientState, MetalBondClient, ServerId};
pub use crate::error::Error;
pub use crate::handler::{NoOpHandler, RouteEvent, RouteHandler};
pub use crate::route::{Route, RouteTable};
pub use crate::server::ServerConfig;
pub use crate::types::{
    Action, ConnectionState, Destination, IpVersion, NextHop, NextHopType, Vni,
};
