//! A framed packet protocol for tunnelling TCP traffic through a relay server,
//! and the decisions that the relay and its local client take on each frame.
//!
//! - `wire`: the byte layout of integers, strings and messages.
//! - `packet`: frame headers and frames, and how they are packed and read.
//! - `proto`: the tunnel's packet kinds and its data and bind messages.
//! - `frame`: reading frames off a stream, one read at a time.
//! - `http`: reading an outside user's HTTP request off its connection.
//! - `table`: the address sets and the host table.
//! - `route`: the relay's routing of requests, answers, binds and disconnects.
//! - `session`: the local client's side of the tunnel.
pub mod wire;
mod codec;
pub mod packet;
pub mod proto;
pub mod frame;
pub mod http;
pub mod table;
pub mod route;
pub mod session;
