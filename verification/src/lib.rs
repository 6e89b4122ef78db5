//! A server for voice devices: they register over HTTP, ask for firmware, and talk over WebSocket
//! connections.
//!
//! The library decides everything that the server answers. It takes in lines, requests, frames and
//! events, and gives back responses and bytes to write; sockets and threads are left to its user.
//!
//! - [`server`] answers a request; [`routes`] and [`upgrade`] hold its two halves.
//! - [`messages`] is the course of a WebSocket connection, [`frame`] its frames and [`handshake`]
//!   its key, made with [`sha1`] and [`base64`]; [`digest`] states what a digest is.
//! - [`session`] keeps the devices, [`firmware`] chooses what they run.
//! - [`http`], [`json`], [`text`], [`bytes`], [`map`] and [`clock`] are what these are built from.
//! - [`laws`] states what holds of the server as a whole.

pub mod base64;
pub mod bytes;
pub mod clock;
pub mod digest;
pub mod firmware;
pub mod frame;
pub mod handshake;
pub mod http;
pub mod json;
pub mod laws;
pub mod map;
pub mod messages;
pub mod routes;
pub mod server;
pub mod session;
pub mod sha1;
pub mod text;
pub mod upgrade;
