//! A small HTTP/1.1 server library: request parsing, route resolution,
//! content negotiation and response serialization, with their contracts.
pub mod connection;
pub mod encode;
pub mod handler;
pub mod http;
pub mod response;
pub mod router;
pub mod server;
pub mod strmap;
pub mod text;
