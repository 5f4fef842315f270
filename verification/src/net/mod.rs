//! Sockets.

pub mod tcp;

pub use tcp::{TcpAccpeter, TcpListener, TcpSteam, TcpStreamReader, TcpStreamWriter};
