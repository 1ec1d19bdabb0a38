//! Framing layer for TCPLS: typed frames carried inside TLS plaintext
//! records, multiplexed byte streams, and record-level acknowledgements.

pub mod connection;
pub mod error;
pub mod exchange;
pub mod frame;
pub mod stream;
pub mod utils;

pub use connection::{Role, TcplsConnection};
pub use error::Error;
