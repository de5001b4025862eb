//! A codec for IPv4 and TCP headers.
//!
//! Layer values are plain records. They are built by a constructor or read
//! from captured bytes, and written back into a caller-owned buffer with
//! their length fields and checksums recomputed. Every function is stated
//! over the bytes on the wire and proved against that statement.

pub mod addr;
pub mod checksum;
pub mod ipv4;
pub mod layer;
pub mod options;
pub mod tcp;
pub mod text;
pub mod wire;

pub use addr::Ipv4Addr;
pub use ipv4::{Ipv4, Ipv4Header};
pub use layer::{Layer, LayerType, SerializeError};
pub use options::OptionRecord;
pub use tcp::{Tcp, TcpHeader};
