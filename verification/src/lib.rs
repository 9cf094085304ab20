//! An NFSv4 client core: the wire formats, callback services, lease and lock state
//! machines and parallel-layout rules of NFSv4.0 (RFC 7530) and NFSv4.1 (RFC 5661).
//!
//! Everything here computes on plain values. Sockets, tasks and clocks belong to the
//! program that drives the library.

pub mod buffer;
pub mod channel;
pub mod error;
pub mod net;
pub mod nfs4;
pub mod nfs40;
pub mod nfs41;
pub mod ordered;
pub mod path;
pub mod random;
pub mod rpc;
pub mod sort;
pub mod spelling;
pub mod table;
pub mod text;
pub mod time;
pub mod wire;
pub mod xdr;
