//! NFSv4.1 (RFC 5661).

use vstd::prelude::*;

pub mod acl_ops;
pub mod callback;
pub mod calls;
pub mod compound;
pub mod delegation;
pub mod dir_ops;
pub mod layout;
pub mod lease;
pub mod lookup;
pub mod response;
pub mod results;

pub use crate::nfs4::status::Nfs4ErrorCode;

verus! {

/// NFSv4 program number (same as v3, different version).
pub const NFS4_PROGRAM: u32 = 100003;

/// NFSv4 RPC version.
pub const NFS4_VERSION: u32 = 4;

/// NFSv4.1 minor version (used in COMPOUND args).
pub const NFS41_MINOR_VERSION: u32 = 1;

/// COMPOUND procedure number (the only procedure in NFSv4).
pub const NFS4_COMPOUND_PROC: u32 = 1;

/// NULL procedure number.
pub const NFS4_NULL_PROC: u32 = 0;

/// Default NFS port for v4.x (no portmapper needed).
pub const NFS4_DEFAULT_PORT: u16 = 2049;

} // verus!
