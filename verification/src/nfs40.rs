//! NFSv4.0 (RFC 7530).

pub mod callback;
pub mod calls;
pub mod compound;
pub mod directory;
pub mod files;
pub mod lease;
pub mod metadata;
pub mod locking;
pub mod mount;
pub mod names;
pub mod recovery;
pub mod replies;
pub mod settlement;
pub mod state;
