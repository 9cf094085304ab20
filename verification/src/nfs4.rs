//! What the two minor versions share.

pub mod acl;
pub mod attrs;
pub mod compound;
pub mod status;
