//! The return of a recalled delegation.

use bytes::Bytes;
use vstd::prelude::*;

use crate::buffer::{as_slice, contents};
use crate::error::{ErrorView, NfsError, Result};
use crate::nfs4::compound::{Decoded, OP_PUTFH};
use crate::nfs4::status::Nfs4ErrorCode;
use crate::nfs40::callback::RecallNotification;
use crate::nfs40::compound::{
    decode_delegreturn_response, putfh_and, CompoundBuilder, OP_COMMIT, OP_DELEGRETURN,
};
use crate::nfs40::names::empty_request;
use crate::xdr::{be32, be64, opaque};

verus! {

/// The request that makes the bytes of a file stable before its delegation is returned, if
/// they have to be.
pub fn flush_request(recall: &RecallNotification) -> (request: Option<CompoundBuilder>)
    ensures
        if recall@.flush {
            request is Some && request->Some_0@ == empty_request("delegation-flush"@).with_op(
                OP_PUTFH,
                opaque(recall@.fh),
            ).with_op(OP_COMMIT, be64(0) + be32(0))
        } else {
            request is None
        },
{
    if recall.flush {
        Some(CompoundBuilder::new("delegation-flush").putfh(as_slice(&recall.fh)).commit(0, 0))
    } else {
        None
    }
}

/// The request that returns a delegation.
pub fn return_request(recall: &RecallNotification) -> (request: CompoundBuilder)
    ensures
        request@ == empty_request("delegreturn"@).with_op(OP_PUTFH, opaque(recall@.fh)).with_op(
            OP_DELEGRETURN,
            recall@.stateid,
        ),
{
    CompoundBuilder::new("delegreturn").putfh(as_slice(&recall.fh)).delegreturn(&recall.stateid)
}

/// Whether a status says that the server has taken a delegation back already.
pub open spec fn already_taken(status: Nfs4ErrorCode) -> bool {
    ||| status == Nfs4ErrorCode::NFS4ERR_ADMIN_REVOKED
    ||| status == Nfs4ErrorCode::NFS4ERR_DELEG_REVOKED
    ||| status == Nfs4ErrorCode::NFS4ERR_EXPIRED
    ||| status == Nfs4ErrorCode::NFS4ERR_BAD_STATEID
    ||| status == Nfs4ErrorCode::NFS4ERR_STALE_STATEID
    ||| status == Nfs4ErrorCode::NFS4ERR_OLD_STATEID
}

/// Whether a delegation is returned by the reply to DELEGRETURN.
pub open spec fn returned(reply: Seq<u8>) -> Decoded<()> {
    match putfh_and(reply, OP_DELEGRETURN, "DELEGRETURN"@) {
        Ok(_) => Ok(()),
        Err(ErrorView::Nfs4(status)) if already_taken(status) => Ok(()),
        Err(error) => Err(error),
    }
}

/// Takes in the reply to DELEGRETURN. A delegation that the server has taken back already
/// needs no return.
pub fn finish_return(reply: Bytes) -> (result: Result<()>)
    ensures
        match returned(contents(reply)) {
            Ok(_) => result is Ok,
            Err(error) => result is Err && result->Err_0@ == error,
        },
{
    match decode_delegreturn_response(reply) {
        Ok(()) => Ok(()),
        Err(error) => {
            let taken = match &error {
                NfsError::Nfs4(status) => match status {
                    Nfs4ErrorCode::NFS4ERR_ADMIN_REVOKED => true,
                    Nfs4ErrorCode::NFS4ERR_DELEG_REVOKED => true,
                    Nfs4ErrorCode::NFS4ERR_EXPIRED => true,
                    Nfs4ErrorCode::NFS4ERR_BAD_STATEID => true,
                    Nfs4ErrorCode::NFS4ERR_STALE_STATEID => true,
                    Nfs4ErrorCode::NFS4ERR_OLD_STATEID => true,
                    _ => false,
                },
                _ => false,
            };
            if taken {
                Ok(())
            } else {
                Err(error)
            }
        },
    }
}

/// A delegation that the server has taken away already counts as returned; any other failure
/// does not.
pub proof fn law_return_is_settled(reply: Seq<u8>, status: Nfs4ErrorCode)
    requires
        putfh_and(reply, 8, "DELEGRETURN"@) == Err::<((), Seq<u8>), ErrorView>(
            ErrorView::Nfs4(status),
        ),
    ensures
        returned(reply) is Ok <==> (status == Nfs4ErrorCode::NFS4ERR_EXPIRED || status
            == Nfs4ErrorCode::NFS4ERR_STALE_STATEID || status == Nfs4ErrorCode::NFS4ERR_OLD_STATEID
            || status == Nfs4ErrorCode::NFS4ERR_BAD_STATEID || status
            == Nfs4ErrorCode::NFS4ERR_ADMIN_REVOKED || status
            == Nfs4ErrorCode::NFS4ERR_DELEG_REVOKED),
        returned(reply) is Err ==> returned(reply) == Err::<(), ErrorView>(
            ErrorView::Nfs4(status),
        ),
{
}

/// A delegation that the server took back is returned.
pub proof fn law_answered_return_is_done(tag: Seq<u8>, rest: Seq<u8>)
    requires
        tag.len() <= u32::MAX,
    ensures
        returned(crate::nfs40::replies::reply_on_file(tag, 8, rest)) is Ok,
{
    crate::nfs40::replies::law_reply_on_file_is_read(tag, 8, "DELEGRETURN"@, 2, rest);
}


} // verus!
