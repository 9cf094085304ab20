//! Access control lists of NFSv4.1: which attributes carry them, and what the replies mean.

use bytes::Bytes;
use vstd::prelude::*;

use crate::buffer::{as_slice, contents, duplicate};
use crate::error::{xdr_error, ErrorView, NfsError, Result};
use crate::nfs4::attrs::holds_attr;
use crate::nfs4::compound::Decoded;
use crate::nfs4::status::Nfs4ErrorCode;
use crate::nfs41::compound::{CompoundBuilder, OpNum};
use crate::nfs41::dir_ops::{expect_ops, op_at, ops_done};
use crate::nfs41::response::{CompoundResponse, ResponseView};
use crate::xdr::{bitmap4, opaque};

verus! {

/// The attribute with the access control list of a file.
pub const FATTR4_ACL: u32 = 12;

/// The attribute that says which entries of lists the server supports.
pub const FATTR4_ACLSUPPORT: u32 = 13;

/// The attribute with the discretionary list.
pub const FATTR4_DACL: u32 = 58;

/// The attribute with the system list.
pub const FATTR4_SACL: u32 = 59;

/// The bitmap that holds just one of these attributes.
pub open spec fn acl_bitmap(attribute: u32) -> Seq<u32> {
    if attribute < 32 {
        seq![1u32 << attribute]
    } else {
        seq![0u32, 1u32 << ((attribute - 32) as u32)]
    }
}

/// The bitmap that holds just one attribute.
pub fn single_bitmap(attribute: u32) -> (bitmap: Vec<u32>)
    requires
        attribute < 64,
    ensures
        bitmap@ == acl_bitmap(attribute),
{
    let mut bitmap: Vec<u32> = Vec::new();
    if attribute < 32 {
        bitmap.push(1u32 << attribute);
    } else {
        bitmap.push(0);
        let bit: u32 = attribute - 32;
        bitmap.push(1u32 << bit);
    }
    assert(bitmap@ =~= acl_bitmap(attribute));
    bitmap
}

/// Adds the request for one of these attributes.
pub fn get_acl_ops(builder: CompoundBuilder, fh: &Bytes, attribute: u32) -> (out: CompoundBuilder)
    requires
        attribute < 64,
    ensures
        out@ == builder@.with_op(OpNum::PutFh, opaque(contents(*fh))).with_op(
            OpNum::GetAttr,
            bitmap4(acl_bitmap(attribute)),
        ),
{
    let bitmap = single_bitmap(attribute);
    builder.putfh(as_slice(fh)).getattr(&bitmap)
}

/// The attributes in the reply: their bitmap and their values.
pub open spec fn acl_data(response: ResponseView) -> Decoded<Seq<u8>> {
    match ops_done(response, 1, 1) {
        Err(error) => Err(error),
        Ok(_) => match op_at(response, 2) {
            Err(error) => Err(error),
            Ok(op) => Ok(op.data),
        },
    }
}

pub fn get_acl_result(response: &CompoundResponse) -> (data: Result<Bytes>)
    ensures
        match acl_data(response@) {
            Ok(expected) => data is Ok && contents(data->Ok_0) == expected,
            Err(error) => data is Err && data->Err_0@ == error,
        },
{
    expect_ops(response, 1, 1)?;
    let getattr = response.op_ok(2)?;
    Ok(duplicate(&getattr.data))
}

/// Adds the setting of attributes without an open file.
pub fn set_acl_ops(builder: CompoundBuilder, fh: &Bytes, attrmask: &[u32], attr_vals: &[u8]) -> (out:
    CompoundBuilder)
    ensures
        out@ == builder@.with_op(OpNum::PutFh, opaque(contents(*fh))).with_op(
            OpNum::SetAttr,
            Seq::new(16, |i: int| 0u8) + bitmap4(attrmask@) + opaque(attr_vals@),
        ),
{
    let stateid: [u8; 16] = [0u8; 16];
    assert(stateid@ =~= Seq::new(16, |i: int| 0u8));
    builder.putfh(as_slice(fh)).setattr(&stateid, attrmask, attr_vals)
}

/// Whether the list of a file was set.
pub open spec fn acl_set(response: ResponseView) -> Decoded<()> {
    match ops_done(response, 1, 1) {
        Err(error) => Err(error),
        Ok(_) => if response.results.len() <= 2 {
            Err(ErrorView::Xdr("SETATTR response missing op at index 2"@))
        } else if response.results[2].status != Nfs4ErrorCode::NFS4_OK {
            Err(ErrorView::Nfs4(response.results[2].status))
        } else {
            Ok(())
        },
    }
}

pub fn setacl_result(response: &CompoundResponse) -> (result: Result<()>)
    ensures
        match acl_set(response@) {
            Ok(_) => result is Ok,
            Err(error) => result is Err && result->Err_0@ == error,
        },
{
    expect_ops(response, 1, 1)?;
    if response.results.len() <= 2 {
        return Err(xdr_error("SETATTR response missing op at index 2"));
    }
    assert(response@.results[2] == response.results@[2]@);
    match response.results[2].status {
        Nfs4ErrorCode::NFS4_OK => Ok(()),
        status => Err(NfsError::Nfs4(status)),
    }
}

/// Whether a discretionary or a system list was set.
pub fn set_acl41_result(response: &CompoundResponse) -> (result: Result<()>)
    ensures
        match ops_done(response@, 1, 2) {
            Ok(_) => result is Ok,
            Err(error) => result is Err && result->Err_0@ == error,
        },
{
    expect_ops(response, 1, 2)
}

/// The bitmap for an access control list holds just that attribute.
pub proof fn law_acl_bitmap_holds_one_attribute(attribute: u32, other: u32)
    requires
        attribute < 64,
    ensures
        holds_attr(acl_bitmap(attribute), other) <==> other == attribute,
{
    let bit = other % 32;
    let own = attribute % 32;
    assert(((1u32 << own) & (1u32 << bit) != 0) == (own == bit)) by (bit_vector)
        requires
            own < 32,
            bit < 32,
    ;
    assert(0u32 & (1u32 << bit) == 0) by (bit_vector);
    if attribute < 32 {
        assert(acl_bitmap(attribute)[0] == 1u32 << own);
    } else {
        assert(acl_bitmap(attribute)[1] == 1u32 << own);
        assert(acl_bitmap(attribute)[0] == 0);
    }
}

/// An access control list is what GETATTR, the third operation, returned, where PUTFH before it
/// and GETATTR itself succeeded; setting one is done where both succeeded.
pub proof fn law_acl_is_what_getattr_returned(response: ResponseView)
    requires
        response.results.len() >= 3,
    ensures
        ({
            let done = response.results[1].status == Nfs4ErrorCode::NFS4_OK
                && response.results[2].status == Nfs4ErrorCode::NFS4_OK;
            &&& acl_data(response) is Ok <==> done
            &&& done ==> acl_data(response) == Ok::<Seq<u8>, ErrorView>(response.results[2].data)
            &&& acl_set(response) is Ok <==> done
            &&& response.results[1].status == Nfs4ErrorCode::NFS4_OK && !done ==> acl_set(response)
                == Err::<(), ErrorView>(ErrorView::Nfs4(response.results[2].status))
        }),
{
    reveal_with_fuel(ops_done, 2);
}


} // verus!
