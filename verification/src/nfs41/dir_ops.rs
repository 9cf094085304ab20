//! Directory operations of NFSv4.1: what they add to a COMPOUND behind its SEQUENCE, and what
//! the reply means.

use bytes::Bytes;
use vstd::prelude::*;

use crate::buffer::{as_slice, contents, duplicate, get_u32, get_u64, prefix, remaining};
use crate::error::{xdr_error, ErrorView, Result};
use crate::nfs4::attrs::{
    decode_getattr_response, standard_bitmap, standard_getattr_bitmap, Attr, AttrView,
};
use crate::nfs4::compound::Decoded;
use crate::nfs4::status::Nfs4ErrorCode;
use crate::nfs40::names::{known, name_arg, object_is, ObjRes, ObjView};
use crate::nfs41::compound::{CompoundBuilder, OpNum};
use crate::nfs41::response::{CompoundResponse, OpResponse, OpResponseView, ResponseView};
use crate::text::decimal;
use crate::xdr::{be32, be64, bitmap4, bool32, hyper, opaque, padded, padded_len, word};

verus! {

/// The result of an operation, if it was done.
pub open spec fn op_at(response: ResponseView, index: nat) -> Decoded<OpResponseView> {
    if index >= response.results.len() {
        Err(ErrorView::Xdr("COMPOUND response missing op at index "@ + decimal(index)))
    } else if response.results[index as int].status != Nfs4ErrorCode::NFS4_OK {
        Err(ErrorView::Nfs4(response.results[index as int].status))
    } else {
        Ok(response.results[index as int])
    }
}

/// Whether `count` operations from an index on were done; the first that was not says why.
pub open spec fn ops_done(response: ResponseView, index: nat, count: nat) -> Decoded<()>
    decreases count,
{
    if count == 0 {
        Ok(())
    } else {
        match op_at(response, index) {
            Err(error) => Err(error),
            Ok(_) => ops_done(response, index + 1, (count - 1) as nat),
        }
    }
}

pub(crate) fn expect_ops(response: &CompoundResponse, index: usize, count: usize) -> (result: Result<()>)
    requires
        index + count <= usize::MAX,
    ensures
        match ops_done(response@, index as nat, count as nat) {
            Ok(_) => result is Ok,
            Err(error) => result is Err && result->Err_0@ == error,
        },
{
    let mut i: usize = 0;
    while i < count
        invariant
            i <= count,
            index + count <= usize::MAX,
            ops_done(response@, index as nat, count as nat) == ops_done(
                response@,
                (index + i) as nat,
                (count - i) as nat,
            ),
        decreases count - i,
    {
        let _ = response.op_ok(index + i)?;
        i += 1;
    }
    Ok(())
}

/// How a directory changed.
#[derive(Clone, Copy, Debug, PartialEq, Eq, Structural)]
pub struct ChangeInfo {
    pub atomic: bool,
    pub before: u64,
    pub after: u64,
}

/// A change_info4.
pub open spec fn change_info(s: Seq<u8>) -> Option<ChangeInfo> {
    if s.len() < 20 {
        None
    } else {
        Some(
            ChangeInfo {
                atomic: word(s) != 0,
                before: hyper(s.skip(4)),
                after: hyper(s.skip(12)),
            },
        )
    }
}

/// How an operation changed a directory.
pub fn parse_change_info(op: &OpResponse) -> (info: Option<ChangeInfo>)
    ensures
        info == change_info(op@.data),
{
    let ghost s = op@.data;
    let mut data = duplicate(&op.data);
    if remaining(&data) < 20 {
        return None;
    }
    let atomic = get_u32(&mut data) != 0;
    let before: u64 = get_u64(&mut data);
    let after: u64 = get_u64(&mut data);
    assert(s.skip(4).skip(8) =~= s.skip(12));
    Some(ChangeInfo { atomic, before, after })
}

/// The filehandle in the result of GETFH.
pub open spec fn filehandle(s: Seq<u8>) -> Decoded<Seq<u8>> {
    if s.len() < 4 {
        Err(ErrorView::Xdr("GETFH filehandle length truncated"@))
    } else if s.skip(4).len() < padded(word(s) as nat) {
        Err(ErrorView::Xdr("GETFH filehandle truncated"@))
    } else {
        Ok(s.skip(4).take(word(s) as int))
    }
}

pub fn decode_fh(data: &mut Bytes) -> (fh: Result<Bytes>)
    ensures
        match filehandle(contents(*old(data))) {
            Ok(expected) => fh is Ok && contents(fh->Ok_0) == expected,
            Err(error) => fh is Err && fh->Err_0@ == error,
        },
{
    if remaining(data) < 4 {
        return Err(xdr_error("GETFH filehandle length truncated"));
    }
    let len: u32 = get_u32(data);
    if (remaining(data) as u64) < padded_len(len) {
        return Err(xdr_error("GETFH filehandle truncated"));
    }
    Ok(prefix(data, len as usize))
}

/// The attributes in the result of an operation.
pub open spec fn attr_at(response: ResponseView, index: nat) -> Decoded<AttrView> {
    match op_at(response, index) {
        Err(error) => Err(error),
        Ok(op) => known(op.data),
    }
}

pub(crate) fn read_attr(response: &CompoundResponse, index: usize) -> (attr: Result<Attr>)
    ensures
        match attr_at(response@, index as nat) {
            Ok(expected) => attr is Ok && attr->Ok_0@ == expected,
            Err(error) => attr is Err && attr->Err_0@ == error,
        },
{
    let getattr = response.op_ok(index)?;
    let mut data = duplicate(&getattr.data);
    decode_getattr_response(&mut data)
}

/// The object whose filehandle and attributes stand in two results in a row.
pub open spec fn object_at(response: ResponseView, index: nat) -> Decoded<ObjView> {
    match op_at(response, index) {
        Err(error) => Err(error),
        Ok(op) => match filehandle(op.data) {
            Err(error) => Err(error),
            Ok(fh) => match attr_at(response, index + 1) {
                Err(error) => Err(error),
                Ok(attr) => Ok(ObjView { fh, attr: Some(attr) }),
            },
        },
    }
}

pub(crate) fn read_object(response: &CompoundResponse, index: usize) -> (object: Result<ObjRes>)
    requires
        index < usize::MAX,
    ensures
        object_is(object, object_at(response@, index as nat)),
{
    let getfh = response.op_ok(index)?;
    let mut data = duplicate(&getfh.data);
    let fh = decode_fh(&mut data)?;
    let attr = read_attr(response, index + 1)?;
    Ok(ObjRes { fh, attr: Some(attr) })
}

/// Adds the removal of a name.
pub fn remove_ops(builder: CompoundBuilder, dir_fh: &Bytes, filename: &str) -> (out: CompoundBuilder)
    ensures
        out@ == builder@.with_op(OpNum::PutFh, opaque(contents(*dir_fh))).with_op(
            OpNum::Remove,
            name_arg(filename@),
        ),
{
    builder.putfh(as_slice(dir_fh)).remove(filename)
}

/// Whether a name was removed.
pub fn remove_result(response: &CompoundResponse) -> (result: Result<()>)
    ensures
        match ops_done(response@, 1, 2) {
            Ok(_) => result is Ok,
            Err(error) => result is Err && result->Err_0@ == error,
        },
{
    expect_ops(response, 1, 2)
}

/// Adds the renaming of a file: the old directory is the saved filehandle, the new one the
/// current.
pub fn rename_ops(
    builder: CompoundBuilder,
    from_dir_fh: &Bytes,
    from_filename: &str,
    to_dir_fh: &Bytes,
    to_filename: &str,
) -> (out: CompoundBuilder)
    ensures
        out@ == builder@.with_op(OpNum::PutFh, opaque(contents(*from_dir_fh))).with_op(
            OpNum::SaveFh,
            Seq::empty(),
        ).with_op(OpNum::PutFh, opaque(contents(*to_dir_fh))).with_op(
            OpNum::Rename,
            name_arg(from_filename@) + name_arg(to_filename@),
        ),
{
    builder.putfh(as_slice(from_dir_fh)).savefh().putfh(as_slice(to_dir_fh)).rename(
        from_filename,
        to_filename,
    )
}

/// Whether a file was renamed.
pub fn rename_result(response: &CompoundResponse) -> (result: Result<()>)
    ensures
        match ops_done(response@, 1, 4) {
            Ok(_) => result is Ok,
            Err(error) => result is Err && result->Err_0@ == error,
        },
{
    expect_ops(response, 1, 4)
}

/// How a renaming changed the old and the new directory.
pub fn parse_rename_change_info(op: &OpResponse) -> (info: Option<(ChangeInfo, ChangeInfo)>)
    ensures
        if op@.data.len() < 40 {
            info is None
        } else {
            info == Some(
                (change_info(op@.data)->Some_0, change_info(op@.data.skip(20))->Some_0),
            )
        },
{
    let ghost s = op@.data;
    let mut data = duplicate(&op.data);
    if remaining(&data) < 40 {
        return None;
    }
    let src_atomic = get_u32(&mut data) != 0;
    let src_before: u64 = get_u64(&mut data);
    let src_after: u64 = get_u64(&mut data);
    assert(s.skip(4).skip(8) =~= s.skip(12));
    assert(s.skip(12).skip(8) =~= s.skip(20));
    let dst_atomic = get_u32(&mut data) != 0;
    let dst_before: u64 = get_u64(&mut data);
    let dst_after: u64 = get_u64(&mut data);
    assert(s.skip(20).skip(4).skip(8) =~= s.skip(20).skip(12));
    Some(
        (
            ChangeInfo { atomic: src_atomic, before: src_before, after: src_after },
            ChangeInfo { atomic: dst_atomic, before: dst_before, after: dst_after },
        ),
    )
}

/// Adds one more name for a file, and the request for its attributes.
pub fn link_ops(builder: CompoundBuilder, src_fh: &Bytes, dst_dir_fh: &Bytes, dst_filename: &str) -> (out:
    CompoundBuilder)
    ensures
        out@ == builder@.with_op(OpNum::PutFh, opaque(contents(*src_fh))).with_op(
            OpNum::SaveFh,
            Seq::empty(),
        ).with_op(OpNum::PutFh, opaque(contents(*dst_dir_fh))).with_op(
            OpNum::Link,
            name_arg(dst_filename@),
        ).with_op(OpNum::PutFh, opaque(contents(*src_fh))).with_op(
            OpNum::GetAttr,
            bitmap4(standard_bitmap()),
        ),
{
    builder.putfh(as_slice(src_fh)).savefh().putfh(as_slice(dst_dir_fh)).link(dst_filename).putfh(
        as_slice(src_fh),
    ).getattr(&standard_getattr_bitmap())
}

/// The attributes of a file that got one more name.
pub fn link_result(response: &CompoundResponse) -> (attr: Result<Attr>)
    ensures
        match ops_done(response@, 1, 5) {
            Err(error) => attr is Err && attr->Err_0@ == error,
            Ok(_) => match attr_at(response@, 6) {
                Ok(expected) => attr is Ok && attr->Ok_0@ == expected,
                Err(error) => attr is Err && attr->Err_0@ == error,
            },
        },
{
    expect_ops(response, 1, 5)?;
    read_attr(response, 6)
}

/// Adds the making of a symbolic link.
pub fn symlink_ops(builder: CompoundBuilder, target: &str, dst_dir_fh: &Bytes, dst_filename: &str) -> (out:
    CompoundBuilder)
    ensures
        out@ == builder@.with_op(OpNum::PutFh, opaque(contents(*dst_dir_fh))).with_op(
            OpNum::Create,
            be32(5) + name_arg(target@) + name_arg(dst_filename@) + bitmap4(Seq::empty()) + opaque(
                Seq::empty(),
            ),
        ).with_op(OpNum::GetFh, Seq::empty()).with_op(OpNum::GetAttr, bitmap4(standard_bitmap())),
{
    let no_attrs: Vec<u32> = Vec::new();
    let no_values: Vec<u8> = Vec::new();
    assert(no_attrs@ =~= Seq::empty());
    assert(no_values@ =~= Seq::empty());
    builder.putfh(as_slice(dst_dir_fh)).create_symlink(
        dst_filename,
        target,
        &no_attrs,
        &no_values,
    ).getfh().getattr(&standard_getattr_bitmap())
}

/// The symbolic link that was made.
pub fn symlink_result(response: &CompoundResponse) -> (object: Result<ObjRes>)
    ensures
        match ops_done(response@, 1, 2) {
            Err(error) => object is Err && object->Err_0@ == error,
            Ok(_) => object_is(object, object_at(response@, 3)),
        },
{
    expect_ops(response, 1, 2)?;
    read_object(response, 3)
}

/// Operations are done just where the reply holds each of them with the status zero; the first
/// that is missing or failed decides what is reported.
pub proof fn law_operations_are_done_together(response: ResponseView, index: nat, count: nat)
    ensures
        ops_done(response, index, count) is Ok <==> forall|i: int|
            index <= i < index + count ==> i < response.results.len() && (
            #[trigger] response.results[i]).status == Nfs4ErrorCode::NFS4_OK,
    decreases count,
{
    if count > 0 {
        law_operations_are_done_together(response, index + 1, (count - 1) as nat);
        let done = ops_done(response, index + 1, (count - 1) as nat);
        if op_at(response, index) is Ok && done is Ok {
            assert forall|i: int| index <= i < index + count implies i < response.results.len() && (
            #[trigger] response.results[i]).status == Nfs4ErrorCode::NFS4_OK by {
                if i > index {
                    assert(index + 1 <= i < index + 1 + (count - 1));
                }
            }
        }
        if index < response.results.len() {
            let first = response.results[index as int];
            assert(op_at(response, index) is Ok <==> first.status == Nfs4ErrorCode::NFS4_OK);
        }
    }
}

/// The first operation that failed is reported with its status.
pub proof fn law_first_failure_is_reported(
    response: ResponseView,
    index: nat,
    count: nat,
    at: nat,
)
    requires
        index <= at < index + count,
        at < response.results.len(),
        response.results[at as int].status != Nfs4ErrorCode::NFS4_OK,
        forall|i: int|
            index <= i < at ==> (#[trigger] response.results[i]).status == Nfs4ErrorCode::NFS4_OK,
    ensures
        ops_done(response, index, count) == Err::<(), ErrorView>(
            ErrorView::Nfs4(response.results[at as int].status),
        ),
    decreases count,
{
    if index < at {
        law_first_failure_is_reported(response, index + 1, (count - 1) as nat, at);
    }
}

/// How a directory changed is read back as it was written.
pub proof fn law_change_is_read_back(atomic: bool, before: u64, after: u64, tail: Seq<u8>)
    ensures
        change_info(bool32(atomic) + (be64(before) + (be64(after) + tail))) == Some(
            ChangeInfo { atomic, before, after },
        ),
{
    broadcast use crate::wire::group_front;

}

/// A handle is read back as it was written.
pub proof fn law_handle_is_read_back(fh: Seq<u8>, tail: Seq<u8>)
    requires
        fh.len() <= u32::MAX,
    ensures
        filehandle(opaque(fh) + tail) == Ok::<Seq<u8>, ErrorView>(fh),
{
    broadcast use crate::wire::group_front;

}

/// An object is made of the handle in one result and the attributes in the next.
pub proof fn law_object_is_handle_and_attributes(
    response: ResponseView,
    index: nat,
    fh: Seq<u8>,
    attr: AttrView,
)
    requires
        fh.len() <= u32::MAX,
        index + 1 < response.results.len(),
        response.results[index as int].status == Nfs4ErrorCode::NFS4_OK,
        response.results[index as int].data == opaque(fh),
        response.results[index + 1int].status == Nfs4ErrorCode::NFS4_OK,
        known(response.results[index + 1int].data) == Ok::<AttrView, ErrorView>(attr),
    ensures
        object_at(response, index) == Ok::<ObjView, ErrorView>(ObjView { fh, attr: Some(attr) }),
{
    law_handle_is_read_back(fh, Seq::empty());
    assert(opaque(fh) + Seq::<u8>::empty() =~= opaque(fh));
}


} // verus!
