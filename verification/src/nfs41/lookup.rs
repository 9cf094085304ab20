//! LOOKUP and GETATTR of NFSv4.1.

use bytes::Bytes;
use vstd::prelude::*;
use vstd::utf8::encode_utf8;

use crate::buffer::{as_slice, contents};
use crate::error::Result;
use crate::nfs4::attrs::{standard_bitmap, standard_getattr_bitmap, Attr};
use crate::nfs4::compound::Decoded;
use crate::nfs40::names::{name_arg, object_is, ObjRes, ObjView};
use crate::nfs41::compound::{CompoundBuilder, OpNum, Request};
use crate::nfs41::dir_ops::{attr_at, expect_ops, object_at, ops_done, read_attr, read_object};
use crate::nfs41::response::{CompoundResponse, ResponseView};
use crate::path::text_views;
use crate::wire::{holds, Fields};
use crate::xdr::{bitmap4, opaque};

verus! {

/// Adds the request for the attributes of a file.
pub fn getattr_ops(builder: CompoundBuilder, fh: &Bytes) -> (out: CompoundBuilder)
    ensures
        out@ == builder@.with_op(OpNum::PutFh, opaque(contents(*fh))).with_op(
            OpNum::GetAttr,
            bitmap4(standard_bitmap()),
        ),
{
    builder.putfh(as_slice(fh)).getattr(&standard_getattr_bitmap())
}

/// The attributes of a file.
pub fn getattr_result(response: &CompoundResponse) -> (attr: Result<Attr>)
    ensures
        match ops_done(response@, 1, 1) {
            Err(error) => attr is Err && attr->Err_0@ == error,
            Ok(_) => match attr_at(response@, 2) {
                Ok(expected) => attr is Ok && attr->Ok_0@ == expected,
                Err(error) => attr is Err && attr->Err_0@ == error,
            },
        },
{
    expect_ops(response, 1, 1)?;
    read_attr(response, 2)
}

/// Adds the lookup of a name in a directory.
pub fn lookup_ops(builder: CompoundBuilder, dir_fh: &Bytes, filename: &str) -> (out: CompoundBuilder)
    ensures
        out@ == builder@.with_op(OpNum::PutFh, opaque(contents(*dir_fh))).with_op(
            OpNum::Lookup,
            name_arg(filename@),
        ).with_op(OpNum::GetFh, Seq::empty()).with_op(OpNum::GetAttr, bitmap4(standard_bitmap())),
{
    builder.putfh(as_slice(dir_fh)).lookup(filename).getfh().getattr(&standard_getattr_bitmap())
}

/// The object that a lookup found.
pub fn lookup_result(response: &CompoundResponse) -> (object: Result<ObjRes>)
    ensures
        match ops_done(response@, 1, 2) {
            Err(error) => object is Err && object->Err_0@ == error,
            Ok(_) => object_is(object, object_at(response@, 3)),
        },
{
    expect_ops(response, 1, 2)?;
    read_object(response, 3)
}

/// The request with the lookup of names one after the other.
pub open spec fn with_lookups(request: Request, names: Seq<Seq<char>>) -> Request
    decreases names.len(),
{
    if names.len() == 0 {
        request
    } else {
        with_lookups(request, names.drop_last()).with_op(OpNum::Lookup, name_arg(names.last()))
    }
}

/// Adds the walk along the parts of a path from the root.
pub fn lookup_path_ops(builder: CompoundBuilder, root_fh: &Bytes, components: &Vec<String>) -> (out:
    CompoundBuilder)
    ensures
        out@ == with_lookups(
            builder@.with_op(OpNum::PutFh, opaque(contents(*root_fh))),
            text_views(components@),
        ).with_op(OpNum::GetFh, Seq::empty()).with_op(OpNum::GetAttr, bitmap4(standard_bitmap())),
{
    let mut out = builder.putfh(as_slice(root_fh));
    let ghost start = out@;
    let ghost names = text_views(components@);
    let mut i: usize = 0;
    assert(names.take(0) =~= Seq::empty());
    while i < components.len()
        invariant
            i <= components@.len(),
            names == text_views(components@),
            out@ == with_lookups(start, names.take(i as int)),
        decreases components.len() - i,
    {
        out = out.lookup(components[i].as_str());
        i += 1;
        assert(names.take(i as int).drop_last() =~= names.take(i - 1));
    }
    assert(names.take(i as int) =~= names);
    out.getfh().getattr(&standard_getattr_bitmap())
}

/// What the reply to the walk along `count` parts of a path means.
pub open spec fn path_object(response: ResponseView, count: nat) -> Decoded<ObjView> {
    match ops_done(response, 2, count) {
        Err(error) => Err(error),
        Ok(_) => object_at(response, 2 + count),
    }
}

/// The object at the end of a path of `count` parts.
pub fn lookup_path_result(response: &CompoundResponse, count: usize) -> (object: Result<ObjRes>)
    requires
        count <= usize::MAX - 3,
    ensures
        object_is(object, path_object(response@, count as nat)),
{
    expect_ops(response, 2, count)?;
    read_object(response, 2 + count)
}

/// A path is looked up name by name, in its order, behind what the request held already.
pub proof fn law_names_are_looked_up_in_order(request: Request, names: Seq<Seq<char>>, i: int)
    requires
        0 <= i < names.len(),
        forall|k: int| 0 <= k < names.len() ==> encode_utf8(#[trigger] names[k]).len() <= u32::MAX,
    ensures
        ({
            let ops = with_lookups(request, names).ops;
            &&& ops.len() == request.ops.len() + names.len()
            &&& forall|k: int| 0 <= k < request.ops.len() ==> ops[k] == request.ops[k]
            &&& ops[request.ops.len() + i].opcode is Lookup
            &&& holds(
                ops[request.ops.len() + i].args,
                Fields::Start.counted(encode_utf8(names[i])),
            )
        }),
    decreases names.len(),
{
    broadcast use crate::wire::group_fields;

    let before = names.drop_last();
    if before.len() > 0 {
        law_names_are_looked_up_in_order(
            request,
            before,
            if i < before.len() {
                i
            } else {
                0
            },
        );
    } else {
        assert(with_lookups(request, before) == request);
    }
}


} // verus!
