//! Names and objects of an NFSv4.0 mount: what their requests hold and what their replies
//! mean.

use bytes::Bytes;
use vstd::prelude::*;
use vstd::string::StringExecFns;
use vstd::utf8::encode_utf8;

use crate::buffer::{as_slice, contents, duplicate};
use crate::error::{
    classify_sent_nfs40_error, outcome_error, sent_error, ContextView, ErrorView, NfsError,
    OperationClass, OperationOutcome, RecoveryAction, RequestContext, Result,
};
use crate::nfs4::attrs::{
    decode_getattr_response, file_attrs, standard_bitmap, standard_getattr_bitmap, Attr, AttrView,
};
use crate::nfs4::compound::{Decoded, RawRequest, OP_GETFH, OP_LOOKUP, OP_PUTFH, OP_PUTROOTFH};
use crate::nfs40::compound::{
    access_response, create_response, create_succeeded_before_compound_failure,
    decode_access_response, decode_create_response, decode_getattr_response as decode_attrs,
    decode_link_response, decode_lookup_getattr_response, decode_remove_response,
    decode_rename_response, holding, lookup_response, putfh_and, saved_and,
    succeeded_before_failure, CompoundBuilder, OP_ACCESS, OP_CREATE, OP_GETATTR, OP_LINK,
    OP_READLINK, OP_REMOVE, OP_RENAME, OP_SAVEFH,
};
use crate::nfs40::metadata::{getattr_args, getattr_request};
use crate::nfs40::mount::{
    answered, context, failed, reply_view, request_context, sent_failure, settled,
};
use crate::path::text_views;
use crate::rpc::{call_header, rpc_header, Auth};
use crate::text::{concat2, hex, push_hex};
use crate::wire::{holds, Fields};
use crate::xdr::{be32, bitmap4, opaque};

verus! {

/// A request without operations.
pub open spec fn empty_request(tag: Seq<char>) -> RawRequest {
    RawRequest { tag, minor: 0, ops: Seq::empty() }
}

/// The bytes of a name with their length in front.
pub open spec fn name_arg(name: Seq<char>) -> Seq<u8> {
    opaque(encode_utf8(name))
}

/// An object: its filehandle, and what is known of it.
#[derive(Debug)]
pub struct ObjRes {
    pub fh: Bytes,
    pub attr: Option<Attr>,
}

/// An object as specifications see it.
#[verifier::ext_equal]
pub struct ObjView {
    pub fh: Seq<u8>,
    pub attr: Option<AttrView>,
}

impl View for ObjRes {
    type V = ObjView;

    open spec fn view(&self) -> ObjView {
        ObjView {
            fh: contents(self.fh),
            attr: match self.attr {
                Some(attr) => Some(attr@),
                None => None,
            },
        }
    }
}

/// Whether an object is the expected one.
pub open spec fn object_is(object: Result<ObjRes>, expected: Decoded<ObjView>) -> bool {
    match expected {
        Ok(view) => object is Ok && object->Ok_0@ == view,
        Err(error) => object is Err && object->Err_0@ == error,
    }
}

/// The request that does nothing.
pub fn null_request(auth: &Auth) -> (call: Vec<u8>)
    ensures
        call@ == call_header(100003, 4, 0, auth.flavor, auth.body@),
{
    let mut call: Vec<u8> = Vec::new();
    rpc_header(&mut call, 100003, 4, 0, auth);
    assert(call@ =~= call_header(100003, 4, 0, auth.flavor, auth.body@));
    call
}

/// The bits of ACCESS that have a meaning.
pub const ACCESS4_ALL: u32 = 0x3f;

/// The request that asks what the caller may do with a file.
pub fn access_request(fh: &Bytes, mode: u32) -> (request: Result<CompoundBuilder>)
    ensures
        if mode & !ACCESS4_ALL != 0 {
            &&& request is Err
            &&& request->Err_0@ == ErrorView::InvalidInput(
                "NFSv4 ACCESS mask contains unknown bits: 0x"@ + hex(mode as nat),
            )
        } else {
            &&& request is Ok
            &&& request->Ok_0@ == empty_request("access"@).with_op(
                OP_PUTFH,
                opaque(contents(*fh)),
            ).with_op(OP_ACCESS, be32(mode))
        },
{
    if mode & !ACCESS4_ALL != 0 {
        let mut text = String::from_str("NFSv4 ACCESS mask contains unknown bits: 0x");
        push_hex(&mut text, mode as u64);
        return Err(NfsError::InvalidInput(text));
    }
    Ok(CompoundBuilder::new("access").putfh(as_slice(fh)).access(mode))
}

/// What the caller may do, of what was asked for.
pub fn decode_access(reply: Bytes) -> (granted: Result<u32>)
    ensures
        match access_response(contents(reply)) {
            Ok((supported, expected)) => granted is Ok && granted->Ok_0 == expected,
            Err(error) => granted is Err && granted->Err_0@ == error,
        },
{
    let (_supported, granted): (u32, u32) = decode_access_response(reply)?;
    Ok(granted)
}

/// The request for the attributes of a file.
pub fn attributes_request(fh: &Bytes) -> (request: CompoundBuilder)
    ensures
        request@ == getattr_args("getattr"@, contents(*fh), standard_bitmap()),
{
    getattr_request("getattr", fh, &standard_getattr_bitmap())
}

/// What is known of a file by the reply to GETATTR.
pub open spec fn attributes(reply: Seq<u8>) -> Decoded<AttrView> {
    match putfh_and(reply, OP_GETATTR, "GETATTR"@) {
        Err(error) => Err(error),
        Ok((_, data)) => known(data),
    }
}

/// What is known of a file by a fattr4 at the end of a reply.
pub open spec fn known(data: Seq<u8>) -> Decoded<AttrView> {
    match file_attrs(data) {
        Ok((attr, rest)) => Ok(attr),
        Err(error) => Err(error),
    }
}

pub fn decode_attributes(reply: Bytes) -> (attr: Result<Attr>)
    ensures
        match attributes(contents(reply)) {
            Ok(expected) => attr is Ok && attr->Ok_0@ == expected,
            Err(error) => attr is Err && attr->Err_0@ == error,
        },
{
    let mut data = decode_attrs(reply)?;
    decode_getattr_response(&mut data)
}

/// A filehandle with its attributes as an object.
pub open spec fn object_of(found: Decoded<(Seq<u8>, Seq<u8>)>) -> Decoded<ObjView> {
    match found {
        Err(error) => Err(error),
        Ok((fh, data)) => match known(data) {
            Err(error) => Err(error),
            Ok(attr) => Ok(ObjView { fh, attr: Some(attr) }),
        },
    }
}

fn read_object(fh: Bytes, data: Bytes) -> (object: Result<ObjRes>)
    ensures
        object_is(object, object_of(Ok((contents(fh), contents(data))))),
{
    let mut data = data;
    let attr = decode_getattr_response(&mut data)?;
    Ok(ObjRes { fh, attr: Some(attr) })
}

/// The request that looks a name up in a directory.
pub fn lookup_request(dir_fh: &Bytes, filename: &str) -> (request: CompoundBuilder)
    ensures
        request@ == empty_request("lookup"@).with_op(OP_PUTFH, opaque(contents(*dir_fh))).with_op(
            OP_LOOKUP,
            name_arg(filename@),
        ).with_op(OP_GETFH, Seq::empty()).with_op(OP_GETATTR, bitmap4(standard_bitmap())),
{
    CompoundBuilder::new("lookup").putfh(as_slice(dir_fh)).lookup(filename).getfh().getattr(
        &standard_getattr_bitmap(),
    )
}

/// The object that a lookup found.
pub fn decode_lookup(reply: Bytes) -> (object: Result<ObjRes>)
    ensures
        object_is(object, object_of(lookup_response(contents(reply)))),
{
    let (fh, data) = decode_lookup_getattr_response(reply)?;
    read_object(fh, data)
}

/// The operations that look names up one after the other.
pub open spec fn with_lookups(request: RawRequest, names: Seq<Seq<char>>) -> RawRequest
    decreases names.len(),
{
    if names.len() == 0 {
        request
    } else {
        with_lookups(request, names.drop_last()).with_op(OP_LOOKUP, name_arg(names.last()))
    }
}

/// The request that walks from the root of the server to the directory of the mount.
pub fn navigation_request(components: &Vec<String>) -> (request: CompoundBuilder)
    ensures
        request@ == with_lookups(
            empty_request("navigate"@).with_op(OP_PUTROOTFH, Seq::empty()),
            text_views(components@),
        ).with_op(OP_GETFH, Seq::empty()),
{
    let mut request = CompoundBuilder::new("navigate").putrootfh();
    let ghost start = request@;
    let ghost names = text_views(components@);
    let mut i: usize = 0;
    assert(names.take(0) =~= Seq::empty());
    while i < components.len()
        invariant
            i <= components@.len(),
            names == text_views(components@),
            request@ == with_lookups(start, names.take(i as int)),
        decreases components.len() - i,
    {
        request = request.lookup(components[i].as_str());
        i += 1;
        assert(names.take(i as int).drop_last() =~= names.take(i - 1));
    }
    assert(names.take(i as int) =~= names);
    request.getfh()
}

/// The request for the target of a symbolic link.
pub fn readlink_request(fh: &Bytes) -> (request: CompoundBuilder)
    ensures
        request@ == empty_request("readlink"@).with_op(OP_PUTFH, opaque(contents(*fh))).with_op(
            OP_READLINK,
            Seq::empty(),
        ),
{
    CompoundBuilder::new("readlink").putfh(as_slice(fh)).readlink()
}

/// What a request leads to whose reply holds nothing that is needed.
pub open spec fn done(operation: Seq<char>, reply: Decoded<Seq<u8>>, check: spec_fn(Seq<u8>) -> Decoded<()>) -> Decoded<
    (),
> {
    match answered(operation, 0, 0, reply) {
        Err(error) => Err(error),
        Ok(bytes) => match check(bytes) {
            Err(error) => Err(failed(operation, 0, 0, error)),
            Ok(_) => Ok(()),
        },
    }
}

/// The request that removes a name.
pub fn remove_request(dir_fh: &Bytes, filename: &str) -> (request: CompoundBuilder)
    ensures
        request@ == empty_request("remove"@).with_op(OP_PUTFH, opaque(contents(*dir_fh))).with_op(
            OP_REMOVE,
            name_arg(filename@),
        ),
{
    CompoundBuilder::new("remove").putfh(as_slice(dir_fh)).remove(filename)
}

/// Takes in the reply to REMOVE.
pub fn finish_remove(reply: Result<Bytes>) -> (result: Result<()>)
    ensures
        match done(
            "remove"@,
            reply_view(reply),
            |s: Seq<u8>|
                holding(putfh_and(s, OP_REMOVE, "REMOVE"@), 20, "REMOVE change_info truncated"@),
        ) {
            Ok(_) => result is Ok,
            Err(error) => result is Err && result->Err_0@ == error,
        },
{
    let response = settled("remove", 0, 0, reply)?;
    match decode_remove_response(response) {
        Ok(()) => Ok(()),
        Err(error) => Err(sent_failure("remove", 0, 0, error)),
    }
}

/// The request that gives a file another name.
pub fn rename_request(from_dir_fh: &Bytes, from: &str, to_dir_fh: &Bytes, to: &str) -> (request:
    CompoundBuilder)
    ensures
        request@ == empty_request("rename"@).with_op(
            OP_PUTFH,
            opaque(contents(*from_dir_fh)),
        ).with_op(OP_SAVEFH, Seq::empty()).with_op(
            OP_PUTFH,
            opaque(contents(*to_dir_fh)),
        ).with_op(OP_RENAME, name_arg(from@) + name_arg(to@)),
{
    CompoundBuilder::new("rename").putfh(as_slice(from_dir_fh)).savefh().putfh(
        as_slice(to_dir_fh),
    ).rename(from, to)
}

/// Takes in the reply to RENAME.
pub fn finish_rename(reply: Result<Bytes>) -> (result: Result<()>)
    ensures
        match done(
            "rename"@,
            reply_view(reply),
            |s: Seq<u8>|
                holding(saved_and(s, OP_RENAME, "RENAME"@), 40, "RENAME change_info truncated"@),
        ) {
            Ok(_) => result is Ok,
            Err(error) => result is Err && result->Err_0@ == error,
        },
{
    let response = settled("rename", 0, 0, reply)?;
    match decode_rename_response(response) {
        Ok(()) => Ok(()),
        Err(error) => Err(sent_failure("rename", 0, 0, error)),
    }
}

/// The request that gives a file one more name.
pub fn link_request(
    src_fh: &Bytes,
    dst_dir_fh: &Bytes,
    dst_filename: &str,
) -> (request: CompoundBuilder)
    ensures
        request@ == empty_request("link"@).with_op(OP_PUTFH, opaque(contents(*src_fh))).with_op(
            OP_SAVEFH,
            Seq::empty(),
        ).with_op(OP_PUTFH, opaque(contents(*dst_dir_fh))).with_op(
            OP_LINK,
            name_arg(dst_filename@),
        ),
{
    CompoundBuilder::new("link").putfh(as_slice(src_fh)).savefh().putfh(
        as_slice(dst_dir_fh),
    ).link(dst_filename)
}

/// Takes in the reply to LINK.
pub fn finish_link(reply: Result<Bytes>) -> (result: Result<()>)
    ensures
        match done(
            "link"@,
            reply_view(reply),
            |s: Seq<u8>|
                holding(saved_and(s, OP_LINK, "LINK"@), 20, "LINK change_info truncated"@),
        ) {
            Ok(_) => result is Ok,
            Err(error) => result is Err && result->Err_0@ == error,
        },
{
    let response = settled("link", 0, 0, reply)?;
    match decode_link_response(response) {
        Ok(()) => Ok(()),
        Err(error) => Err(sent_failure("link", 0, 0, error)),
    }
}

/// The request that makes a directory.
pub fn mkdir_request(dir_fh: &Bytes, dirname: &str) -> (request: CompoundBuilder)
    ensures
        request@ == empty_request("mkdir"@).with_op(OP_PUTFH, opaque(contents(*dir_fh))).with_op(
            OP_CREATE,
            be32(2) + name_arg(dirname@) + be32(0) + opaque(Seq::empty()),
        ).with_op(OP_GETFH, Seq::empty()).with_op(OP_GETATTR, bitmap4(standard_bitmap())),
{
    CompoundBuilder::new("mkdir").putfh(as_slice(dir_fh)).create_directory(
        dirname,
    ).getfh().getattr(&standard_getattr_bitmap())
}

/// The request that makes a symbolic link.
pub fn symlink_request(
    target: &str,
    dst_dir_fh: &Bytes,
    dst_filename: &str,
) -> (request: CompoundBuilder)
    ensures
        request@ == empty_request("symlink"@).with_op(
            OP_PUTFH,
            opaque(contents(*dst_dir_fh)),
        ).with_op(
            OP_CREATE,
            be32(5) + name_arg(target@) + name_arg(dst_filename@) + be32(0) + opaque(Seq::empty()),
        ).with_op(OP_GETFH, Seq::empty()).with_op(OP_GETATTR, bitmap4(standard_bitmap())),
{
    CompoundBuilder::new("symlink").putfh(as_slice(dst_dir_fh)).create_symlink(
        dst_filename,
        target,
    ).getfh().getattr(&standard_getattr_bitmap())
}

/// The error of a reply to CREATE and what followed it. An object that was made before the
/// rest failed is there.
pub open spec fn create_failure(
    response: Seq<u8>,
    class: OperationClass,
    context: ContextView,
    error: ErrorView,
) -> ErrorView {
    if succeeded_before_failure(response, OP_CREATE) {
        ErrorView::OperationOutcome {
            outcome: OperationOutcome::Uncertain,
            class,
            recovery: RecoveryAction::VerifyThenResume,
            context,
            source: Box::new(error),
        }
    } else {
        sent_error(class, context, error)
    }
}

pub fn classify_create_compound_error(
    response: &Bytes,
    class: OperationClass,
    ctx: RequestContext,
    error: NfsError,
) -> (out: NfsError)
    ensures
        out@ == create_failure(contents(*response), class, ctx@, error@),
{
    if create_succeeded_before_compound_failure(duplicate(response)) {
        outcome_error(
            OperationOutcome::Uncertain,
            class,
            RecoveryAction::VerifyThenResume,
            ctx,
            error,
        )
    } else {
        classify_sent_nfs40_error(class, ctx, error)
    }
}

/// The object that a CREATE made.
pub open spec fn created(operation: Seq<char>, reply: Decoded<Seq<u8>>) -> Decoded<ObjView> {
    match answered(operation, 0, 0, reply) {
        Err(error) => Err(error),
        Ok(bytes) => match create_response(bytes) {
            Err(error) => Err(
                create_failure(
                    bytes,
                    OperationClass::ReplaySensitive,
                    request_context(operation, 0, 0),
                    error,
                ),
            ),
            Ok(found) => object_of(Ok(found)),
        },
    }
}

/// Takes in the reply to the CREATE of an operation.
pub fn finish_create(operation: &str, reply: Result<Bytes>) -> (object: Result<ObjRes>)
    ensures
        object_is(object, created(operation@, reply_view(reply))),
{
    let response = settled(operation, 0, 0, reply)?;
    match decode_create_response(duplicate(&response)) {
        Ok((fh, data)) => read_object(fh, data),
        Err(error) => {
            let (class, ctx) = context(operation, 0, 0, OperationClass::ReplaySensitive);
            Err(classify_create_compound_error(&response, class, ctx, error))
        },
    }
}

/// An object once its mode was set, or why it could not be set; the object has to be removed
/// then.
pub fn with_mode(object: ObjRes, mode: u32, result: Result<()>) -> (out: Result<ObjRes>)
    ensures
        match result {
            Err(error) => out == Err::<ObjRes, NfsError>(error),
            Ok(_) => {
                &&& out is Ok
                &&& out->Ok_0@ == (ObjView {
                    fh: object@.fh,
                    attr: match object@.attr {
                        Some(attr) => Some(AttrView { file_mode: mode, ..attr }),
                        None => None,
                    },
                })
            },
        },
{
    result?;
    let attr = match object.attr {
        Some(attr) => Some(
            Attr { fileid: attr.fileid, filehandle: attr.filehandle, file_mode: mode },
        ),
        None => None,
    };
    Ok(ObjRes { fh: object.fh, attr })
}

/// The refusal of an operation that NFSv4.0 mounts do not have.
pub fn unsupported(operation: &str) -> (error: NfsError)
    ensures
        error@ == ErrorView::Unsupported(
            "NFSv4.0 "@ + operation@ + " is not implemented in the minimal mount slice"@,
        ),
{
    let mut text = concat2("NFSv4.0 ", operation);
    text.append(" is not implemented in the minimal mount slice");
    NfsError::Unsupported(text)
}

/// A path is looked up name by name, in its order, behind what the request held already.
pub proof fn law_names_are_looked_up_in_order(request: RawRequest, names: Seq<Seq<char>>, i: int)
    requires
        0 <= i < names.len(),
        forall|k: int| 0 <= k < names.len() ==> encode_utf8(#[trigger] names[k]).len() <= u32::MAX,
    ensures
        ({
            let ops = with_lookups(request, names).ops;
            &&& ops.len() == request.ops.len() + names.len()
            &&& forall|k: int| 0 <= k < request.ops.len() ==> ops[k] == request.ops[k]
            &&& ops[request.ops.len() + i].opcode == 15
            &&& holds(
                ops[request.ops.len() + i].args,
                Fields::Start.counted(encode_utf8(names[i])),
            )
        }),
    decreases names.len(),
{
    broadcast use crate::wire::group_fields;

    let before = names.drop_last();
    if before.len() > 0 {
        law_names_are_looked_up_in_order(
            request,
            before,
            if i < before.len() {
                i
            } else {
                0
            },
        );
    } else {
        assert(with_lookups(request, before) == request);
    }
}

/// A name in a request is counted text.
pub proof fn law_name_is_counted(name: Seq<char>)
    requires
        encode_utf8(name).len() <= u32::MAX,
    ensures
        holds(name_arg(name), Fields::Start.counted(encode_utf8(name))),
{
    broadcast use crate::wire::group_fields;

}

/// A reply to GETATTR gives the attributes that the server wrote.
pub proof fn law_attributes_are_read_back(tag: Seq<u8>, data: Seq<u8>, attr: AttrView, tail: Seq<u8>)
    requires
        tag.len() <= u32::MAX,
        file_attrs(data) == Ok::<(AttrView, Seq<u8>), ErrorView>((attr, tail)),
    ensures
        attributes(crate::nfs40::replies::reply_on_file(tag, 9, data)) == Ok::<
            AttrView,
            ErrorView,
        >(attr),
{
    crate::nfs40::replies::law_reply_on_file_is_read(tag, 9, "GETATTR"@, 2, data);
}

/// What was found keeps the handle and the attributes that came with it.
pub proof fn law_object_keeps_handle_and_attributes(
    fh: Seq<u8>,
    data: Seq<u8>,
    attr: AttrView,
    tail: Seq<u8>,
)
    requires
        file_attrs(data) == Ok::<(AttrView, Seq<u8>), ErrorView>((attr, tail)),
    ensures
        object_of(Ok((fh, data))) == Ok::<ObjView, ErrorView>(ObjView { fh, attr: Some(attr) }),
{
}


/// What was made is handed out as the server described it.
#[verifier::rlimit(60)]
pub proof fn law_made_object_is_handed_out(
    operation: Seq<char>,
    bytes: Seq<u8>,
    fh: Seq<u8>,
    data: Seq<u8>,
    attr: AttrView,
    tail: Seq<u8>,
)
    requires
        create_response(bytes) == Ok::<(Seq<u8>, Seq<u8>), ErrorView>((fh, data)),
        file_attrs(data) == Ok::<(AttrView, Seq<u8>), ErrorView>((attr, tail)),
    ensures
        created(operation, Ok(bytes)) == Ok::<ObjView, ErrorView>(ObjView { fh, attr: Some(attr) }),
{
    law_object_keeps_handle_and_attributes(fh, data, attr, tail);
}

/// Where the server had made something before the request failed, the failure is uncertain and
/// has to be looked into; without an answer it fails too.
#[verifier::rlimit(60)]
pub proof fn law_failure_after_making_is_uncertain(
    operation: Seq<char>,
    bytes: Seq<u8>,
    error: ErrorView,
)
    requires
        create_response(bytes) == Err::<(Seq<u8>, Seq<u8>), ErrorView>(error),
        succeeded_before_failure(bytes, 6),
    ensures
        ({
            let failure = created(operation, Ok(bytes));
            &&& failure is Err
            &&& failure->Err_0 is OperationOutcome
            &&& failure->Err_0->OperationOutcome_outcome is Uncertain
            &&& failure->Err_0->OperationOutcome_recovery is VerifyThenResume
            &&& *failure->Err_0->OperationOutcome_source == error
        }),
        created(operation, Err(error)) is Err,
{
}

/// An operation is done where the server answered and the answer holds.
pub proof fn law_done_needs_an_answer_that_holds(
    operation: Seq<char>,
    bytes: Seq<u8>,
    error: ErrorView,
    check: spec_fn(Seq<u8>) -> Decoded<()>,
)
    ensures
        done(operation, Ok(bytes), check) is Ok <==> check(bytes) is Ok,
        done(operation, Err(error), check) is Err,
        check(bytes) matches Err(ErrorView::Nfs4(status)) ==> done(operation, Ok(bytes), check)
            == Err::<(), ErrorView>(ErrorView::Nfs4(status)),
{
}


} // verus!
