//! COMPOUND requests and replies in the form that does not depend on the minor version.

use bytes::Bytes;
use vstd::prelude::*;
use vstd::string::StringExecFns;
use vstd::utf8::encode_utf8;

use crate::buffer::{advance, contents, get_u32, remaining, split_to};
use crate::error::{decode_nfsstat4, ErrorView, NfsError, Result};
use crate::nfs4::status::{status_word, Nfs4ErrorCode};
use crate::nfs41::{NFS4_COMPOUND_PROC, NFS4_PROGRAM, NFS4_VERSION};
use crate::rpc::{call_header, rpc_header, Auth};
use crate::text::{concat2, decimal, push_decimal, with_number};
use crate::wire::{holds, Fields};
use crate::xdr::{append_bytes, be32, opaque, padded, padded_len, word};
use crate::xdr::{xdr_string, xdr_u32, xdr_var_bytes};

verus! {

pub const OP_GETFH: u32 = 10;

pub const OP_LOOKUP: u32 = 15;

pub const OP_PUTFH: u32 = 22;

pub const OP_PUTROOTFH: u32 = 24;

/// Appends bytes with their length in front.
pub fn xdr_opaque(buf: &mut Vec<u8>, data: &[u8])
    ensures
        final(buf)@ == old(buf)@ + opaque(data@),
{
    xdr_var_bytes(buf, data)
}

/// An operation by its number, with its arguments.
#[derive(Clone, Debug)]
pub struct RawOp {
    pub opcode: u32,
    pub args: Vec<u8>,
}

/// An operation as specifications see it.
#[verifier::ext_equal]
pub struct RawOpView {
    pub opcode: u32,
    pub args: Seq<u8>,
}

impl View for RawOp {
    type V = RawOpView;

    open spec fn view(&self) -> RawOpView {
        RawOpView { opcode: self.opcode, args: self.args@ }
    }
}

/// Builds COMPOUND4args of one minor version.
#[derive(Clone, Debug)]
pub struct CompoundBuilder {
    pub tag: String,
    pub minor: u32,
    pub ops: Vec<RawOp>,
}

/// A request as specifications see it.
#[verifier::ext_equal]
pub struct RawRequest {
    pub tag: Seq<char>,
    pub minor: u32,
    pub ops: Seq<RawOpView>,
}

impl RawRequest {
    /// The request with one more operation at its end.
    pub open spec fn with_op(self, opcode: u32, args: Seq<u8>) -> RawRequest {
        RawRequest { ops: self.ops.push(RawOpView { opcode, args }), ..self }
    }
}

impl View for CompoundBuilder {
    type V = RawRequest;

    open spec fn view(&self) -> RawRequest {
        RawRequest {
            tag: self.tag@,
            minor: self.minor,
            ops: Seq::new(self.ops@.len(), |i: int| self.ops@[i]@),
        }
    }
}

/// The operations as they stand in the argument array.
pub open spec fn raw_op_bytes(ops: Seq<RawOpView>) -> Seq<u8>
    decreases ops.len(),
{
    if ops.len() == 0 {
        Seq::empty()
    } else {
        raw_op_bytes(ops.drop_last()) + be32(ops.last().opcode) + ops.last().args
    }
}

/// COMPOUND4args.
pub open spec fn raw_compound_args(request: RawRequest) -> Seq<u8> {
    opaque(encode_utf8(request.tag)) + be32(request.minor) + be32(request.ops.len() as u32)
        + raw_op_bytes(request.ops)
}

impl CompoundBuilder {
    pub fn new(tag: &str, minor: u32) -> (builder: Self)
        ensures
            builder@ == (RawRequest { tag: tag@, minor, ops: Seq::empty() }),
    {
        let builder = CompoundBuilder { tag: String::from_str(tag), minor, ops: Vec::new() };
        assert(builder@.ops =~= Seq::<RawOpView>::empty());
        builder
    }

    pub fn operation(self, opcode: u32, args: Vec<u8>) -> (builder: Self)
        ensures
            builder@ == self@.with_op(opcode, args@),
    {
        let mut builder = self;
        builder.ops.push(RawOp { opcode, args });
        assert(builder@.ops =~= self@.ops.push(RawOpView { opcode, args: args@ }));
        builder
    }

    pub fn putrootfh(self) -> (builder: Self)
        ensures
            builder@ == self@.with_op(OP_PUTROOTFH, Seq::empty()),
    {
        self.operation(OP_PUTROOTFH, Vec::new())
    }

    pub fn putfh(self, fh: &[u8]) -> (builder: Self)
        ensures
            builder@ == self@.with_op(OP_PUTFH, opaque(fh@)),
    {
        let mut args: Vec<u8> = Vec::new();
        xdr_opaque(&mut args, fh);
        assert(args@ =~= opaque(fh@));
        self.operation(OP_PUTFH, args)
    }

    pub fn lookup(self, name: &str) -> (builder: Self)
        ensures
            builder@ == self@.with_op(OP_LOOKUP, opaque(encode_utf8(name@))),
    {
        let mut args: Vec<u8> = Vec::new();
        xdr_string(&mut args, name);
        assert(args@ =~= opaque(encode_utf8(name@)));
        self.operation(OP_LOOKUP, args)
    }

    pub fn getfh(self) -> (builder: Self)
        ensures
            builder@ == self@.with_op(OP_GETFH, Seq::empty()),
    {
        self.operation(OP_GETFH, Vec::new())
    }

    fn encode_into(&self, buf: &mut Vec<u8>)
        ensures
            final(buf)@ == old(buf)@ + raw_compound_args(self@),
    {
        xdr_string(buf, self.tag.as_str());
        xdr_u32(buf, self.minor);
        xdr_u32(buf, self.ops.len() as u32);
        let ghost start = buf@;
        assert(self@.ops.take(0) =~= Seq::empty());
        assert(buf@ =~= start + raw_op_bytes(self@.ops.take(0)));
        let mut i: usize = 0;
        while i < self.ops.len()
            invariant
                i <= self.ops@.len(),
                self@.ops.len() == self.ops@.len(),
                buf@ == start + raw_op_bytes(self@.ops.take(i as int)),
            decreases self.ops.len() - i,
        {
            xdr_u32(buf, self.ops[i].opcode);
            append_bytes(buf, &self.ops[i].args);
            i += 1;
            assert(self@.ops.take(i as int).drop_last() =~= self@.ops.take(i - 1));
            assert(buf@ =~= start + raw_op_bytes(self@.ops.take(i as int)));
        }
        assert(self@.ops.take(self@.ops.len() as int) =~= self@.ops);
        assert(buf@ =~= old(buf)@ + raw_compound_args(self@));
    }

    /// The COMPOUND4args.
    pub fn encode_body(self) -> (body: Vec<u8>)
        ensures
            body@ == raw_compound_args(self@),
    {
        let mut body: Vec<u8> = Vec::new();
        self.encode_into(&mut body);
        assert(body@ =~= raw_compound_args(self@));
        body
    }

    /// The whole call.
    pub fn encode_with_header(self, auth: &Auth) -> (call: Vec<u8>)
        ensures
            call@ == call_header(
                NFS4_PROGRAM,
                NFS4_VERSION,
                NFS4_COMPOUND_PROC,
                auth.flavor,
                auth.body@,
            ) + raw_compound_args(self@),
    {
        let mut call: Vec<u8> = Vec::new();
        rpc_header(&mut call, NFS4_PROGRAM, NFS4_VERSION, NFS4_COMPOUND_PROC, auth);
        self.encode_into(&mut call);
        assert(call@ =~= call_header(
            NFS4_PROGRAM,
            NFS4_VERSION,
            NFS4_COMPOUND_PROC,
            auth.flavor,
            auth.body@,
        ) + raw_compound_args(self@));
        call
    }
}

/// What a reply holds, or why it cannot be read.
pub type Decoded<T> = std::result::Result<T, ErrorView>;

/// A value at the front of some bytes and what follows it, or why there is none.
pub type Parsed<T> = Decoded<(T, Seq<u8>)>;

/// `next` on what was read and what follows it.
pub open spec fn chain<A, B>(first: Parsed<A>, next: spec_fn(A, Seq<u8>) -> Decoded<B>) -> Decoded<
    B,
> {
    match first {
        Ok((value, rest)) => next(value, rest),
        Err(error) => Err(error),
    }
}

/// The word at the front of `s`.
pub open spec fn word_item(s: Seq<u8>, what: Seq<char>) -> Parsed<u32> {
    if s.len() < 4 {
        Err(ErrorView::Xdr(what + " truncated"@))
    } else {
        Ok((word(s), s.skip(4)))
    }
}

/// The bytes with their length in front that `s` starts with.
pub open spec fn opaque_item(s: Seq<u8>, what: Seq<char>) -> Parsed<Seq<u8>> {
    chain(
        word_item(s, what),
        |len: u32, s: Seq<u8>|
            if s.len() < padded(len as nat) {
                Err::<(Seq<u8>, Seq<u8>), ErrorView>(ErrorView::Xdr(what + " truncated"@))
            } else {
                Ok((s.take(len as int), s.skip(padded(len as nat) as int)))
            },
    )
}

/// The first `len` bytes of `s`.
pub open spec fn fixed_item(s: Seq<u8>, len: nat, text: Seq<char>) -> Parsed<Seq<u8>> {
    if s.len() < len {
        Err(ErrorView::Xdr(text))
    } else {
        Ok((s.take(len as int), s.skip(len as int)))
    }
}

/// What a status word means.
pub open spec fn status_error(code: u32) -> Option<ErrorView> {
    match status_word(code) {
        Err(error) => Some(error),
        Ok(Nfs4ErrorCode::NFS4_OK) => None,
        Ok(status) => Some(ErrorView::Nfs4(status)),
    }
}

/// A status word that says success, and what follows it.
pub open spec fn ok_status(s: Seq<u8>, what: Seq<char>) -> Parsed<()> {
    chain(
        word_item(s, what),
        |code: u32, s: Seq<u8>|
            match status_error(code) {
                Some(error) => Err::<((), Seq<u8>), ErrorView>(error),
                None => Ok(((), s)),
            },
    )
}

/// The head of a reply that succeeded: the number of results, and the results.
pub open spec fn reply_head(s: Seq<u8>) -> Parsed<u32> {
    chain(
        ok_status(s, "COMPOUND status"@),
        |ok: (), s: Seq<u8>|
            chain(
                opaque_item(s, "COMPOUND tag"@),
                |tag: Seq<u8>, s: Seq<u8>| word_item(s, "COMPOUND result count"@),
            ),
    )
}

/// The head of the result of an operation that succeeded.
pub open spec fn op_head(s: Seq<u8>, expected: u32, name: Seq<char>) -> Parsed<()> {
    chain(
        word_item(s, name + " opcode"@),
        |actual: u32, s: Seq<u8>|
            if actual != expected {
                Err::<((), Seq<u8>), ErrorView>(
                    ErrorView::Xdr(
                        name + " opcode "@ + decimal(actual as nat) + " does not match "@ + decimal(
                            expected as nat,
                        ),
                    ),
                )
            } else {
                ok_status(s, name + " status"@)
            },
    )
}

/// Whether a read went as expected.
pub open spec fn read_as<T>(result: Result<T>, left: Seq<u8>, expected: Parsed<T>) -> bool {
    match expected {
        Ok((value, rest)) => result is Ok && result->Ok_0 == value && left == rest,
        Err(error) => result is Err && result->Err_0@ == error,
    }
}

/// Whether a read of a buffer went as expected.
pub open spec fn bytes_read_as(result: Result<Bytes>, left: Seq<u8>, expected: Parsed<Seq<u8>>) -> bool {
    match expected {
        Ok((value, rest)) => result is Ok && contents(result->Ok_0) == value && left == rest,
        Err(error) => result is Err && result->Err_0@ == error,
    }
}

pub fn take_u32(buf: &mut Bytes, what: &str) -> (value: Result<u32>)
    ensures
        read_as(value, contents(*final(buf)), word_item(contents(*old(buf)), what@)),
{
    if remaining(buf) < 4 {
        return Err(NfsError::Xdr(concat2(what, " truncated")));
    }
    Ok(get_u32(buf))
}

pub fn take_opaque(buf: &mut Bytes, what: &str) -> (value: Result<Bytes>)
    ensures
        bytes_read_as(value, contents(*final(buf)), opaque_item(contents(*old(buf)), what@)),
{
    let len: u32 = take_u32(buf, what)?;
    let ghost s = contents(*buf);
    let padded: u64 = padded_len(len);
    if (remaining(buf) as u64) < padded {
        return Err(NfsError::Xdr(concat2(what, " truncated")));
    }
    let value = split_to(buf, len as usize);
    advance(buf, (padded - len as u64) as usize);
    assert(s.skip(len as int).skip(padded - len) =~= s.skip(padded as int));
    Ok(value)
}

pub fn check_status(code: u32) -> (result: Result<()>)
    ensures
        match status_error(code) {
            Some(error) => result is Err && result->Err_0@ == error,
            None => result is Ok,
        },
{
    match decode_nfsstat4(code)? {
        Nfs4ErrorCode::NFS4_OK => Ok(()),
        status => Err(NfsError::Nfs4(status)),
    }
}

/// Reads a status word and fails unless it says success.
fn take_ok_status(buf: &mut Bytes, what: &str) -> (result: Result<()>)
    ensures
        read_as(result, contents(*final(buf)), ok_status(contents(*old(buf)), what@)),
{
    let code: u32 = take_u32(buf, what)?;
    check_status(code)
}

/// Reads the head of a reply that succeeded: the number of results, with the buffer at the
/// first of them.
pub fn response_ops(buf: Bytes) -> (ops: Result<(u32, Bytes)>)
    ensures
        match reply_head(contents(buf)) {
            Ok((count, rest)) => ops is Ok && ops->Ok_0.0 == count && contents(ops->Ok_0.1) == rest,
            Err(error) => ops is Err && ops->Err_0@ == error,
        },
{
    let mut buf = buf;
    take_ok_status(&mut buf, "COMPOUND status")?;
    let _ = take_opaque(&mut buf, "COMPOUND tag")?;
    let count: u32 = take_u32(&mut buf, "COMPOUND result count")?;
    Ok((count, buf))
}

pub fn expect_op(buf: &mut Bytes, expected: u32, name: &str) -> (result: Result<()>)
    ensures
        read_as(result, contents(*final(buf)), op_head(contents(*old(buf)), expected, name@)),
{
    let what = concat2(name, " opcode");
    let actual: u32 = take_u32(buf, what.as_str())?;
    if actual != expected {
        let mut text = concat2(name, " opcode ");
        push_decimal(&mut text, actual as u64);
        text.append(" does not match ");
        push_decimal(&mut text, expected as u64);
        return Err(NfsError::Xdr(text));
    }
    let what = concat2(name, " status");
    take_ok_status(buf, what.as_str())
}

/// `count` LOOKUP results.
pub open spec fn lookup_heads(s: Seq<u8>, count: nat) -> Parsed<()>
    decreases count,
{
    if count == 0 {
        Ok(((), s))
    } else {
        match op_head(s, OP_LOOKUP, "LOOKUP"@) {
            Ok((_, rest)) => lookup_heads(rest, (count - 1) as nat),
            Err(error) => Err(error),
        }
    }
}

/// The filehandle that a walk from the root over `components` names ends at.
pub open spec fn navigation(s: Seq<u8>, components: nat) -> Decoded<Seq<u8>> {
    chain(
        reply_head(s),
        |count: u32, s: Seq<u8>|
            if count != components + 2 {
                Err::<Seq<u8>, ErrorView>(
                    ErrorView::Xdr(
                        "navigation response has "@ + decimal(count as nat)
                            + " operations, expected "@ + decimal(components + 2),
                    ),
                )
            } else {
                chain(
                    op_head(s, OP_PUTROOTFH, "PUTROOTFH"@),
                    |ok: (), s: Seq<u8>|
                        chain(
                            lookup_heads(s, components),
                            |ok: (), s: Seq<u8>|
                                chain(
                                    op_head(s, OP_GETFH, "GETFH"@),
                                    |ok: (), s: Seq<u8>|
                                        chain(
                                            opaque_item(s, "GETFH filehandle"@),
                                            |fh: Seq<u8>, s: Seq<u8>| Ok::<Seq<u8>, ErrorView>(fh),
                                        ),
                                ),
                        ),
                )
            },
    )
}

fn expect_lookups(buf: &mut Bytes, count: usize) -> (result: Result<()>)
    ensures
        read_as(result, contents(*final(buf)), lookup_heads(contents(*old(buf)), count as nat)),
{
    let mut i: usize = 0;
    while i < count
        invariant
            i <= count,
            lookup_heads(contents(*old(buf)), count as nat) == lookup_heads(
                contents(*buf),
                (count - i) as nat,
            ),
        decreases count - i,
    {
        expect_op(buf, OP_LOOKUP, "LOOKUP")?;
        i += 1;
    }
    Ok(())
}

/// The filehandle at the end of a walk from the root.
pub fn decode_navigation_response(buf: Bytes, components: usize) -> (fh: Result<Bytes>)
    requires
        components + 2 <= u64::MAX,
    ensures
        match navigation(contents(buf), components as nat) {
            Ok(expected) => fh is Ok && contents(fh->Ok_0) == expected,
            Err(error) => fh is Err && fh->Err_0@ == error,
        },
{
    let (count, mut ops): (u32, Bytes) = response_ops(buf)?;
    let expected: u64 = components as u64 + 2;
    if count as u64 != expected {
        let mut text = with_number("navigation response has ", count as u64);
        text.append(" operations, expected ");
        push_decimal(&mut text, expected);
        return Err(NfsError::Xdr(text));
    }
    expect_op(&mut ops, OP_PUTROOTFH, "PUTROOTFH")?;
    expect_lookups(&mut ops, components)?;
    expect_op(&mut ops, OP_GETFH, "GETFH")?;
    take_opaque(&mut ops, "GETFH filehandle")
}

/// A COMPOUND request starts with its tag, its minor version and how many operations follow.
pub proof fn law_request_starts_with_its_tag(request: RawRequest)
    requires
        encode_utf8(request.tag).len() <= u32::MAX,
        request.ops.len() <= u32::MAX,
    ensures
        holds(
            raw_compound_args(request),
            Fields::Start.counted(encode_utf8(request.tag)).word(request.minor).word(
                request.ops.len() as u32,
            ).bytes(raw_op_bytes(request.ops)),
        ),
{
    broadcast use crate::wire::group_fields;

}

/// The operations of a request stand one behind the other, each as its number and its
/// arguments.
pub proof fn law_operations_stand_in_a_row(ops: Seq<RawOpView>, op: RawOpView)
    ensures
        raw_op_bytes(Seq::<RawOpView>::empty()).len() == 0,
        holds(
            raw_op_bytes(ops.push(op)),
            Fields::Start.bytes(raw_op_bytes(ops)).word(op.opcode).bytes(op.args),
        ),
{
    broadcast use crate::wire::group_fields;

    assert(ops.push(op).drop_last() =~= ops);
}


} // verus!
