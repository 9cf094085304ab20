//! NFSv4.1 COMPOUND requests.
//!
//! NFSv4.1 uses a single RPC procedure (COMPOUND, procedure 1) that carries
//! a sequence of operations. Each operation has an opcode (nfs_opnum4) followed
//! by operation-specific arguments.
//!
//! # Wire format (COMPOUND4args)
//! ```text
//! tag: utf8str_cs (variable)
//! minorversion: uint32 (1 for v4.1)
//! argarray_len: uint32
//! argarray[0]: { opcode: uint32, op-specific args... }
//! argarray[1]: { opcode: uint32, op-specific args... }
//! ...
//! ```

use bytes::Bytes;
use vstd::prelude::*;
use vstd::string::StringExecFns;
use vstd::utf8::encode_utf8;

use crate::buffer::{as_slice, contents};
use crate::error::{rpc_error, ErrorView, NfsError, Result};
use crate::nfs41::{NFS41_MINOR_VERSION, NFS4_COMPOUND_PROC, NFS4_PROGRAM, NFS4_VERSION};
use crate::rpc::{call_header, rpc_header, Auth};
use crate::text::{decimal, push_decimal, with_number};
use crate::wire::{holds, lemma_regroup, Fields};
use crate::xdr::{
    append_bytes, be32, be64, bitmap4, bool32, lemma_word_of_be32, opaque, padded, word,
    xdr_bitmap, xdr_bool, xdr_i64, xdr_string, xdr_u32, xdr_u64, xdr_var_bytes,
};

verus! {

/// NFSv4.1 operations (nfs_opnum4).
#[derive(Clone, Copy, Debug, PartialEq, Eq, Structural)]
pub enum OpNum {
    Access,
    Close,
    Commit,
    Create,
    GetAttr,
    GetFh,
    Link,
    Lookup,
    Lookupp,
    Open,
    PutFh,
    PutRootFh,
    Read,
    ReadDir,
    ReadLink,
    Remove,
    Rename,
    RestoreFh,
    SaveFh,
    SetAttr,
    Write,
    OpenAttr,
    Lock,
    Lockt,
    Locku,
    LayoutGet,
    LayoutCommit,
    LayoutReturn,
    GetDeviceInfo,
    ExchangeId,
    CreateSession,
    DestroySession,
    BindConnToSession,
    Sequence,
    ReclaimComplete,
    DestroyClientId,
    DelegReturn,
    TestStateId,
    FreeStateId,
}

/// What sending an operation twice would do, from harmless to harmful.
#[derive(Clone, Copy, Debug, PartialEq, Eq, PartialOrd, Ord, Structural)]
pub enum OperationClass {
    ReadOnly,
    SessionControl,
    ReplaySensitive,
}

/// The number of an operation on the wire.
pub open spec fn opcode(op: OpNum) -> u32 {
    match op {
        OpNum::Access => 3,
        OpNum::Close => 4,
        OpNum::Commit => 5,
        OpNum::Create => 6,
        OpNum::GetAttr => 9,
        OpNum::GetFh => 10,
        OpNum::Link => 11,
        OpNum::Lookup => 15,
        OpNum::Lookupp => 16,
        OpNum::Open => 18,
        OpNum::PutFh => 22,
        OpNum::PutRootFh => 24,
        OpNum::Read => 25,
        OpNum::ReadDir => 26,
        OpNum::ReadLink => 27,
        OpNum::Remove => 28,
        OpNum::Rename => 29,
        OpNum::RestoreFh => 31,
        OpNum::SaveFh => 32,
        OpNum::SetAttr => 34,
        OpNum::Write => 38,
        OpNum::OpenAttr => 20,
        OpNum::Lock => 12,
        OpNum::Lockt => 13,
        OpNum::Locku => 14,
        OpNum::LayoutGet => 50,
        OpNum::LayoutCommit => 49,
        OpNum::LayoutReturn => 51,
        OpNum::GetDeviceInfo => 47,
        OpNum::ExchangeId => 42,
        OpNum::CreateSession => 43,
        OpNum::DestroySession => 44,
        OpNum::BindConnToSession => 41,
        OpNum::Sequence => 53,
        OpNum::ReclaimComplete => 58,
        OpNum::DestroyClientId => 57,
        OpNum::DelegReturn => 8,
        OpNum::TestStateId => 55,
        OpNum::FreeStateId => 56,
    }
}

/// The class of an operation.
pub open spec fn class_of(op: OpNum) -> OperationClass {
    match op {
        OpNum::Access
        | OpNum::GetAttr
        | OpNum::GetFh
        | OpNum::Lookup
        | OpNum::Lookupp
        | OpNum::PutFh
        | OpNum::PutRootFh
        | OpNum::Read
        | OpNum::ReadDir
        | OpNum::ReadLink
        | OpNum::RestoreFh
        | OpNum::SaveFh
        | OpNum::Lockt
        | OpNum::GetDeviceInfo
        | OpNum::TestStateId => OperationClass::ReadOnly,
        OpNum::ExchangeId
        | OpNum::CreateSession
        | OpNum::DestroySession
        | OpNum::BindConnToSession
        | OpNum::Sequence
        | OpNum::ReclaimComplete
        | OpNum::DestroyClientId => OperationClass::SessionControl,
        _ => OperationClass::ReplaySensitive,
    }
}

/// The operation that a number stands for, if it stands for one.
pub open spec fn operation(number: u32) -> Option<OpNum> {
    if exists|op: OpNum| #[trigger] opcode(op) == number {
        Some(choose|op: OpNum| #[trigger] opcode(op) == number)
    } else {
        None
    }
}

/// Two operations never share a number.
pub proof fn lemma_opcodes_are_distinct(a: OpNum, b: OpNum)
    requires
        opcode(a) == opcode(b),
    ensures
        a == b,
{
}

impl OpNum {
    /// The number of the operation on the wire.
    pub fn number(self) -> (number: u32)
        ensures
            number == opcode(self),
    {
        match self {
            OpNum::Access => 3,
            OpNum::Close => 4,
            OpNum::Commit => 5,
            OpNum::Create => 6,
            OpNum::GetAttr => 9,
            OpNum::GetFh => 10,
            OpNum::Link => 11,
            OpNum::Lookup => 15,
            OpNum::Lookupp => 16,
            OpNum::Open => 18,
            OpNum::PutFh => 22,
            OpNum::PutRootFh => 24,
            OpNum::Read => 25,
            OpNum::ReadDir => 26,
            OpNum::ReadLink => 27,
            OpNum::Remove => 28,
            OpNum::Rename => 29,
            OpNum::RestoreFh => 31,
            OpNum::SaveFh => 32,
            OpNum::SetAttr => 34,
            OpNum::Write => 38,
            OpNum::OpenAttr => 20,
            OpNum::Lock => 12,
            OpNum::Lockt => 13,
            OpNum::Locku => 14,
            OpNum::LayoutGet => 50,
            OpNum::LayoutCommit => 49,
            OpNum::LayoutReturn => 51,
            OpNum::GetDeviceInfo => 47,
            OpNum::ExchangeId => 42,
            OpNum::CreateSession => 43,
            OpNum::DestroySession => 44,
            OpNum::BindConnToSession => 41,
            OpNum::Sequence => 53,
            OpNum::ReclaimComplete => 58,
            OpNum::DestroyClientId => 57,
            OpNum::DelegReturn => 8,
            OpNum::TestStateId => 55,
            OpNum::FreeStateId => 56,
        }
    }

    /// The operation that a number stands for, if it stands for one.
    pub fn from_number(number: u32) -> (op: Option<Self>)
        ensures
            op == operation(number),
    {
        let op = match number {
            3 => OpNum::Access,
            4 => OpNum::Close,
            5 => OpNum::Commit,
            6 => OpNum::Create,
            8 => OpNum::DelegReturn,
            9 => OpNum::GetAttr,
            10 => OpNum::GetFh,
            11 => OpNum::Link,
            12 => OpNum::Lock,
            13 => OpNum::Lockt,
            14 => OpNum::Locku,
            15 => OpNum::Lookup,
            16 => OpNum::Lookupp,
            18 => OpNum::Open,
            20 => OpNum::OpenAttr,
            22 => OpNum::PutFh,
            24 => OpNum::PutRootFh,
            25 => OpNum::Read,
            26 => OpNum::ReadDir,
            27 => OpNum::ReadLink,
            28 => OpNum::Remove,
            29 => OpNum::Rename,
            31 => OpNum::RestoreFh,
            32 => OpNum::SaveFh,
            34 => OpNum::SetAttr,
            38 => OpNum::Write,
            41 => OpNum::BindConnToSession,
            42 => OpNum::ExchangeId,
            43 => OpNum::CreateSession,
            44 => OpNum::DestroySession,
            47 => OpNum::GetDeviceInfo,
            49 => OpNum::LayoutCommit,
            50 => OpNum::LayoutGet,
            51 => OpNum::LayoutReturn,
            53 => OpNum::Sequence,
            55 => OpNum::TestStateId,
            56 => OpNum::FreeStateId,
            57 => OpNum::DestroyClientId,
            58 => OpNum::ReclaimComplete,
            _ => return None,
        };
        proof {
            assert(opcode(op) == number);
            lemma_opcodes_are_distinct(op, operation(number)->Some_0);
        }
        Some(op)
    }

    pub fn class(self) -> (class: OperationClass)
        ensures
            class == class_of(self),
    {
        match self {
            OpNum::Access
            | OpNum::GetAttr
            | OpNum::GetFh
            | OpNum::Lookup
            | OpNum::Lookupp
            | OpNum::PutFh
            | OpNum::PutRootFh
            | OpNum::Read
            | OpNum::ReadDir
            | OpNum::ReadLink
            | OpNum::RestoreFh
            | OpNum::SaveFh
            | OpNum::Lockt
            | OpNum::GetDeviceInfo
            | OpNum::TestStateId => OperationClass::ReadOnly,
            OpNum::ExchangeId
            | OpNum::CreateSession
            | OpNum::DestroySession
            | OpNum::BindConnToSession
            | OpNum::Sequence
            | OpNum::ReclaimComplete
            | OpNum::DestroyClientId => OperationClass::SessionControl,
            OpNum::Close
            | OpNum::Commit
            | OpNum::Create
            | OpNum::Link
            | OpNum::Open
            | OpNum::Remove
            | OpNum::Rename
            | OpNum::SetAttr
            | OpNum::Write
            | OpNum::OpenAttr
            | OpNum::Lock
            | OpNum::Locku
            | OpNum::LayoutGet
            | OpNum::LayoutCommit
            | OpNum::LayoutReturn
            | OpNum::DelegReturn
            | OpNum::FreeStateId => OperationClass::ReplaySensitive,
        }
    }
}

/// The class that errors speak of.
pub open spec fn error_class(class: OperationClass) -> crate::error::OperationClass {
    match class {
        OperationClass::ReadOnly => crate::error::OperationClass::ReadOnly,
        OperationClass::SessionControl => crate::error::OperationClass::SessionControl,
        OperationClass::ReplaySensitive => crate::error::OperationClass::ReplaySensitive,
    }
}

impl From<OperationClass> for crate::error::OperationClass {
    fn from(value: OperationClass) -> (class: Self) {
        match value {
            OperationClass::ReadOnly => crate::error::OperationClass::ReadOnly,
            OperationClass::SessionControl => crate::error::OperationClass::SessionControl,
            OperationClass::ReplaySensitive => crate::error::OperationClass::ReplaySensitive,
        }
    }
}

impl vstd::std_specs::convert::FromSpecImpl<OperationClass> for crate::error::OperationClass {
    open spec fn obeys_from_spec() -> bool {
        true
    }

    open spec fn from_spec(value: OperationClass) -> Self {
        error_class(value)
    }
}

/// A single encoded operation (opcode + pre-serialized args).
#[derive(Clone, Debug)]
pub struct EncodedOp {
    pub opcode: OpNum,
    pub args: Vec<u8>,
}

/// An operation with its arguments as bytes.
pub struct OpView {
    pub opcode: OpNum,
    pub args: Seq<u8>,
}

impl View for EncodedOp {
    type V = OpView;

    open spec fn view(&self) -> OpView {
        OpView { opcode: self.opcode, args: self.args@ }
    }
}

/// Builder for COMPOUND4args requests.
///
/// Operations are appended via chainable methods. The builder is consumed
/// when it is encoded to the wire format.
#[derive(Debug)]
pub struct CompoundBuilder {
    pub tag: String,
    pub ops: Vec<EncodedOp>,
    pub required_generation: Option<u64>,
}

/// A request: its tag, its operations in order, and the session generation it is bound to.
#[verifier::ext_equal]
pub struct Request {
    pub tag: Seq<char>,
    pub ops: Seq<OpView>,
    pub required_generation: Option<u64>,
}

impl Request {
    /// The request with one more operation at its end.
    pub open spec fn with_op(self, opcode: OpNum, args: Seq<u8>) -> Request {
        Request { ops: self.ops.push(OpView { opcode, args }), ..self }
    }
}

/// What a sequence of encoded operations stands for.
pub open spec fn op_views(ops: Seq<EncodedOp>) -> Seq<OpView> {
    Seq::new(ops.len(), |i: int| ops[i]@)
}

impl View for CompoundBuilder {
    type V = Request;

    open spec fn view(&self) -> Request {
        Request {
            tag: self.tag@,
            ops: op_views(self.ops@),
            required_generation: self.required_generation,
        }
    }
}

pub const SEQUENCE_CACHE_THIS_OFFSET: usize = 28;

// Minimum accepted RPC reply (AUTH_NONE verifier) plus COMPOUND4res, a successful
// SEQUENCE result, and the opcode/status pair for each remaining operation.
pub const MIN_RPC_REPLY_ENVELOPE_SIZE: usize = 24;

pub const MIN_COMPOUND_REPLY_ENVELOPE_SIZE: usize = 12;

pub const SEQUENCE_SUCCESS_REPLY_SIZE: usize = 44;

pub const MIN_OPERATION_REPLY_SIZE: usize = 8;

/// The size of the smallest successful reply to a request, as far as a word can hold it.
pub open spec fn minimum_reply(tag_len: nat, op_count: nat) -> u32 {
    let others: nat = if op_count == 0 { 0 } else { (op_count - 1) as nat };
    let size = MIN_RPC_REPLY_ENVELOPE_SIZE + MIN_COMPOUND_REPLY_ENVELOPE_SIZE + padded(tag_len)
        + SEQUENCE_SUCCESS_REPLY_SIZE + others * MIN_OPERATION_REPLY_SIZE;
    if size > u32::MAX {
        u32::MAX
    } else {
        size as u32
    }
}

/// Whether an operation behind the first one is in the class.
pub open spec fn holds_class(ops: Seq<OpView>, class: OperationClass) -> bool {
    exists|i: int| 1 <= i < ops.len() && class_of(#[trigger] ops[i].opcode) == class
}

/// The most harmful class behind the first operation; a request of at most one operation
/// only controls the session.
pub open spec fn request_class(ops: Seq<OpView>) -> OperationClass {
    if ops.len() <= 1 || holds_class(ops, OperationClass::ReplaySensitive) {
        if ops.len() <= 1 {
            OperationClass::SessionControl
        } else {
            OperationClass::ReplaySensitive
        }
    } else if holds_class(ops, OperationClass::SessionControl) {
        OperationClass::SessionControl
    } else {
        OperationClass::ReadOnly
    }
}

/// Whether the server has to keep the reply.
pub open spec fn wants_cached_reply(ops: Seq<OpView>) -> bool {
    request_class(ops) == OperationClass::ReplaySensitive
}

/// Whether the first operation is a SEQUENCE with room for the flag.
pub open spec fn starts_with_sequence(ops: Seq<OpView>) -> bool {
    &&& ops.len() > 0
    &&& ops[0].opcode == OpNum::Sequence
    &&& ops[0].args.len() >= SEQUENCE_CACHE_THIS_OFFSET + 4
}

/// The arguments of a SEQUENCE with the reply-cache flag replaced.
pub open spec fn with_cache_flag(args: Seq<u8>, cache: bool) -> Seq<u8> {
    args.take(SEQUENCE_CACHE_THIS_OFFSET as int) + bool32(cache) + args.skip(
        SEQUENCE_CACHE_THIS_OFFSET + 4,
    )
}

/// The operations as they stand in the argument array.
pub open spec fn op_bytes(ops: Seq<OpView>) -> Seq<u8>
    decreases ops.len(),
{
    if ops.len() == 0 {
        Seq::empty()
    } else {
        op_bytes(ops.drop_last()) + be32(opcode(ops.last().opcode)) + ops.last().args
    }
}

/// COMPOUND4args.
pub open spec fn compound_args(request: Request) -> Seq<u8> {
    opaque(encode_utf8(request.tag)) + be32(NFS41_MINOR_VERSION) + be32(request.ops.len() as u32)
        + op_bytes(request.ops)
}

/// The body of LAYOUTCOMMIT.
pub open spec fn layoutcommit_args(
    offset: u64,
    length: u64,
    reclaim: bool,
    stateid: Seq<u8>,
    last_write_offset: Option<u64>,
    layout_type: u32,
) -> Seq<u8> {
    be64(offset) + be64(length) + bool32(reclaim) + stateid + (match last_write_offset {
        Some(last) => bool32(true) + be64(last),
        None => bool32(false),
    }) + be32(0) + be32(layout_type) + be32(0)
}

/// The body of LOCK: a new lock owner brings its open state, an existing one its lock state.
pub open spec fn lock_args(
    lock_type: u32,
    reclaim: bool,
    offset: u64,
    length: u64,
    new_lock_owner: bool,
    stateid: Seq<u8>,
    lock_seqid: u32,
    open_seqid: u32,
    lock_owner: Seq<u8>,
    client_id: u64,
) -> Seq<u8> {
    be32(lock_type) + bool32(reclaim) + be64(offset) + be64(length) + bool32(new_lock_owner) + if new_lock_owner {
        be32(open_seqid) + stateid + be32(lock_seqid) + be64(client_id) + opaque(lock_owner)
    } else {
        stateid + be32(lock_seqid)
    }
}

/// Identifiers of sixteen bytes, one after the other.
pub open spec fn stateid_bytes(stateids: Seq<[u8; 16]>) -> Seq<u8>
    decreases stateids.len(),
{
    if stateids.len() == 0 {
        Seq::empty()
    } else {
        stateid_bytes(stateids.drop_last()) + stateids.last()@
    }
}

impl CompoundBuilder {
    pub fn new(tag: &str) -> (builder: Self)
        ensures
            builder@ == (Request {
                tag: tag@,
                ops: Seq::empty(),
                required_generation: None,
            }),
    {
        let builder = CompoundBuilder {
            tag: String::from_str(tag),
            ops: Vec::new(),
            required_generation: None,
        };
        assert(builder@.ops =~= Seq::<OpView>::empty());
        builder
    }

    /// Number of operations currently in the builder.
    pub fn op_count(&self) -> (count: usize)
        ensures
            count == self@.ops.len(),
    {
        self.ops.len()
    }

    pub fn enforce_max_operations(&self, maximum: u32) -> (result: Result<()>)
        ensures
            ({
                let count = self@.ops.len();
                if count > u32::MAX {
                    result is Err && result->Err_0@ == ErrorView::Rpc(
                        "COMPOUND operation count exceeds u32"@,
                    )
                } else if count == 0 || count > maximum {
                    result is Err && result->Err_0@ == ErrorView::Rpc(
                        "COMPOUND contains "@ + decimal(count)
                            + " operations; channel maximum is "@ + decimal(maximum as nat),
                    )
                } else {
                    result is Ok
                }
            }),
    {
        if self.ops.len() as u64 > u32::MAX as u64 {
            return Err(rpc_error("COMPOUND operation count exceeds u32"));
        }
        let count: u32 = self.ops.len() as u32;
        if count == 0 || count > maximum {
            let mut text = with_number("COMPOUND contains ", count as u64);
            text.append(" operations; channel maximum is ");
            push_decimal(&mut text, maximum as u64);
            return Err(NfsError::Rpc(text));
        }
        Ok(())
    }

    /// The most harmful class behind the first operation.
    fn strongest_class(&self) -> (class: OperationClass)
        ensures
            class == request_class(self@.ops),
    {
        if self.ops.len() <= 1 {
            return OperationClass::SessionControl;
        }
        let mut control = false;
        let mut i: usize = 1;
        while i < self.ops.len()
            invariant
                1 <= i <= self.ops@.len(),
                self@.ops.len() == self.ops@.len(),
                forall|k: int| 1 <= k < i ==> class_of(#[trigger] self@.ops[k].opcode)
                    != OperationClass::ReplaySensitive,
                control ==> holds_class(self@.ops, OperationClass::SessionControl),
                !control ==> forall|k: int| 1 <= k < i ==> class_of(
                    #[trigger] self@.ops[k].opcode,
                ) == OperationClass::ReadOnly,
            decreases self.ops.len() - i,
        {
            let class = self.ops[i].opcode.class();
            assert(class_of(self@.ops[i as int].opcode) == class);
            match class {
                OperationClass::ReplaySensitive => return OperationClass::ReplaySensitive,
                OperationClass::SessionControl => {
                    control = true;
                },
                OperationClass::ReadOnly => {},
            }
            i += 1;
        }
        if control {
            OperationClass::SessionControl
        } else {
            OperationClass::ReadOnly
        }
    }

    pub fn operation_class(&self) -> (class: crate::error::OperationClass)
        ensures
            class == error_class(request_class(self@.ops)),
    {
        crate::error::OperationClass::from(self.strongest_class())
    }

    pub fn require_generation(self, generation: u64) -> (builder: Self)
        ensures
            builder@ == (if generation != 0 {
                Request { required_generation: Some(generation), ..self@ }
            } else {
                self@
            }),
    {
        let mut builder = self;
        if generation != 0 {
            builder.required_generation = Some(generation);
        }
        builder
    }

    pub fn required_generation(&self) -> (generation: Option<u64>)
        ensures
            generation == self@.required_generation,
    {
        self.required_generation
    }

    /// The builder with one more operation at its end.
    fn push_op(self, opcode: OpNum, args: Vec<u8>) -> (builder: Self)
        ensures
            builder@ == self@.with_op(opcode, args@),
    {
        let mut builder = self;
        builder.ops.push(EncodedOp { opcode, args });
        assert(builder@.ops =~= self@.ops.push(OpView { opcode, args: args@ }));
        builder
    }

    /// Apply the reply-cache policy after all COMPOUND operations have been added.
    ///
    /// RFC 5661 §2.10.6.1.3 requires replay-sensitive requests to retain enough
    /// reply state for exactly-once handling. Reject a channel that cannot hold
    /// even the smallest successful reply for this COMPOUND. Larger,
    /// operation-dependent replies remain subject to NFS4ERR_REP_TOO_BIG_TO_CACHE.
    pub fn apply_sequence_cache_policy(self, max_cached_response_size: u32) -> (result: Result<Self>)
        ensures
            ({
                let ops = self@.ops;
                let required = minimum_reply(encode_utf8(self@.tag).len(), ops.len());
                if wants_cached_reply(ops) && max_cached_response_size < required {
                    result is Err && result->Err_0@ == ErrorView::Rpc(
                        "replay-sensitive COMPOUND requires at least "@ + decimal(required as nat)
                            + " cached response bytes, server negotiated "@ + decimal(
                            max_cached_response_size as nat,
                        ),
                    )
                } else if ops.len() == 0 {
                    result is Err && result->Err_0@ == ErrorView::Rpc(
                        "COMPOUND has no SEQUENCE operation"@,
                    )
                } else if !starts_with_sequence(ops) {
                    result is Err && result->Err_0@ == ErrorView::Rpc(
                        "COMPOUND first operation is not a valid SEQUENCE"@,
                    )
                } else {
                    result is Ok && result->Ok_0@ == (Request {
                        ops: ops.update(
                            0,
                            OpView {
                                opcode: OpNum::Sequence,
                                args: with_cache_flag(ops[0].args, wants_cached_reply(ops)),
                            },
                        ),
                        ..self@
                    })
                }
            }),
    {
        let cachethis = match self.strongest_class() {
            OperationClass::ReplaySensitive => true,
            _ => false,
        };
        let required_minimum: u32 = self.minimum_cached_response_size();
        if cachethis && max_cached_response_size < required_minimum {
            let mut text = with_number(
                "replay-sensitive COMPOUND requires at least ",
                required_minimum as u64,
            );
            text.append(" cached response bytes, server negotiated ");
            push_decimal(&mut text, max_cached_response_size as u64);
            return Err(NfsError::Rpc(text));
        }
        if self.ops.len() == 0 {
            return Err(rpc_error("COMPOUND has no SEQUENCE operation"));
        }
        let is_sequence = match self.ops[0].opcode {
            OpNum::Sequence => true,
            _ => false,
        };
        assert(self@.ops[0] == self.ops@[0]@);
        if !is_sequence || self.ops[0].args.len() < SEQUENCE_CACHE_THIS_OFFSET + 4 {
            return Err(rpc_error("COMPOUND first operation is not a valid SEQUENCE"));
        }
        let ghost before = self.ops@[0].args@;
        let mut flag: Vec<u8> = Vec::new();
        xdr_bool(&mut flag, cachethis);
        let mut args: Vec<u8> = Vec::new();
        append_bytes(&mut args, vstd::slice::slice_subrange(&self.ops[0].args, 0, SEQUENCE_CACHE_THIS_OFFSET));
        append_bytes(&mut args, &flag);
        append_bytes(
            &mut args,
            vstd::slice::slice_subrange(
                &self.ops[0].args,
                SEQUENCE_CACHE_THIS_OFFSET + 4,
                self.ops[0].args.len(),
            ),
        );
        assert(args@ =~= with_cache_flag(before, cachethis));
        let mut builder = self;
        builder.ops[0] = EncodedOp { opcode: OpNum::Sequence, args };
        assert(builder@.ops =~= self@.ops.update(
            0,
            OpView { opcode: OpNum::Sequence, args: args@ },
        ));
        Ok(builder)
    }

    /// The size of the smallest successful reply.
    pub fn minimum_cached_response_size(&self) -> (size: u32)
        ensures
            size == minimum_reply(encode_utf8(self@.tag).len(), self@.ops.len()),
    {
        let tag_len: u128 = self.tag.as_str().as_bytes().len() as u128;
        let padded_tag_len: u128 = (tag_len + 3) / 4 * 4;
        let remaining_ops: usize = if self.ops.len() == 0 { 0 } else { self.ops.len() - 1 };
        let size: u128 = (MIN_RPC_REPLY_ENVELOPE_SIZE + MIN_COMPOUND_REPLY_ENVELOPE_SIZE) as u128
            + padded_tag_len + SEQUENCE_SUCCESS_REPLY_SIZE as u128 + remaining_ops as u128
            * MIN_OPERATION_REPLY_SIZE as u128;
        if size > u32::MAX as u128 {
            u32::MAX
        } else {
            size as u32
        }
    }

    pub fn sequence(
        self,
        session_id: &[u8; 16],
        sequence_id: u32,
        slot_id: u32,
        highest_slot_id: u32,
    ) -> (builder: Self)
        ensures
            builder@ == self@.with_op(
                OpNum::Sequence,
                session_id@ + be32(sequence_id) + be32(slot_id) + be32(highest_slot_id)
                    + bool32(false),
            ),
    {
        let mut args: Vec<u8> = Vec::new();
        append_bytes(&mut args, session_id);
        xdr_u32(&mut args, sequence_id);
        xdr_u32(&mut args, slot_id);
        xdr_u32(&mut args, highest_slot_id);
        xdr_bool(&mut args, false);
        assert(args@ =~= session_id@ + be32(sequence_id) + be32(slot_id) + be32(highest_slot_id)
            + bool32(false));
        self.push_op(OpNum::Sequence, args)
    }

    /// EXCHANGE_ID without state protection and with one implementation entry of date zero.
    pub fn exchange_id(
        self,
        co_verifier: &[u8; 8],
        co_ownerid: &[u8],
        flags: u32,
        impl_domain: &str,
        impl_name: &str,
    ) -> (builder: Self)
        ensures
            builder@ == self@.with_op(
                OpNum::ExchangeId,
                co_verifier@ + opaque(co_ownerid@) + be32(flags) + be32(0) + be32(1)
                    + opaque(encode_utf8(impl_domain@)) + opaque(encode_utf8(impl_name@))
                    + be64(0) + be32(0),
            ),
    {
        let mut args: Vec<u8> = Vec::new();
        append_bytes(&mut args, co_verifier);
        xdr_var_bytes(&mut args, co_ownerid);
        xdr_u32(&mut args, flags);
        xdr_u32(&mut args, 0);
        xdr_u32(&mut args, 1);
        xdr_string(&mut args, impl_domain);
        xdr_string(&mut args, impl_name);
        xdr_i64(&mut args, 0);
        xdr_u32(&mut args, 0);
        assert(args@ =~= co_verifier@ + opaque(co_ownerid@) + be32(flags) + be32(0) + be32(1)
            + opaque(encode_utf8(impl_domain@)) + opaque(encode_utf8(impl_name@)) + be64(0)
            + be32(0));
        self.push_op(OpNum::ExchangeId, args)
    }

    /// CREATE_SESSION with one AUTH_NONE entry of callback security.
    pub fn create_session(
        self,
        client_id: u64,
        sequence_id: u32,
        flags: u32,
        fore_attrs: &ChannelAttrsArgs,
        back_attrs: &ChannelAttrsArgs,
        cb_program: u32,
    ) -> (builder: Self)
        ensures
            builder@ == self@.with_op(
                OpNum::CreateSession,
                be64(client_id) + be32(sequence_id) + be32(flags) + channel_attrs(fore_attrs)
                    + channel_attrs(back_attrs) + be32(cb_program) + be32(1) + be32(0),
            ),
    {
        let mut args: Vec<u8> = Vec::new();
        xdr_u64(&mut args, client_id);
        xdr_u32(&mut args, sequence_id);
        xdr_u32(&mut args, flags);
        fore_attrs.encode(&mut args);
        back_attrs.encode(&mut args);
        xdr_u32(&mut args, cb_program);
        xdr_u32(&mut args, 1);
        xdr_u32(&mut args, 0);
        assert(args@ =~= be64(client_id) + be32(sequence_id) + be32(flags)
            + channel_attrs(fore_attrs) + channel_attrs(back_attrs) + be32(cb_program) + be32(1)
            + be32(0));
        self.push_op(OpNum::CreateSession, args)
    }

    pub fn destroy_session(self, session_id: &[u8; 16]) -> (builder: Self)
        ensures
            builder@ == self@.with_op(OpNum::DestroySession, session_id@),
    {
        let mut args: Vec<u8> = Vec::new();
        append_bytes(&mut args, session_id);
        assert(args@ =~= session_id@);
        self.push_op(OpNum::DestroySession, args)
    }

    /// BIND_CONN_TO_SESSION (RFC 5661 §18.34).
    /// dir: CDFC4_FORE=1, CDFC4_BACK=2, CDFC4_FORE_OR_BOTH=3.
    pub fn bind_conn_to_session(
        self,
        session_id: &[u8; 16],
        dir: u32,
        use_conn_in_rdma_mode: bool,
    ) -> (builder: Self)
        ensures
            builder@ == self@.with_op(
                OpNum::BindConnToSession,
                session_id@ + be32(dir) + bool32(use_conn_in_rdma_mode),
            ),
    {
        let mut args: Vec<u8> = Vec::new();
        append_bytes(&mut args, session_id);
        xdr_u32(&mut args, dir);
        xdr_bool(&mut args, use_conn_in_rdma_mode);
        assert(args@ =~= session_id@ + be32(dir) + bool32(use_conn_in_rdma_mode));
        self.push_op(OpNum::BindConnToSession, args)
    }

    pub fn reclaim_complete(self, one_fs: bool) -> (builder: Self)
        ensures
            builder@ == self@.with_op(OpNum::ReclaimComplete, bool32(one_fs)),
    {
        let mut args: Vec<u8> = Vec::new();
        xdr_bool(&mut args, one_fs);
        assert(args@ =~= bool32(one_fs));
        self.push_op(OpNum::ReclaimComplete, args)
    }

    pub fn destroy_client_id(self, client_id: u64) -> (builder: Self)
        ensures
            builder@ == self@.with_op(OpNum::DestroyClientId, be64(client_id)),
    {
        let mut args: Vec<u8> = Vec::new();
        xdr_u64(&mut args, client_id);
        assert(args@ =~= be64(client_id));
        self.push_op(OpNum::DestroyClientId, args)
    }

    pub fn putrootfh(self) -> (builder: Self)
        ensures
            builder@ == self@.with_op(OpNum::PutRootFh, Seq::empty()),
    {
        self.push_op(OpNum::PutRootFh, Vec::new())
    }

    pub fn putfh(self, fh: &[u8]) -> (builder: Self)
        ensures
            builder@ == self@.with_op(OpNum::PutFh, opaque(fh@)),
    {
        let mut args: Vec<u8> = Vec::new();
        xdr_var_bytes(&mut args, fh);
        assert(args@ =~= opaque(fh@));
        self.push_op(OpNum::PutFh, args)
    }

    pub fn getfh(self) -> (builder: Self)
        ensures
            builder@ == self@.with_op(OpNum::GetFh, Seq::empty()),
    {
        self.push_op(OpNum::GetFh, Vec::new())
    }

    pub fn savefh(self) -> (builder: Self)
        ensures
            builder@ == self@.with_op(OpNum::SaveFh, Seq::empty()),
    {
        self.push_op(OpNum::SaveFh, Vec::new())
    }

    pub fn restorefh(self) -> (builder: Self)
        ensures
            builder@ == self@.with_op(OpNum::RestoreFh, Seq::empty()),
    {
        self.push_op(OpNum::RestoreFh, Vec::new())
    }

    /// OPENATTR: open the named attribute directory for the current file handle.
    pub fn openattr(self, create_dir: bool) -> (builder: Self)
        ensures
            builder@ == self@.with_op(OpNum::OpenAttr, bool32(create_dir)),
    {
        let mut args: Vec<u8> = Vec::new();
        xdr_bool(&mut args, create_dir);
        assert(args@ =~= bool32(create_dir));
        self.push_op(OpNum::OpenAttr, args)
    }

    pub fn lookup(self, name: &str) -> (builder: Self)
        ensures
            builder@ == self@.with_op(OpNum::Lookup, opaque(encode_utf8(name@))),
    {
        let mut args: Vec<u8> = Vec::new();
        xdr_string(&mut args, name);
        assert(args@ =~= opaque(encode_utf8(name@)));
        self.push_op(OpNum::Lookup, args)
    }

    pub fn lookupp(self) -> (builder: Self)
        ensures
            builder@ == self@.with_op(OpNum::Lookupp, Seq::empty()),
    {
        self.push_op(OpNum::Lookupp, Vec::new())
    }

    pub fn getattr(self, bitmap: &[u32]) -> (builder: Self)
        ensures
            builder@ == self@.with_op(OpNum::GetAttr, bitmap4(bitmap@)),
    {
        let mut args: Vec<u8> = Vec::new();
        xdr_bitmap(&mut args, bitmap);
        assert(args@ =~= bitmap4(bitmap@));
        self.push_op(OpNum::GetAttr, args)
    }

    pub fn setattr(self, stateid: &[u8; 16], attrmask: &[u32], attr_vals: &[u8]) -> (builder: Self)
        ensures
            builder@ == self@.with_op(
                OpNum::SetAttr,
                stateid@ + bitmap4(attrmask@) + opaque(attr_vals@),
            ),
    {
        let mut args: Vec<u8> = Vec::new();
        append_bytes(&mut args, stateid);
        xdr_bitmap(&mut args, attrmask);
        xdr_var_bytes(&mut args, attr_vals);
        assert(args@ =~= stateid@ + bitmap4(attrmask@) + opaque(attr_vals@));
        self.push_op(OpNum::SetAttr, args)
    }

    pub fn access(self, access_mask: u32) -> (builder: Self)
        ensures
            builder@ == self@.with_op(OpNum::Access, be32(access_mask)),
    {
        let mut args: Vec<u8> = Vec::new();
        xdr_u32(&mut args, access_mask);
        assert(args@ =~= be32(access_mask));
        self.push_op(OpNum::Access, args)
    }

    pub fn read(self, stateid: &[u8; 16], offset: u64, count: u32) -> (builder: Self)
        ensures
            builder@ == self@.with_op(OpNum::Read, stateid@ + be64(offset) + be32(count)),
    {
        let mut args: Vec<u8> = Vec::new();
        append_bytes(&mut args, stateid);
        xdr_u64(&mut args, offset);
        xdr_u32(&mut args, count);
        assert(args@ =~= stateid@ + be64(offset) + be32(count));
        self.push_op(OpNum::Read, args)
    }

    pub fn write(self, stateid: &[u8; 16], offset: u64, stable: u32, data: &[u8]) -> (builder: Self)
        ensures
            builder@ == self@.with_op(
                OpNum::Write,
                stateid@ + be64(offset) + be32(stable) + opaque(data@),
            ),
    {
        let mut args: Vec<u8> = Vec::new();
        append_bytes(&mut args, stateid);
        xdr_u64(&mut args, offset);
        xdr_u32(&mut args, stable);
        xdr_var_bytes(&mut args, data);
        assert(args@ =~= stateid@ + be64(offset) + be32(stable) + opaque(data@));
        self.push_op(OpNum::Write, args)
    }

    /// Encode WRITE header only (stateid, offset, stable, data_length) without the
    /// actual data bytes. The caller sends the data separately.
    pub fn write_header(
        self,
        stateid: &[u8; 16],
        offset: u64,
        stable: u32,
        data_len: u32,
    ) -> (builder: Self)
        ensures
            builder@ == self@.with_op(
                OpNum::Write,
                stateid@ + be64(offset) + be32(stable) + be32(data_len),
            ),
    {
        let mut args: Vec<u8> = Vec::new();
        append_bytes(&mut args, stateid);
        xdr_u64(&mut args, offset);
        xdr_u32(&mut args, stable);
        xdr_u32(&mut args, data_len);
        assert(args@ =~= stateid@ + be64(offset) + be32(stable) + be32(data_len));
        self.push_op(OpNum::Write, args)
    }

    pub fn commit(self, offset: u64, count: u32) -> (builder: Self)
        ensures
            builder@ == self@.with_op(OpNum::Commit, be64(offset) + be32(count)),
    {
        let mut args: Vec<u8> = Vec::new();
        xdr_u64(&mut args, offset);
        xdr_u32(&mut args, count);
        assert(args@ =~= be64(offset) + be32(count));
        self.push_op(OpNum::Commit, args)
    }

    pub fn readdir(
        self,
        cookie: u64,
        cookieverf: &[u8; 8],
        dircount: u32,
        maxcount: u32,
        attr_request: &[u32],
    ) -> (builder: Self)
        ensures
            builder@ == self@.with_op(
                OpNum::ReadDir,
                be64(cookie) + cookieverf@ + be32(dircount) + be32(maxcount)
                    + bitmap4(attr_request@),
            ),
    {
        let mut args: Vec<u8> = Vec::new();
        xdr_u64(&mut args, cookie);
        append_bytes(&mut args, cookieverf);
        xdr_u32(&mut args, dircount);
        xdr_u32(&mut args, maxcount);
        xdr_bitmap(&mut args, attr_request);
        assert(args@ =~= be64(cookie) + cookieverf@ + be32(dircount) + be32(maxcount)
            + bitmap4(attr_request@));
        self.push_op(OpNum::ReadDir, args)
    }

    pub fn readlink(self) -> (builder: Self)
        ensures
            builder@ == self@.with_op(OpNum::ReadLink, Seq::empty()),
    {
        self.push_op(OpNum::ReadLink, Vec::new())
    }

    pub fn open(self, open_args: &OpenArgs) -> (builder: Self)
        ensures
            builder@ == self@.with_op(OpNum::Open, open_args.wire()),
    {
        let mut args: Vec<u8> = Vec::new();
        open_args.encode(&mut args);
        assert(args@ =~= open_args.wire());
        self.push_op(OpNum::Open, args)
    }

    pub fn close(self, seqid: u32, stateid: &[u8; 16]) -> (builder: Self)
        ensures
            builder@ == self@.with_op(OpNum::Close, be32(seqid) + stateid@),
    {
        let mut args: Vec<u8> = Vec::new();
        xdr_u32(&mut args, seqid);
        append_bytes(&mut args, stateid);
        assert(args@ =~= be32(seqid) + stateid@);
        self.push_op(OpNum::Close, args)
    }

    /// CREATE for directories, sockets, FIFOs, etc.
    /// For NF4LNK use `create_symlink` instead.
    pub fn create(
        self,
        objtype: u32,
        name: &str,
        attrmask: &[u32],
        attr_vals: &[u8],
    ) -> (builder: Self)
        ensures
            builder@ == self@.with_op(
                OpNum::Create,
                be32(objtype) + opaque(encode_utf8(name@)) + bitmap4(attrmask@)
                    + opaque(attr_vals@),
            ),
    {
        let mut args: Vec<u8> = Vec::new();
        xdr_u32(&mut args, objtype);
        xdr_string(&mut args, name);
        xdr_bitmap(&mut args, attrmask);
        xdr_var_bytes(&mut args, attr_vals);
        assert(args@ =~= be32(objtype) + opaque(encode_utf8(name@)) + bitmap4(attrmask@)
            + opaque(attr_vals@));
        self.push_op(OpNum::Create, args)
    }

    /// CREATE for symlinks (NF4LNK): the target comes before the name.
    pub fn create_symlink(
        self,
        name: &str,
        link_target: &str,
        attrmask: &[u32],
        attr_vals: &[u8],
    ) -> (builder: Self)
        ensures
            builder@ == self@.with_op(
                OpNum::Create,
                be32(5) + opaque(encode_utf8(link_target@)) + opaque(encode_utf8(name@))
                    + bitmap4(attrmask@) + opaque(attr_vals@),
            ),
    {
        let mut args: Vec<u8> = Vec::new();
        xdr_u32(&mut args, 5);
        xdr_string(&mut args, link_target);
        xdr_string(&mut args, name);
        xdr_bitmap(&mut args, attrmask);
        xdr_var_bytes(&mut args, attr_vals);
        assert(args@ =~= be32(5) + opaque(encode_utf8(link_target@))
            + opaque(encode_utf8(name@)) + bitmap4(attrmask@) + opaque(attr_vals@));
        self.push_op(OpNum::Create, args)
    }

    pub fn remove(self, name: &str) -> (builder: Self)
        ensures
            builder@ == self@.with_op(OpNum::Remove, opaque(encode_utf8(name@))),
    {
        let mut args: Vec<u8> = Vec::new();
        xdr_string(&mut args, name);
        assert(args@ =~= opaque(encode_utf8(name@)));
        self.push_op(OpNum::Remove, args)
    }

    pub fn rename(self, oldname: &str, newname: &str) -> (builder: Self)
        ensures
            builder@ == self@.with_op(
                OpNum::Rename,
                opaque(encode_utf8(oldname@)) + opaque(encode_utf8(newname@)),
            ),
    {
        let mut args: Vec<u8> = Vec::new();
        xdr_string(&mut args, oldname);
        xdr_string(&mut args, newname);
        assert(args@ =~= opaque(encode_utf8(oldname@)) + opaque(encode_utf8(newname@)));
        self.push_op(OpNum::Rename, args)
    }

    pub fn link(self, newname: &str) -> (builder: Self)
        ensures
            builder@ == self@.with_op(OpNum::Link, opaque(encode_utf8(newname@))),
    {
        let mut args: Vec<u8> = Vec::new();
        xdr_string(&mut args, newname);
        assert(args@ =~= opaque(encode_utf8(newname@)));
        self.push_op(OpNum::Link, args)
    }

    /// LAYOUTGET: request a layout for parallel data access.
    /// layout_type: 1=LAYOUT4_NFSV4_1_FILES, 2=LAYOUT4_OSD2_OBJECTS, 3=LAYOUT4_BLOCK_VOLUME.
    /// iomode: 1=LAYOUTIOMODE4_READ, 2=LAYOUTIOMODE4_RW.
    pub fn layoutget(
        self,
        signal_layout_avail: bool,
        layout_type: u32,
        iomode: u32,
        offset: u64,
        length: u64,
        min_length: u64,
        stateid: &[u8; 16],
        max_count: u32,
    ) -> (builder: Self)
        ensures
            builder@ == self@.with_op(
                OpNum::LayoutGet,
                bool32(signal_layout_avail) + be32(layout_type) + be32(iomode) + be64(offset)
                    + be64(length) + be64(min_length) + stateid@ + be32(max_count),
            ),
    {
        let mut args: Vec<u8> = Vec::new();
        xdr_bool(&mut args, signal_layout_avail);
        xdr_u32(&mut args, layout_type);
        xdr_u32(&mut args, iomode);
        xdr_u64(&mut args, offset);
        xdr_u64(&mut args, length);
        xdr_u64(&mut args, min_length);
        append_bytes(&mut args, stateid);
        xdr_u32(&mut args, max_count);
        assert(args@ =~= bool32(signal_layout_avail) + be32(layout_type) + be32(iomode)
            + be64(offset) + be64(length) + be64(min_length) + stateid@ + be32(max_count));
        self.push_op(OpNum::LayoutGet, args)
    }

    /// GETDEVICEINFO: get info about a data server device, with no notifications wanted.
    pub fn getdeviceinfo(
        self,
        device_id: &[u8; 16],
        layout_type: u32,
        max_count: u32,
    ) -> (builder: Self)
        ensures
            builder@ == self@.with_op(
                OpNum::GetDeviceInfo,
                device_id@ + be32(layout_type) + be32(max_count) + be32(0),
            ),
    {
        let mut args: Vec<u8> = Vec::new();
        append_bytes(&mut args, device_id);
        xdr_u32(&mut args, layout_type);
        xdr_u32(&mut args, max_count);
        xdr_u32(&mut args, 0);
        assert(args@ =~= device_id@ + be32(layout_type) + be32(max_count) + be32(0));
        self.push_op(OpNum::GetDeviceInfo, args)
    }

    /// LOCKT: test for a byte-range lock (does not acquire).
    pub fn lockt(
        self,
        lock_type: u32,
        offset: u64,
        length: u64,
        lock_owner: &[u8],
        client_id: u64,
    ) -> (builder: Self)
        ensures
            builder@ == self@.with_op(
                OpNum::Lockt,
                be32(lock_type) + be64(offset) + be64(length) + be64(client_id)
                    + opaque(lock_owner@),
            ),
    {
        let mut args: Vec<u8> = Vec::new();
        xdr_u32(&mut args, lock_type);
        xdr_u64(&mut args, offset);
        xdr_u64(&mut args, length);
        xdr_u64(&mut args, client_id);
        xdr_var_bytes(&mut args, lock_owner);
        assert(args@ =~= be32(lock_type) + be64(offset) + be64(length) + be64(client_id)
            + opaque(lock_owner@));
        self.push_op(OpNum::Lockt, args)
    }

    /// LOCKU: release a byte-range lock.
    pub fn locku(
        self,
        lock_type: u32,
        seqid: u32,
        lock_stateid: &[u8; 16],
        offset: u64,
        length: u64,
    ) -> (builder: Self)
        ensures
            builder@ == self@.with_op(
                OpNum::Locku,
                be32(lock_type) + be32(seqid) + lock_stateid@ + be64(offset) + be64(length),
            ),
    {
        let mut args: Vec<u8> = Vec::new();
        xdr_u32(&mut args, lock_type);
        xdr_u32(&mut args, seqid);
        append_bytes(&mut args, lock_stateid);
        xdr_u64(&mut args, offset);
        xdr_u64(&mut args, length);
        assert(args@ =~= be32(lock_type) + be32(seqid) + lock_stateid@ + be64(offset)
            + be64(length));
        self.push_op(OpNum::Locku, args)
    }

    /// DELEGRETURN: return a delegation to the server (RFC 5661 §18.14).
    pub fn delegreturn(self, stateid: &[u8; 16]) -> (builder: Self)
        ensures
            builder@ == self@.with_op(OpNum::DelegReturn, stateid@),
    {
        let mut args: Vec<u8> = Vec::new();
        append_bytes(&mut args, stateid);
        assert(args@ =~= stateid@);
        self.push_op(OpNum::DelegReturn, args)
    }

    /// FREE_STATEID: free a stateid that is no longer needed.
    pub fn free_stateid(self, stateid: &[u8; 16]) -> (builder: Self)
        ensures
            builder@ == self@.with_op(OpNum::FreeStateId, stateid@),
    {
        let mut args: Vec<u8> = Vec::new();
        append_bytes(&mut args, stateid);
        assert(args@ =~= stateid@);
        self.push_op(OpNum::FreeStateId, args)
    }

    /// LAYOUTCOMMIT: commit data written through a layout.
    pub fn layoutcommit(
        self,
        offset: u64,
        length: u64,
        reclaim: bool,
        stateid: &[u8; 16],
        last_write_offset: Option<u64>,
        layout_type: u32,
    ) -> (builder: Self)
        ensures
            builder@ == self@.with_op(
                OpNum::LayoutCommit,
                layoutcommit_args(offset, length, reclaim, stateid@, last_write_offset, layout_type),
            ),
    {
        let mut args: Vec<u8> = Vec::new();
        xdr_u64(&mut args, offset);
        xdr_u64(&mut args, length);
        xdr_bool(&mut args, reclaim);
        append_bytes(&mut args, stateid);
        // newoffset4: bool + optional offset
        if let Some(last) = last_write_offset {
            xdr_bool(&mut args, true);
            xdr_u64(&mut args, last);
        } else {
            xdr_bool(&mut args, false);
        }
        // time_modify: SET_TO_SERVER_TIME = 0
        xdr_u32(&mut args, 0);
        xdr_u32(&mut args, layout_type);
        // layoutupdate4: opaque body (empty for files layout)
        xdr_u32(&mut args, 0);
        assert(args@ =~= layoutcommit_args(
            offset,
            length,
            reclaim,
            stateid@,
            last_write_offset,
            layout_type,
        ));
        self.push_op(OpNum::LayoutCommit, args)
    }

    /// LAYOUTRETURN: return a layout to the metadata server.
    /// return_type: 1=LAYOUTRETURN4_FILE, 2=LAYOUTRETURN4_FSID, 3=LAYOUTRETURN4_ALL.
    /// Only LAYOUTRETURN4_FILE has a body.
    pub fn layoutreturn(
        self,
        reclaim: bool,
        layout_type: u32,
        iomode: u32,
        return_type: u32,
        offset: u64,
        length: u64,
        stateid: &[u8; 16],
    ) -> (builder: Self)
        ensures
            builder@ == self@.with_op(
                OpNum::LayoutReturn,
                bool32(reclaim) + be32(layout_type) + be32(iomode) + be32(return_type) + if return_type
                    == 1 {
                    be64(offset) + be64(length) + stateid@ + be32(0)
                } else {
                    Seq::empty()
                },
            ),
    {
        let mut args: Vec<u8> = Vec::new();
        xdr_bool(&mut args, reclaim);
        xdr_u32(&mut args, layout_type);
        xdr_u32(&mut args, iomode);
        xdr_u32(&mut args, return_type);
        if return_type == 1 {
            xdr_u64(&mut args, offset);
            xdr_u64(&mut args, length);
            append_bytes(&mut args, stateid);
            // lrf_body (opaque, empty for files layout)
            xdr_u32(&mut args, 0);
        }
        assert(args@ =~= bool32(reclaim) + be32(layout_type) + be32(iomode) + be32(return_type)
            + if return_type == 1 {
            be64(offset) + be64(length) + stateid@ + be32(0)
        } else {
            Seq::empty()
        });
        self.push_op(OpNum::LayoutReturn, args)
    }

    /// LOCK: acquire a byte-range lock.
    /// lock_type: 1=READ_LT, 2=WRITE_LT, 3=READW_LT, 4=WRITEW_LT.
    pub fn lock(
        self,
        lock_type: u32,
        reclaim: bool,
        offset: u64,
        length: u64,
        new_lock_owner: bool,
        open_stateid: &[u8; 16],
        lock_seqid: u32,
        open_seqid: u32,
        lock_owner: &[u8],
        client_id: u64,
    ) -> (builder: Self)
        ensures
            builder@ == self@.with_op(
                OpNum::Lock,
                lock_args(
                    lock_type,
                    reclaim,
                    offset,
                    length,
                    new_lock_owner,
                    open_stateid@,
                    lock_seqid,
                    open_seqid,
                    lock_owner@,
                    client_id,
                ),
            ),
    {
        let mut args: Vec<u8> = Vec::new();
        xdr_u32(&mut args, lock_type);
        xdr_bool(&mut args, reclaim);
        xdr_u64(&mut args, offset);
        xdr_u64(&mut args, length);
        if new_lock_owner {
            xdr_bool(&mut args, true);
            // open_to_lock_owner4
            xdr_u32(&mut args, open_seqid);
            append_bytes(&mut args, open_stateid);
            xdr_u32(&mut args, lock_seqid);
            // lock_owner4
            xdr_u64(&mut args, client_id);
            xdr_var_bytes(&mut args, lock_owner);
        } else {
            xdr_bool(&mut args, false);
            // exist_lock_owner4
            append_bytes(&mut args, open_stateid);
            xdr_u32(&mut args, lock_seqid);
        }
        assert(args@ =~= lock_args(
            lock_type,
            reclaim,
            offset,
            length,
            new_lock_owner,
            open_stateid@,
            lock_seqid,
            open_seqid,
            lock_owner@,
            client_id,
        ));
        self.push_op(OpNum::Lock, args)
    }

    /// TEST_STATEID: check if stateids are still valid.
    pub fn test_stateid(self, stateids: &[[u8; 16]]) -> (builder: Self)
        ensures
            builder@ == self@.with_op(
                OpNum::TestStateId,
                be32(stateids@.len() as u32) + stateid_bytes(stateids@),
            ),
    {
        let mut args: Vec<u8> = Vec::new();
        xdr_u32(&mut args, stateids.len() as u32);
        let ghost start = args@;
        assert(stateids@.take(0) =~= Seq::empty());
        assert(args@ =~= start + stateid_bytes(stateids@.take(0)));
        let mut i: usize = 0;
        while i < stateids.len()
            invariant
                i <= stateids@.len(),
                args@ == start + stateid_bytes(stateids@.take(i as int)),
            decreases stateids.len() - i,
        {
            append_bytes(&mut args, &stateids[i]);
            i += 1;
            assert(stateids@.take(i as int).drop_last() =~= stateids@.take(i - 1));
            assert(args@ =~= start + stateid_bytes(stateids@.take(i as int)));
        }
        assert(stateids@.take(stateids@.len() as int) =~= stateids@);
        assert(args@ =~= be32(stateids@.len() as u32) + stateid_bytes(stateids@));
        self.push_op(OpNum::TestStateId, args)
    }

    /// Encode the COMPOUND4args into a buffer, prefixed with the RPC header.
    pub fn encode_with_header(self, auth: &Auth, buf: &mut Vec<u8>)
        ensures
            final(buf)@ == old(buf)@ + call_header(
                NFS4_PROGRAM,
                NFS4_VERSION,
                NFS4_COMPOUND_PROC,
                auth.flavor,
                auth.body@,
            ) + compound_args(self@),
    {
        rpc_header(buf, NFS4_PROGRAM, NFS4_VERSION, NFS4_COMPOUND_PROC, auth);
        self.encode_body(buf);
    }

    /// Encode just the COMPOUND4args body (without RPC header).
    pub fn encode_body(self, buf: &mut Vec<u8>)
        ensures
            final(buf)@ == old(buf)@ + compound_args(self@),
    {
        xdr_string(buf, self.tag.as_str());
        xdr_u32(buf, NFS41_MINOR_VERSION);
        xdr_u32(buf, self.ops.len() as u32);
        let ghost start = buf@;
        assert(self@.ops.take(0) =~= Seq::empty());
        assert(buf@ =~= start + op_bytes(self@.ops.take(0)));
        let mut i: usize = 0;
        while i < self.ops.len()
            invariant
                i <= self.ops@.len(),
                self@.ops.len() == self.ops@.len(),
                buf@ == start + op_bytes(self@.ops.take(i as int)),
            decreases self.ops.len() - i,
        {
            xdr_u32(buf, self.ops[i].opcode.number());
            append_bytes(buf, &self.ops[i].args);
            i += 1;
            assert(self@.ops.take(i as int).drop_last() =~= self@.ops.take(i - 1));
            assert(buf@ =~= start + op_bytes(self@.ops.take(i as int)));
        }
        assert(self@.ops.take(self@.ops.len() as int) =~= self@.ops);
        assert(buf@ =~= old(buf)@ + compound_args(self@));
    }
}

/// Channel attributes for CREATE_SESSION.
#[derive(Clone, Copy, Debug)]
pub struct ChannelAttrsArgs {
    pub headerpadsize: u32,
    pub maxrequestsize: u32,
    pub maxresponsesize: u32,
    pub maxresponsesize_cached: u32,
    pub maxoperations: u32,
    pub maxrequests: u32,
}

/// channel_attrs4 without an RDMA entry.
pub open spec fn channel_attrs(attrs: &ChannelAttrsArgs) -> Seq<u8> {
    be32(attrs.headerpadsize) + be32(attrs.maxrequestsize) + be32(attrs.maxresponsesize) + be32(
        attrs.maxresponsesize_cached,
    ) + be32(attrs.maxoperations) + be32(attrs.maxrequests) + be32(0)
}

impl ChannelAttrsArgs {
    pub fn encode(&self, buf: &mut Vec<u8>)
        ensures
            final(buf)@ == old(buf)@ + channel_attrs(self),
    {
        xdr_u32(buf, self.headerpadsize);
        xdr_u32(buf, self.maxrequestsize);
        xdr_u32(buf, self.maxresponsesize);
        xdr_u32(buf, self.maxresponsesize_cached);
        xdr_u32(buf, self.maxoperations);
        xdr_u32(buf, self.maxrequests);
        // ca_rdma_ird<1>: empty array
        xdr_u32(buf, 0);
        assert(buf@ =~= old(buf)@ + channel_attrs(self));
    }
}

/// OPEN4_SHARE_ACCESS_WANT_NO_DELEG (RFC 8881 §18.16): the server grants no delegation.
/// A client that writes each file once gains nothing from one.
pub const OPEN4_SHARE_ACCESS_WANT_NO_DELEG: u32 = 0x0400;

pub const OPEN4_SHARE_ACCESS_WANT_WRITE_DELEG: u32 = 0x0200;

/// OPEN arguments.
#[derive(Debug)]
pub struct OpenArgs {
    pub seqid: u32,
    pub share_access: u32,
    pub share_deny: u32,
    pub client_id: u64,
    pub owner: Bytes,
    pub create: bool,
    pub create_attrs_mask: Vec<u32>,
    pub create_attrs_vals: Vec<u8>,
    pub claim_file: String,
    pub want_no_delegation: bool,
}

impl OpenArgs {
    /// The delegation wish in the share access word.
    pub open spec fn delegation_wish(self) -> u32 {
        if self.want_no_delegation {
            OPEN4_SHARE_ACCESS_WANT_NO_DELEG
        } else {
            OPEN4_SHARE_ACCESS_WANT_WRITE_DELEG
        }
    }

    /// OPEN4args: an unchecked create or none, and a claim by name.
    pub open spec fn wire(self) -> Seq<u8> {
        be32(self.seqid) + be32(self.share_access | self.delegation_wish()) + be32(self.share_deny)
            + be64(self.client_id) + opaque(contents(self.owner)) + (if self.create {
            be32(1) + be32(0) + bitmap4(self.create_attrs_mask@) + opaque(self.create_attrs_vals@)
        } else {
            be32(0)
        }) + be32(0) + opaque(encode_utf8(self.claim_file@))
    }

    pub fn encode(&self, buf: &mut Vec<u8>)
        ensures
            final(buf)@ == old(buf)@ + self.wire(),
    {
        xdr_u32(buf, self.seqid);
        let share_access: u32 = if self.want_no_delegation {
            self.share_access | OPEN4_SHARE_ACCESS_WANT_NO_DELEG
        } else {
            self.share_access | OPEN4_SHARE_ACCESS_WANT_WRITE_DELEG
        };
        xdr_u32(buf, share_access);
        xdr_u32(buf, self.share_deny);
        // open_owner4
        xdr_u64(buf, self.client_id);
        xdr_var_bytes(buf, as_slice(&self.owner));
        // openflag4
        if self.create {
            xdr_u32(buf, 1); // OPEN4_CREATE
            xdr_u32(buf, 0); // UNCHECKED4
            // fattr4: createattrs
            xdr_bitmap(buf, &self.create_attrs_mask);
            xdr_var_bytes(buf, &self.create_attrs_vals);
        } else {
            xdr_u32(buf, 0); // OPEN4_NOCREATE
        }
        // open_claim4: CLAIM_NULL = 0
        xdr_u32(buf, 0);
        xdr_string(buf, self.claim_file.as_str());
        assert(buf@ =~= old(buf)@ + self.wire());
    }
}

/// An operation that is added leaves the tag, the operations before it and the generation as
/// they are.
pub proof fn law_chaining_keeps_the_request(request: Request, opcode: OpNum, args: Seq<u8>, i: int)
    requires
        0 <= i < request.ops.len(),
    ensures
        request.with_op(opcode, args).tag == request.tag,
        request.with_op(opcode, args).required_generation == request.required_generation,
        request.with_op(opcode, args).ops.len() == request.ops.len() + 1,
        request.with_op(opcode, args).ops[i] == request.ops[i],
        request.with_op(opcode, args).ops.last() == (OpView { opcode, args }),
{
}

/// One operation behind the SEQUENCE that must not be repeated makes the whole request one
/// that must not be repeated, whatever is added to it.
pub proof fn law_one_sensitive_operation_decides(ops: Seq<OpView>, i: int, op: OpView)
    requires
        1 <= i < ops.len(),
        class_of(ops[i].opcode) == OperationClass::ReplaySensitive,
    ensures
        wants_cached_reply(ops),
        wants_cached_reply(ops.push(op)),
{
    assert(ops.push(op)[i] == ops[i]);
    assert(class_of(ops.push(op)[i].opcode) == OperationClass::ReplaySensitive);
}

/// The flag that tells the server to keep its reply is read back as it was set, and the rest
/// of the SEQUENCE stays as it is.
pub proof fn law_cache_flag_is_read_back(args: Seq<u8>, cache: bool)
    requires
        args.len() >= SEQUENCE_CACHE_THIS_OFFSET + 4,
    ensures
        ({
            let out = with_cache_flag(args, cache);
            &&& out.len() == args.len()
            &&& out.take(SEQUENCE_CACHE_THIS_OFFSET as int) == args.take(
                SEQUENCE_CACHE_THIS_OFFSET as int,
            )
            &&& word(out.skip(SEQUENCE_CACHE_THIS_OFFSET as int)) == (if cache {
                1u32
            } else {
                0u32
            })
            &&& out.skip(SEQUENCE_CACHE_THIS_OFFSET + 4) == args.skip(
                SEQUENCE_CACHE_THIS_OFFSET + 4,
            )
        }),
{
    let out = with_cache_flag(args, cache);
    let tail = args.skip(SEQUENCE_CACHE_THIS_OFFSET + 4);
    let flag = if cache {
        1u32
    } else {
        0u32
    };
    assert(out.take(SEQUENCE_CACHE_THIS_OFFSET as int) =~= args.take(
        SEQUENCE_CACHE_THIS_OFFSET as int,
    ));
    assert(out.skip(SEQUENCE_CACHE_THIS_OFFSET as int) =~= be32(flag) + tail);
    lemma_word_of_be32(flag, tail);
    assert(out.skip(SEQUENCE_CACHE_THIS_OFFSET + 4) =~= tail);
}

/// LAYOUTCOMMIT names the range, whether it is a reclaim, the stateid, the last byte written if
/// there is one, that the time stays, and the type of the layout with nothing in its body.
pub proof fn law_layoutcommit_names_its_range(
    offset: u64,
    length: u64,
    reclaim: bool,
    stateid: Seq<u8>,
    last_write_offset: Option<u64>,
    layout_type: u32,
)
    ensures
        ({
            let head = Fields::Start.hyper(offset).hyper(length).flag(reclaim).bytes(stateid);
            let last = match last_write_offset {
                Some(last) => head.flag(true).hyper(last),
                None => head.flag(false),
            };
            holds(
                layoutcommit_args(
                    offset,
                    length,
                    reclaim,
                    stateid,
                    last_write_offset,
                    layout_type,
                ),
                last.word(0).word(layout_type).word(0),
            )
        }),
{
    broadcast use crate::wire::group_fields;

    let head = be64(offset) + be64(length) + bool32(reclaim) + stateid;
    let fields = Fields::Start.hyper(offset).hyper(length).flag(reclaim).bytes(stateid);
    assert(holds(head, fields));
    match last_write_offset {
        Some(last) => {
            lemma_regroup(head, bool32(true), be64(last));
            assert(holds(head + bool32(true), fields.flag(true)));
            assert(holds(head + (bool32(true) + be64(last)), fields.flag(true).hyper(last)));
        },
        None => {
            assert(holds(head + bool32(false), fields.flag(false)));
        },
    }
}

/// LOCK names the type, whether it is a reclaim, the range, and the locker: a new lock-owner by
/// the open file, its number, and the client; one that is known by its own stateid and number.
pub proof fn law_lock_names_its_range(
    lock_type: u32,
    reclaim: bool,
    offset: u64,
    length: u64,
    stateid: Seq<u8>,
    lock_seqid: u32,
    open_seqid: u32,
    lock_owner: Seq<u8>,
    client_id: u64,
)
    requires
        lock_owner.len() <= u32::MAX,
    ensures
        ({
            let range = Fields::Start.word(lock_type).flag(reclaim).hyper(offset).hyper(length);
            &&& holds(
                lock_args(
                    lock_type,
                    reclaim,
                    offset,
                    length,
                    true,
                    stateid,
                    lock_seqid,
                    open_seqid,
                    lock_owner,
                    client_id,
                ),
                range.flag(true).word(open_seqid).bytes(stateid).word(lock_seqid).hyper(
                    client_id,
                ).counted(lock_owner),
            )
            &&& holds(
                lock_args(
                    lock_type,
                    reclaim,
                    offset,
                    length,
                    false,
                    stateid,
                    lock_seqid,
                    open_seqid,
                    lock_owner,
                    client_id,
                ),
                range.flag(false).bytes(stateid).word(lock_seqid),
            )
        }),
{
    broadcast use crate::wire::group_fields;

    let range = be32(lock_type) + bool32(reclaim) + be64(offset) + be64(length);
    let fields = Fields::Start.word(lock_type).flag(reclaim).hyper(offset).hyper(length);
    assert(holds(range, fields));
    let new = range + bool32(true);
    let old = range + bool32(false);
    assert(holds(new, fields.flag(true)));
    assert(holds(old, fields.flag(false)));
    lemma_regroup(old, stateid, be32(lock_seqid));
    let opened = be32(open_seqid) + stateid;
    lemma_regroup(new, be32(open_seqid), stateid);
    lemma_regroup(new, opened, be32(lock_seqid));
    lemma_regroup(new, opened + be32(lock_seqid), be64(client_id));
    lemma_regroup(
        new,
        opened + be32(lock_seqid) + be64(client_id),
        opaque(lock_owner),
    );
}

/// The attributes of a channel stand in their order, with no depth of RDMA reads.
pub proof fn law_channel_holds_its_attributes(attrs: ChannelAttrsArgs)
    ensures
        holds(
            channel_attrs(&attrs),
            Fields::Start.word(attrs.headerpadsize).word(attrs.maxrequestsize).word(
                attrs.maxresponsesize,
            ).word(attrs.maxresponsesize_cached).word(attrs.maxoperations).word(
                attrs.maxrequests,
            ).word(0),
        ),
{
    broadcast use crate::wire::group_fields;

}

/// OPEN names the owner, what is shared and what is denied, the client, whether and with which
/// attributes to create the file, and its name in the current directory. The access carries the
/// wish for a delegation: none where the caller wants none, one to write otherwise.
pub proof fn law_open_names_the_file(open: OpenArgs)
    requires
        contents(open.owner).len() <= u32::MAX,
        open.create_attrs_vals@.len() <= u32::MAX,
        encode_utf8(open.claim_file@).len() <= u32::MAX,
        open.share_access < 0x200,
    ensures
        ({
            let wish: int = if open.want_no_delegation {
                0x400
            } else {
                0x200
            };
            let head = Fields::Start.word(open.seqid).word((open.share_access + wish) as u32).word(
                open.share_deny,
            ).hyper(open.client_id).counted(contents(open.owner));
            holds(
                open.wire(),
                (if open.create {
                    head.word(1).word(0).list(open.create_attrs_mask@).counted(
                        open.create_attrs_vals@,
                    )
                } else {
                    head.word(0)
                }).word(0).counted(encode_utf8(open.claim_file@)),
            )
        }),
{
    broadcast use crate::wire::group_fields;

    let access = open.share_access;
    assert(access < 0x200 ==> access | 0x400 == access + 0x400 && access | 0x200 == access + 0x200)
        by (bit_vector);
    let head = be32(open.seqid) + be32(access | open.delegation_wish()) + be32(open.share_deny)
        + be64(open.client_id) + opaque(contents(open.owner));
    let fields = Fields::Start.word(open.seqid).word(access | open.delegation_wish()).word(
        open.share_deny,
    ).hyper(open.client_id).counted(contents(open.owner));
    assert(holds(head, fields));
    if open.create {
        let mask = bitmap4(open.create_attrs_mask@);
        let values = opaque(open.create_attrs_vals@);
        lemma_regroup(head, be32(1), be32(0));
        lemma_regroup(head, be32(1) + be32(0), mask);
        lemma_regroup(head, be32(1) + be32(0) + mask, values);
        assert(holds(
            head + be32(1) + be32(0) + mask + values,
            fields.word(1).word(0).list(open.create_attrs_mask@).counted(open.create_attrs_vals@),
        ));
    } else {
        assert(holds(head + be32(0), fields.word(0)));
    }
}

/// Stateids stand one behind the other, sixteen bytes each.
pub proof fn law_stateids_stand_in_a_row(stateids: Seq<[u8; 16]>, i: int)
    requires
        0 <= i < stateids.len(),
    ensures
        stateid_bytes(stateids).len() == 16 * stateids.len(),
        stateid_bytes(stateids).subrange(16 * i, 16 * i + 16) == stateids[i]@,
    decreases stateids.len(),
{
    let before = stateids.drop_last();
    if before.len() == 0 {
        assert(stateid_bytes(stateids) =~= stateids[0]@);
        assert(stateid_bytes(stateids).subrange(0, 16) =~= stateids[0]@);
    } else {
        law_stateids_stand_in_a_row(before, 0);
        if i < before.len() {
            law_stateids_stand_in_a_row(before, i);
            assert(stateid_bytes(stateids).subrange(16 * i, 16 * i + 16) =~= stateid_bytes(
                before,
            ).subrange(16 * i, 16 * i + 16));
        } else {
            assert(stateid_bytes(stateids).subrange(16 * i, 16 * i + 16) =~= stateids[i]@);
        }
    }
}

/// A COMPOUND request starts with its tag, the minor version one and how many operations
/// follow.
pub proof fn law_request_starts_with_its_tag(request: Request)
    requires
        encode_utf8(request.tag).len() <= u32::MAX,
        request.ops.len() <= u32::MAX,
    ensures
        holds(
            compound_args(request),
            Fields::Start.counted(encode_utf8(request.tag)).word(1).word(
                request.ops.len() as u32,
            ).bytes(op_bytes(request.ops)),
        ),
{
    broadcast use crate::wire::group_fields;

}

/// The operations of a request stand one behind the other, each as its number and its
/// arguments.
pub proof fn law_operations_stand_in_a_row(ops: Seq<OpView>, op: OpView)
    ensures
        op_bytes(Seq::<OpView>::empty()).len() == 0,
        holds(
            op_bytes(ops.push(op)),
            Fields::Start.bytes(op_bytes(ops)).word(opcode(op.opcode)).bytes(op.args),
        ),
{
    broadcast use crate::wire::group_fields;

    assert(ops.push(op).drop_last() =~= ops);
}

/// Operations that read can be asked again, those that keep the session are the session's own,
/// and all others change something that must not change twice.
pub proof fn law_classes_of_operations(op: OpNum)
    ensures
        class_of(op) is ReadOnly <==> seq![
            3u32,
            9,
            10,
            13,
            15,
            16,
            22,
            24,
            25,
            26,
            27,
            31,
            32,
            47,
            55,
        ].contains(opcode(op)),
        class_of(op) is SessionControl <==> seq![41u32, 42, 43, 44, 53, 57, 58].contains(
            opcode(op),
        ),
{
    let reading = seq![3u32, 9, 10, 13, 15, 16, 22, 24, 25, 26, 27, 31, 32, 47, 55];
    let session = seq![41u32, 42, 43, 44, 53, 57, 58];
    assert(reading[0] == 3 && reading[1] == 9 && reading[2] == 10 && reading[3] == 13 && reading[4]
        == 15 && reading[5] == 16 && reading[6] == 22 && reading[7] == 24 && reading[8] == 25
        && reading[9] == 26 && reading[10] == 27 && reading[11] == 31 && reading[12] == 32
        && reading[13] == 47 && reading[14] == 55);
    assert(session[0] == 41 && session[1] == 42 && session[2] == 43 && session[3] == 44
        && session[4] == 53 && session[5] == 57 && session[6] == 58);
}

/// The numbers of the operations are those of the protocol.
pub proof fn law_numbers_of_operations()
    ensures
        opcode(OpNum::Access) == 3,
        opcode(OpNum::Close) == 4,
        opcode(OpNum::Commit) == 5,
        opcode(OpNum::Create) == 6,
        opcode(OpNum::DelegReturn) == 8,
        opcode(OpNum::GetAttr) == 9,
        opcode(OpNum::GetFh) == 10,
        opcode(OpNum::Link) == 11,
        opcode(OpNum::Lock) == 12,
        opcode(OpNum::Lockt) == 13,
        opcode(OpNum::Locku) == 14,
        opcode(OpNum::Lookup) == 15,
        opcode(OpNum::Lookupp) == 16,
        opcode(OpNum::Open) == 18,
        opcode(OpNum::PutFh) == 22,
        opcode(OpNum::PutRootFh) == 24,
        opcode(OpNum::Read) == 25,
        opcode(OpNum::ReadDir) == 26,
        opcode(OpNum::ReadLink) == 27,
        opcode(OpNum::Remove) == 28,
        opcode(OpNum::Rename) == 29,
        opcode(OpNum::RestoreFh) == 31,
        opcode(OpNum::SaveFh) == 32,
        opcode(OpNum::SetAttr) == 34,
        opcode(OpNum::Write) == 38,
        opcode(OpNum::BindConnToSession) == 41,
        opcode(OpNum::ExchangeId) == 42,
        opcode(OpNum::CreateSession) == 43,
        opcode(OpNum::DestroySession) == 44,
        opcode(OpNum::GetDeviceInfo) == 47,
        opcode(OpNum::LayoutCommit) == 49,
        opcode(OpNum::LayoutGet) == 50,
        opcode(OpNum::LayoutReturn) == 51,
        opcode(OpNum::Sequence) == 53,
        opcode(OpNum::TestStateId) == 55,
        opcode(OpNum::DestroyClientId) == 57,
        opcode(OpNum::ReclaimComplete) == 58,
{
}

/// A request that consists of SEQUENCE alone is the session's own; one of operations that all
/// read reads, whatever their order; adding an operation never makes it safer to repeat.
pub proof fn law_request_is_as_sensitive_as_its_operations(ops: Seq<OpView>, op: OpView)
    ensures
        ops.len() <= 1 ==> request_class(ops) is SessionControl,
        ops.len() > 1 ==> (request_class(ops) is ReadOnly <==> forall|i: int|
            1 <= i < ops.len() ==> class_of(#[trigger] ops[i].opcode) is ReadOnly),
        ops.len() > 1 ==> (request_class(ops) is ReplaySensitive <==> exists|i: int|
            1 <= i < ops.len() && class_of(#[trigger] ops[i].opcode) is ReplaySensitive),
        ops.len() > 1 && request_class(ops) is ReplaySensitive ==> request_class(ops.push(
            op,
        )) is ReplaySensitive,
{
    if ops.len() > 1 && request_class(ops) is ReplaySensitive {
        let i = choose|i: int|
            1 <= i < ops.len() && class_of(#[trigger] ops[i].opcode)
                == OperationClass::ReplaySensitive;
        assert(ops.push(op)[i] == ops[i]);
        assert(class_of(ops.push(op)[i].opcode) == OperationClass::ReplaySensitive);
    }
    if ops.len() > 1 && !(request_class(ops) is ReadOnly) {
        let class = request_class(ops);
        let i = choose|i: int| 1 <= i < ops.len() && class_of(#[trigger] ops[i].opcode) == class;
        assert(!(class_of(ops[i].opcode) is ReadOnly));
    }
}

/// The room for a reply grows by eight bytes with each operation behind SEQUENCE and by the
/// padded length of the tag, from the eighty bytes of a reply to SEQUENCE alone.
pub proof fn law_reply_room_grows_with_the_request(tag_len: nat, op_count: nat)
    requires
        tag_len <= 0x1000_0000,
        1 <= op_count <= 0x100_0000,
    ensures
        minimum_reply(0, 0) == 80,
        minimum_reply(0, 1) == 80,
        minimum_reply(tag_len, op_count + 1) == minimum_reply(tag_len, op_count) + 8,
        minimum_reply(tag_len, op_count) - minimum_reply(0, op_count) == (tag_len + 3) / 4 * 4,
{
}


} // verus!
