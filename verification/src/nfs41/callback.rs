//! NFSv4.1 callback handling and bounded backchannel replay (RFC 8881 §2.10.6.3).

use bytes::Bytes;
use vstd::prelude::*;
use vstd::slice::slice_to_vec;
use vstd::string::StringExecFns;

use crate::buffer::{
    advance, as_slice, contents, duplicate, get_u32, get_u64, prefix, remaining, same_bytes,
    take_array,
};
use crate::channel::{handed, Handed, Outbox};
use crate::error::{rpc_error, xdr_error, ErrorView, NfsError, Result};
use crate::nfs4::compound::{chain, Decoded, Parsed};
use crate::table::equal_bytes;
use crate::text::{decimal, push_decimal, with_number};
use crate::xdr::{append_bytes, be32, hyper, opaque, padded, padded_len, word};
use crate::xdr::{xdr_u32, xdr_var_bytes};

verus! {

pub const MAX_CB_OPS: u32 = 64;

pub const MAX_REFERRING_LISTS: usize = 256;

pub const NFS4_OK: u32 = 0;

pub const NFS4ERR_DELAY: u32 = 10008;

pub const NFS4ERR_BADXDR: u32 = 10036;

pub const NFS4ERR_BADSESSION: u32 = 10052;

pub const NFS4ERR_BADSLOT: u32 = 10053;

pub const NFS4ERR_OP_ILLEGAL: u32 = 10044;

pub const NFS4ERR_SEQ_FALSE_RETRY: u32 = 10062;

pub const NFS4ERR_SEQ_MISORDERED: u32 = 10063;

pub const NFS4ERR_OP_NOT_IN_SESSION: u32 = 10071;

pub const NFS4ERR_MINOR_VERS_MISMATCH: u32 = 10021;

pub const NFS4ERR_INVAL: u32 = 22;

pub const CB_RECALL: u32 = 4;

pub const CB_LAYOUTRECALL: u32 = 5;

pub const CB_SEQUENCE: u32 = 11;

/// Callback program number communicated in CREATE_SESSION.
pub const CB_PROGRAM: u32 = 0x4000_0000;

/// What the server wants back.
#[derive(Debug)]
pub enum RecallNotification {
    Delegation { stateid: [u8; 16], truncate: bool, fh: Bytes },
    LayoutFile { stateid: [u8; 16], fh: Bytes, offset: u64, length: u64, iomode: u32 },
    LayoutAll,
}

/// A recall as specifications see it.
#[verifier::ext_equal]
pub enum RecallView {
    Delegation { stateid: Seq<u8>, truncate: bool, fh: Seq<u8> },
    LayoutFile { stateid: Seq<u8>, fh: Seq<u8>, offset: u64, length: u64, iomode: u32 },
    LayoutAll,
}

impl View for RecallNotification {
    type V = RecallView;

    open spec fn view(&self) -> RecallView {
        match self {
            RecallNotification::Delegation { stateid, truncate, fh } => RecallView::Delegation {
                stateid: stateid@,
                truncate: *truncate,
                fh: contents(*fh),
            },
            RecallNotification::LayoutFile { stateid, fh, offset, length, iomode } => {
                RecallView::LayoutFile {
                    stateid: stateid@,
                    fh: contents(*fh),
                    offset: *offset,
                    length: *length,
                    iomode: *iomode,
                }
            },
            RecallNotification::LayoutAll => RecallView::LayoutAll,
        }
    }
}

/// The request that a slot answered last, and the answer.
pub struct Answered {
    pub request: Bytes,
    pub reply: Vec<u8>,
}

/// A slot of the backchannel.
pub struct CallbackSlot {
    pub next_sequence: u32,
    pub answered: Option<Answered>,
}

/// A slot as specifications see it.
#[verifier::ext_equal]
pub struct SlotView {
    pub next_sequence: u32,
    /// The request that was answered last, and the answer.
    pub answered: Option<(Seq<u8>, Seq<u8>)>,
}

impl View for CallbackSlot {
    type V = SlotView;

    open spec fn view(&self) -> SlotView {
        SlotView {
            next_sequence: self.next_sequence,
            answered: match self.answered {
                Some(answered) => Some((contents(answered.request), answered.reply@)),
                None => None,
            },
        }
    }
}

/// The session that callbacks belong to.
pub struct CallbackSession {
    pub session_id: [u8; 16],
    pub generation: u64,
    pub max_request_size: u32,
    pub max_operations: u32,
    pub slots: Vec<CallbackSlot>,
}

/// A session as specifications see it.
#[verifier::ext_equal]
pub struct SessionView {
    pub session_id: Seq<u8>,
    pub generation: u64,
    pub max_request_size: u32,
    pub max_operations: u32,
    pub slots: Seq<SlotView>,
}

impl View for CallbackSession {
    type V = SessionView;

    open spec fn view(&self) -> SessionView {
        SessionView {
            session_id: self.session_id@,
            generation: self.generation,
            max_request_size: self.max_request_size,
            max_operations: self.max_operations,
            slots: Seq::new(self.slots@.len(), |i: int| self.slots@[i]@),
        }
    }
}

impl SessionView {
    /// A session has a slot, no more slots than a word counts, and room for an operation.
    pub open spec fn wf(self) -> bool {
        &&& 1 <= self.slots.len() <= u32::MAX
        &&& 1 <= self.max_request_size
        &&& 1 <= self.max_operations <= MAX_CB_OPS
    }
}

/// A session whose slots have not been used.
pub open spec fn fresh_session(
    session_id: Seq<u8>,
    generation: u64,
    max_requests: u32,
    max_request_size: u32,
    max_operations: u32,
) -> SessionView {
    SessionView {
        session_id,
        generation,
        max_request_size: if max_request_size == 0 {
            1
        } else {
            max_request_size
        },
        max_operations: if max_operations == 0 {
            1
        } else if max_operations > MAX_CB_OPS {
            MAX_CB_OPS
        } else {
            max_operations
        },
        slots: Seq::new(
            if max_requests == 0 {
                1
            } else {
                max_requests as nat
            },
            |i: int| SlotView { next_sequence: 1, answered: None },
        ),
    }
}

/// What the backchannel knows.
pub struct CallbackState {
    pub session: CallbackSession,
    pub layout_recalls_received: u64,
    pub layout_returns_completed: u64,
}

fn callback_slots(max_requests: u32) -> (slots: Vec<CallbackSlot>)
    ensures
        slots@.len() == (if max_requests == 0 {
            1
        } else {
            max_requests as nat
        }),
        forall|i: int|
            0 <= i < slots@.len() ==> (#[trigger] slots@[i])@ == (SlotView {
                next_sequence: 1,
                answered: None,
            }),
{
    let count: u32 = if max_requests == 0 { 1 } else { max_requests };
    let mut slots: Vec<CallbackSlot> = Vec::new();
    let mut i: u32 = 0;
    while i < count
        invariant
            i <= count,
            slots@.len() == i,
            forall|k: int|
                0 <= k < i ==> (#[trigger] slots@[k])@ == (SlotView {
                    next_sequence: 1,
                    answered: None,
                }),
        decreases count - i,
    {
        slots.push(CallbackSlot { next_sequence: 1, answered: None });
        i += 1;
    }
    slots
}

fn new_session(
    session_id: [u8; 16],
    generation: u64,
    max_requests: u32,
    max_request_size: u32,
    max_operations: u32,
) -> (session: CallbackSession)
    ensures
        session@ == fresh_session(
            session_id@,
            generation,
            max_requests,
            max_request_size,
            max_operations,
        ),
        session@.wf(),
{
    let session = CallbackSession {
        session_id,
        generation,
        max_request_size: if max_request_size == 0 { 1 } else { max_request_size },
        max_operations: if max_operations == 0 {
            1
        } else if max_operations > MAX_CB_OPS {
            MAX_CB_OPS
        } else {
            max_operations
        },
        slots: callback_slots(max_requests),
    };
    assert(session@.slots =~= fresh_session(
        session_id@,
        generation,
        max_requests,
        max_request_size,
        max_operations,
    ).slots);
    session
}

impl CallbackState {
    pub open spec fn wf(self) -> bool {
        self.session@.wf()
    }

    /// A session with requests of up to 4096 bytes.
    pub fn new(session_id: [u8; 16], generation: u64, max_requests: u32) -> (state: Self)
        ensures
            state.wf(),
            state.session@ == fresh_session(session_id@, generation, max_requests, 4096, MAX_CB_OPS),
            state.layout_recalls_received == 0,
            state.layout_returns_completed == 0,
    {
        Self::new_negotiated(session_id, generation, max_requests, 4096, MAX_CB_OPS)
    }

    pub fn new_negotiated(
        session_id: [u8; 16],
        generation: u64,
        max_requests: u32,
        max_request_size: u32,
        max_operations: u32,
    ) -> (state: Self)
        ensures
            state.wf(),
            state.session@ == fresh_session(
                session_id@,
                generation,
                max_requests,
                max_request_size,
                max_operations,
            ),
            state.layout_recalls_received == 0,
            state.layout_returns_completed == 0,
    {
        CallbackState {
            session: new_session(
                session_id,
                generation,
                max_requests,
                max_request_size,
                max_operations,
            ),
            layout_recalls_received: 0,
            layout_returns_completed: 0,
        }
    }

    pub fn record_layout_recall(&mut self)
        ensures
            *final(self) == (CallbackState {
                layout_recalls_received: old(self).layout_recalls_received.wrapping_add(1),
                ..*old(self)
            }),
    {
        self.layout_recalls_received = self.layout_recalls_received.wrapping_add(1);
    }

    pub fn record_layout_return(&mut self)
        ensures
            *final(self) == (CallbackState {
                layout_returns_completed: old(self).layout_returns_completed.wrapping_add(1),
                ..*old(self)
            }),
    {
        self.layout_returns_completed = self.layout_returns_completed.wrapping_add(1);
    }

    /// How many layout recalls came in, and how many returns were completed.
    pub fn layout_recall_stats(&self) -> (stats: (u64, u64))
        ensures
            stats == (self.layout_recalls_received, self.layout_returns_completed),
    {
        (self.layout_recalls_received, self.layout_returns_completed)
    }

    /// Moves on to another session. An older generation is refused, and the session that is
    /// in use already is left as it is.
    pub fn update_session(
        &mut self,
        session_id: [u8; 16],
        generation: u64,
        max_requests: u32,
        max_request_size: u32,
        max_operations: u32,
    ) -> (result: Result<()>)
        requires
            old(self).wf(),
        ensures
            final(self).wf(),
            final(self).layout_recalls_received == old(self).layout_recalls_received,
            final(self).layout_returns_completed == old(self).layout_returns_completed,
            if generation < old(self).session.generation {
                &&& result is Err
                &&& result->Err_0@ == ErrorView::Rpc("refusing stale callback session publication"@)
                &&& final(self).session@ == old(self).session@
            } else {
                &&& result is Ok
                &&& final(self).session@ == (if generation == old(self).session.generation
                    && session_id@ == old(self).session.session_id@ {
                    old(self).session@
                } else {
                    fresh_session(
                        session_id@,
                        generation,
                        max_requests,
                        max_request_size,
                        max_operations,
                    )
                })
            },
    {
        if generation < self.session.generation {
            return Err(rpc_error("refusing stale callback session publication"));
        }
        if generation == self.session.generation && equal_bytes(
            &session_id,
            &self.session.session_id,
        ) {
            return Ok(());
        }
        self.session =
            new_session(session_id, generation, max_requests, max_request_size, max_operations);
        Ok(())
    }
}

/// Bytes with their length in front.
pub open spec fn opaque_arg(s: Seq<u8>) -> Parsed<Seq<u8>> {
    if s.len() < 4 {
        Err(ErrorView::Xdr("opaque length truncated"@))
    } else if s.len() < 4 + padded(word(s) as nat) {
        Err(ErrorView::Xdr("opaque data truncated"@))
    } else {
        Ok((s.skip(4).take(word(s) as int), s.skip(4).skip(padded(word(s) as nat) as int)))
    }
}

/// The flavor of an opaque_auth and the length of its body.
pub open spec fn auth_arg(s: Seq<u8>) -> Parsed<(u32, u32)> {
    if s.len() < 8 {
        Err(ErrorView::Xdr("RPC auth truncated"@))
    } else if s.len() < 8 + padded(word(s.skip(4)) as nat) {
        Err(ErrorView::Xdr("RPC auth body truncated"@))
    } else {
        Ok(
            (
                (word(s), word(s.skip(4))),
                s.skip(4).skip(4).skip(padded(word(s.skip(4)) as nat) as int),
            ),
        )
    }
}

pub fn read_opaque(buf: &mut Bytes) -> (value: Result<Bytes>)
    ensures
        match opaque_arg(contents(*old(buf))) {
            Ok((expected, rest)) => value is Ok && contents(value->Ok_0) == expected && contents(
                *final(buf),
            ) == rest,
            Err(error) => value is Err && value->Err_0@ == error,
        },
{
    if remaining(buf) < 4 {
        return Err(xdr_error("opaque length truncated"));
    }
    let len: u32 = get_u32(buf);
    let padded: u64 = padded_len(len);
    if (remaining(buf) as u64) < padded {
        return Err(xdr_error("opaque data truncated"));
    }
    let value = prefix(buf, len as usize);
    advance(buf, padded as usize);
    Ok(value)
}

pub fn read_rpc_auth(buf: &mut Bytes) -> (auth: Result<(u32, u32)>)
    ensures
        match auth_arg(contents(*old(buf))) {
            Ok((expected, rest)) => auth is Ok && auth->Ok_0 == expected && contents(*final(buf))
                == rest,
            Err(error) => auth is Err && auth->Err_0@ == error,
        },
{
    if remaining(buf) < 8 {
        return Err(xdr_error("RPC auth truncated"));
    }
    let flavor: u32 = get_u32(buf);
    let len: u32 = get_u32(buf);
    let padded: u64 = padded_len(len);
    if (remaining(buf) as u64) < padded {
        return Err(xdr_error("RPC auth body truncated"));
    }
    advance(buf, padded as usize);
    Ok((flavor, len))
}

pub fn write_opaque(buf: &mut Vec<u8>, value: &[u8])
    ensures
        final(buf)@ == old(buf)@ + opaque(value@),
{
    xdr_var_bytes(buf, value)
}

/// The opcode and the status of an operation.
pub open spec fn op_head(opcode: u32, status: u32) -> Seq<u8> {
    be32(opcode) + be32(status)
}

pub fn op_status(opcode: u32, status: u32) -> (reply: Vec<u8>)
    ensures
        reply@ == op_head(opcode, status),
{
    let mut reply: Vec<u8> = Vec::new();
    xdr_u32(&mut reply, opcode);
    xdr_u32(&mut reply, status);
    assert(reply@ =~= op_head(opcode, status));
    reply
}

/// CB_COMPOUND4res.
pub open spec fn compound_res(tag: Seq<u8>, status: u32, count: u32, replies: Seq<u8>) -> Seq<u8> {
    be32(status) + opaque(tag) + be32(count) + replies
}

pub fn compound_body(tag: &[u8], status: u32, count: u32, replies: &[u8]) -> (body: Vec<u8>)
    ensures
        body@ == compound_res(tag@, status, count, replies@),
{
    let mut body: Vec<u8> = Vec::new();
    xdr_u32(&mut body, status);
    write_opaque(&mut body, tag);
    xdr_u32(&mut body, count);
    append_bytes(&mut body, replies);
    assert(body@ =~= compound_res(tag@, status, count, replies@));
    body
}

pub fn compound_error_body(tag: &[u8], status: u32) -> (body: Vec<u8>)
    ensures
        body@ == compound_res(tag@, status, 0, Seq::empty()),
{
    let nothing: Vec<u8> = Vec::new();
    assert(nothing@ =~= Seq::empty());
    compound_body(tag, status, 0, &nothing)
}

/// A result of one operation that failed.
fn failed_body(tag: &[u8], opcode: u32, status: u32) -> (body: Vec<u8>)
    ensures
        body@ == compound_res(tag@, status, 1, op_head(opcode, status)),
{
    let op = op_status(opcode, status);
    compound_body(tag, status, 1, &op)
}

/// An accepted call that succeeded, with its result.
pub open spec fn rpc_accepted(xid: u32, body: Seq<u8>) -> Seq<u8> {
    be32(xid) + be32(1) + be32(0) + be32(0) + be32(0) + be32(0) + body
}

pub fn build_rpc_reply(xid: u32, body: &[u8]) -> (reply: Vec<u8>)
    ensures
        reply@ == rpc_accepted(xid, body@),
{
    let mut reply: Vec<u8> = Vec::new();
    xdr_u32(&mut reply, xid);
    xdr_u32(&mut reply, 1);
    xdr_u32(&mut reply, 0);
    xdr_u32(&mut reply, 0);
    xdr_u32(&mut reply, 0);
    xdr_u32(&mut reply, 0);
    append_bytes(&mut reply, body);
    assert(reply@ =~= rpc_accepted(xid, body@));
    reply
}

/// What CB_SEQUENCE says of its request.
#[derive(Debug)]
pub struct SequenceArgs {
    pub session_id: [u8; 16],
    pub sequence_id: u32,
    pub slot_id: u32,
}

/// The arguments of CB_SEQUENCE as specifications see them.
#[verifier::ext_equal]
pub struct SequenceView {
    pub session_id: Seq<u8>,
    pub sequence_id: u32,
    pub slot_id: u32,
}

impl View for SequenceArgs {
    type V = SequenceView;

    open spec fn view(&self) -> SequenceView {
        SequenceView {
            session_id: self.session_id@,
            sequence_id: self.sequence_id,
            slot_id: self.slot_id,
        }
    }
}

/// Walks over `count` lists of referring calls.
pub open spec fn referring_lists(s: Seq<u8>, count: nat) -> Decoded<Seq<u8>>
    decreases count,
{
    if count == 0 {
        Ok(s)
    } else if s.len() < 20 {
        Err(ErrorView::Xdr("referring call list truncated"@))
    } else {
        let calls = word(s.skip(16));
        let rest = s.skip(16).skip(4);
        if rest.len() < calls * 8 {
            Err(ErrorView::Xdr("referring calls truncated"@))
        } else {
            referring_lists(rest.skip(calls * 8), (count - 1) as nat)
        }
    }
}

/// The arguments of CB_SEQUENCE.
pub open spec fn sequence_args(s: Seq<u8>) -> Parsed<SequenceView> {
    if s.len() < 32 {
        Err(ErrorView::Xdr("CB_SEQUENCE truncated"@))
    } else if s.len() < 36 {
        Err(ErrorView::Xdr("referring call list count truncated"@))
    } else if word(s.skip(32)) > MAX_REFERRING_LISTS {
        Err(ErrorView::Xdr("too many referring call lists"@))
    } else {
        match referring_lists(s.skip(36), word(s.skip(32)) as nat) {
            Err(error) => Err(error),
            Ok(rest) => Ok(
                (
                    SequenceView {
                        session_id: s.take(16),
                        sequence_id: word(s.skip(16)),
                        slot_id: word(s.skip(20)),
                    },
                    rest,
                ),
            ),
        }
    }
}

fn skip_referring_lists(buf: &mut Bytes, count: u32) -> (result: Result<()>)
    ensures
        match referring_lists(contents(*old(buf)), count as nat) {
            Ok(rest) => result is Ok && contents(*final(buf)) == rest,
            Err(error) => result is Err && result->Err_0@ == error,
        },
{
    let mut i: u32 = 0;
    while i < count
        invariant
            i <= count,
            referring_lists(contents(*old(buf)), count as nat) == referring_lists(
                contents(*buf),
                (count - i) as nat,
            ),
        decreases count - i,
    {
        if remaining(buf) < 20 {
            return Err(xdr_error("referring call list truncated"));
        }
        advance(buf, 16);
        let calls: u32 = get_u32(buf);
        let bytes: u64 = calls as u64 * 8;
        if (remaining(buf) as u64) < bytes {
            return Err(xdr_error("referring calls truncated"));
        }
        advance(buf, bytes as usize);
        i += 1;
    }
    Ok(())
}

pub fn parse_sequence(buf: &mut Bytes) -> (sequence: Result<SequenceArgs>)
    ensures
        match sequence_args(contents(*old(buf))) {
            Ok((expected, rest)) => sequence is Ok && sequence->Ok_0@ == expected && contents(
                *final(buf),
            ) == rest,
            Err(error) => sequence is Err && sequence->Err_0@ == error,
        },
{
    let ghost s = contents(*buf);
    if remaining(buf) < 32 {
        return Err(xdr_error("CB_SEQUENCE truncated"));
    }
    let session_id: [u8; 16] = take_array(buf);
    let sequence_id: u32 = get_u32(buf);
    let slot_id: u32 = get_u32(buf);
    // highest_slot_id and cache_this
    advance(buf, 8);
    assert(s.skip(16).skip(4) =~= s.skip(20));
    assert(s.skip(20).skip(4) =~= s.skip(24));
    assert(s.skip(24).skip(8) =~= s.skip(32));
    if remaining(buf) < 4 {
        return Err(xdr_error("referring call list count truncated"));
    }
    let count: u32 = get_u32(buf);
    assert(s.skip(32).skip(4) =~= s.skip(36));
    if count as u64 > MAX_REFERRING_LISTS as u64 {
        return Err(xdr_error("too many referring call lists"));
    }
    skip_referring_lists(buf, count)?;
    Ok(SequenceArgs { session_id, sequence_id, slot_id })
}

/// The result of CB_SEQUENCE.
pub open spec fn sequence_res(sequence: SequenceView, max_slot: u32, session_id: Seq<u8>) -> Seq<u8> {
    op_head(CB_SEQUENCE, NFS4_OK) + session_id + be32(sequence.sequence_id) + be32(
        sequence.slot_id,
    ) + be32(max_slot) + be32(max_slot)
}

pub fn sequence_reply(sequence: &SequenceArgs, max_slot: u32, session_id: &[u8; 16]) -> (reply: Vec<u8>)
    ensures
        reply@ == sequence_res(sequence@, max_slot, session_id@),
{
    let mut reply = op_status(CB_SEQUENCE, NFS4_OK);
    append_bytes(&mut reply, session_id);
    xdr_u32(&mut reply, sequence.sequence_id);
    xdr_u32(&mut reply, sequence.slot_id);
    xdr_u32(&mut reply, max_slot);
    xdr_u32(&mut reply, max_slot);
    reply
}

/// What CB_RECALL asks for, or the status that refuses it.
pub open spec fn delegation_recall(s: Seq<u8>) -> std::result::Result<(RecallView, Seq<u8>), u32> {
    if s.len() < 20 {
        Err(NFS4ERR_BADXDR)
    } else {
        match opaque_arg(s.skip(16).skip(4)) {
            Err(_) => Err(NFS4ERR_BADXDR),
            Ok((fh, rest)) => Ok(
                (
                    RecallView::Delegation {
                        stateid: s.take(16),
                        truncate: word(s.skip(16)) != 0,
                        fh,
                    },
                    rest,
                ),
            ),
        }
    }
}

/// What CB_LAYOUTRECALL asks for, or the status that refuses it: the layout of a file, or
/// all layouts of a file system or of the client.
pub open spec fn layout_recall(s: Seq<u8>) -> std::result::Result<(RecallView, Seq<u8>), u32> {
    let iomode = word(s.skip(4));
    let recall_type = word(s.skip(12));
    let rest = s.skip(16);
    if s.len() < 16 {
        Err(NFS4ERR_BADXDR)
    } else if recall_type == 1 {
        match opaque_arg(rest) {
            Err(_) => Err(NFS4ERR_BADXDR),
            Ok((fh, rest)) => if rest.len() < 32 {
                Err(NFS4ERR_BADXDR)
            } else {
                Ok(
                    (
                        RecallView::LayoutFile {
                            stateid: rest.subrange(16, 32),
                            fh,
                            offset: hyper(rest),
                            length: hyper(rest.skip(8)),
                            iomode,
                        },
                        rest.skip(32),
                    ),
                )
            },
        }
    } else if recall_type == 2 {
        if rest.len() < 16 {
            Err(NFS4ERR_BADXDR)
        } else {
            Ok((RecallView::LayoutAll, rest.skip(16)))
        }
    } else if recall_type == 3 {
        Ok((RecallView::LayoutAll, rest))
    } else {
        Err(NFS4ERR_INVAL)
    }
}

/// What an operation asks for, or the status that refuses it.
pub open spec fn asked_for(opcode: u32, s: Seq<u8>) -> std::result::Result<(RecallView, Seq<u8>), u32> {
    if opcode == CB_RECALL {
        delegation_recall(s)
    } else if opcode == CB_LAYOUTRECALL {
        layout_recall(s)
    } else {
        Err(NFS4ERR_OP_ILLEGAL)
    }
}

/// Whether a recall was read as expected.
pub open spec fn recall_read_as(
    recall: std::result::Result<RecallNotification, u32>,
    left: Seq<u8>,
    expected: std::result::Result<(RecallView, Seq<u8>), u32>,
) -> bool {
    match expected {
        Ok((view, rest)) => recall is Ok && recall->Ok_0@ == view && left == rest,
        Err(status) => recall is Err && recall->Err_0 == status,
    }
}

fn parse_delegation_recall(buf: &mut Bytes) -> (recall: std::result::Result<RecallNotification, u32>)
    ensures
        recall_read_as(recall, contents(*final(buf)), delegation_recall(contents(*old(buf)))),
{
    if remaining(buf) < 20 {
        return Err(NFS4ERR_BADXDR);
    }
    let stateid: [u8; 16] = take_array(buf);
    let truncate: u32 = get_u32(buf);
    match read_opaque(buf) {
        Ok(fh) => Ok(RecallNotification::Delegation { stateid, truncate: truncate != 0, fh }),
        Err(_) => Err(NFS4ERR_BADXDR),
    }
}

pub fn parse_layout_recall(buf: &mut Bytes) -> (recall: std::result::Result<RecallNotification, u32>)
    ensures
        recall_read_as(recall, contents(*final(buf)), layout_recall(contents(*old(buf)))),
{
    let ghost s = contents(*buf);
    if remaining(buf) < 16 {
        return Err(NFS4ERR_BADXDR);
    }
    // layout_type
    advance(buf, 4);
    let iomode: u32 = get_u32(buf);
    // changed
    advance(buf, 4);
    let recall_type: u32 = get_u32(buf);
    assert(s.skip(4).skip(4) =~= s.skip(8));
    assert(s.skip(8).skip(4) =~= s.skip(12));
    assert(s.skip(12).skip(4) =~= s.skip(16));
    match recall_type {
        1 => {
            let fh = match read_opaque(buf) {
                Ok(fh) => fh,
                Err(_) => {
                    return Err(NFS4ERR_BADXDR);
                },
            };
            let ghost rest = contents(*buf);
            if remaining(buf) < 32 {
                return Err(NFS4ERR_BADXDR);
            }
            let offset: u64 = get_u64(buf);
            let length: u64 = get_u64(buf);
            let stateid: [u8; 16] = take_array(buf);
            assert(rest.skip(8).skip(8) =~= rest.skip(16));
            assert(rest.skip(16).take(16) =~= rest.subrange(16, 32));
            assert(rest.skip(16).skip(16) =~= rest.skip(32));
            Ok(RecallNotification::LayoutFile { stateid, fh, offset, length, iomode })
        },
        2 => {
            if remaining(buf) < 16 {
                return Err(NFS4ERR_BADXDR);
            }
            // fsid
            advance(buf, 16);
            Ok(RecallNotification::LayoutAll)
        },
        3 => Ok(RecallNotification::LayoutAll),
        _ => Err(NFS4ERR_INVAL),
    }
}

/// What an operation asks for, or the status that refuses it.
pub fn parse_recall(opcode: u32, buf: &mut Bytes) -> (recall: std::result::Result<
    RecallNotification,
    u32,
>)
    ensures
        recall_read_as(recall, contents(*final(buf)), asked_for(opcode, contents(*old(buf)))),
{
    if opcode == CB_RECALL {
        parse_delegation_recall(buf)
    } else if opcode == CB_LAYOUTRECALL {
        parse_layout_recall(buf)
    } else {
        Err(NFS4ERR_OP_ILLEGAL)
    }
}

/// The status of an operation. `taken` says whether the worker's queue took what was asked
/// for.
pub open spec fn op_outcome(opcode: u32, s: Seq<u8>, taken: bool) -> u32 {
    match asked_for(opcode, s) {
        Err(status) => status,
        Ok(_) => if taken {
            NFS4_OK
        } else {
            NFS4ERR_DELAY
        },
    }
}

/// What the worker's queue is offered in an operation.
pub open spec fn op_offers(opcode: u32, s: Seq<u8>) -> Seq<RecallView> {
    match asked_for(opcode, s) {
        Err(_) => Seq::empty(),
        Ok((recall, _)) => seq![recall],
    }
}

/// Does an operation and returns its status. The second result is what the worker's queue
/// said, if it was asked.
fn parse_callback_op(
    opcode: u32,
    buf: &mut Bytes,
    recalls: &mut Outbox<RecallNotification>,
) -> (result: (u32, bool))
    ensures
        result.0 == op_outcome(opcode, contents(*old(buf)), result.1),
        final(recalls)@ == old(recalls)@ + handed(
            op_offers(opcode, contents(*old(buf))),
            seq![result.1],
        ),
        result.0 == NFS4_OK ==> contents(*final(buf)) == asked_for(
            opcode,
            contents(*old(buf)),
        )->Ok_0.1,
{
    match parse_recall(opcode, buf) {
        Err(status) => (status, false),
        Ok(recall) => if recalls.offer(recall) {
            (NFS4_OK, true)
        } else {
            (NFS4ERR_DELAY, false)
        },
    }
}

/// What the operations behind CB_SEQUENCE lead to.
#[verifier::ext_equal]
pub struct Series {
    pub status: u32,
    pub count: nat,
    pub replies: Seq<u8>,
    /// What the worker's queue is offered.
    pub offered: Seq<RecallView>,
}

/// `count` operations, up to the first that fails. A request that ends before its last
/// operation fails without a result for it. `taken[i]` is what the worker's queue says in
/// operation `i`, if it is asked.
pub open spec fn series(s: Seq<u8>, count: nat, taken: Seq<bool>) -> Series
    decreases count,
{
    if count == 0 {
        Series { status: NFS4_OK, count: 0, replies: Seq::empty(), offered: Seq::empty() }
    } else if s.len() < 4 {
        Series { status: NFS4ERR_BADXDR, count: 0, replies: Seq::empty(), offered: Seq::empty() }
    } else {
        let status = op_outcome(word(s), s.skip(4), taken[0]);
        let reply = op_head(word(s), status);
        let offered = op_offers(word(s), s.skip(4));
        if status != NFS4_OK {
            Series { status, count: 1, replies: reply, offered }
        } else {
            continued(
                1,
                reply,
                offered,
                series(
                    asked_for(word(s), s.skip(4))->Ok_0.1,
                    (count - 1) as nat,
                    taken.skip(1),
                ),
            )
        }
    }
}

/// A series behind `count` operations that were done with the given results and offers.
pub open spec fn continued(
    count: nat,
    replies: Seq<u8>,
    offered: Seq<RecallView>,
    tail: Series,
) -> Series {
    Series {
        status: tail.status,
        count: count + tail.count,
        replies: replies + tail.replies,
        offered: offered + tail.offered,
    }
}

/// What a series came to: the status of the last operation, how many results there are, and
/// the results.
struct SeriesReply {
    status: u32,
    count: u32,
    replies: Vec<u8>,
}

/// Whether a series came to what is expected, and the worker's queue was offered just what it
/// offers.
spec fn series_matches(
    expected: Series,
    taken: Seq<bool>,
    reply: SeriesReply,
    before: Seq<Handed<RecallView>>,
    after: Seq<Handed<RecallView>>,
) -> bool {
    &&& expected.status == reply.status
    &&& expected.count == reply.count
    &&& expected.replies == reply.replies@
    &&& after == before + handed(expected.offered, taken)
}

fn run_series(buf: &mut Bytes, count: u32, recalls: &mut Outbox<RecallNotification>) -> (reply:
    SeriesReply)
    ensures
        reply.count <= count,
        exists|taken: Seq<bool>|
            series_matches(
                #[trigger] series(contents(*old(buf)), count as nat, taken),
                taken,
                reply,
                old(recalls)@,
                final(recalls)@,
            ),
{
    let ghost start = contents(*buf);
    let ghost before = recalls@;
    let ghost mut taken: Seq<bool> = Seq::empty();
    let ghost mut offered: Seq<RecallView> = Seq::empty();
    let mut replies: Vec<u8> = Vec::new();
    let mut i: u32 = 0;
    proof {
        assert forall|t: Seq<bool>| #[trigger] series(start, count as nat, taken + t) == continued(
            0,
            replies@,
            offered,
            series(start, count as nat, t),
        ) by {
            assert(taken + t =~= t);
            let tail = series(start, count as nat, t);
            assert(replies@ + tail.replies =~= tail.replies);
            assert(offered + tail.offered =~= tail.offered);
        }
        assert(recalls@ =~= before + handed(offered, taken));
    }
    while i < count
        invariant
            i <= count,
            start == contents(*old(buf)),
            before == old(recalls)@,
            taken.len() == offered.len(),
            recalls@ == before + handed(offered, taken),
            forall|t: Seq<bool>| #[trigger]
                series(start, count as nat, taken + t) == continued(
                    i as nat,
                    replies@,
                    offered,
                    series(contents(*buf), (count - i) as nat, t),
                ),
        decreases count - i,
    {
        let ghost done = replies@;
        let ghost here = contents(*buf);
        if remaining(buf) < 4 {
            proof {
                let none = Seq::<bool>::empty();
                let run = series(start, count as nat, taken + none);
                assert(run.replies =~= replies@);
                assert(run.offered =~= offered);
                assert(handed(offered, taken + none) =~= handed(offered, taken));
            }
            return SeriesReply { status: NFS4ERR_BADXDR, count: i, replies };
        }
        let opcode: u32 = get_u32(buf);
        let ghost args = contents(*buf);
        let (status, asked): (u32, bool) = parse_callback_op(opcode, buf, recalls);
        let reply = op_status(opcode, status);
        append_bytes(&mut replies, &reply);
        i += 1;
        if status != NFS4_OK {
            proof {
                let more = op_offers(opcode, args);
                let run = series(start, count as nat, taken + seq![asked]);
                assert(seq![asked][0] == asked);
                assert(run.replies =~= replies@);
                assert(run.offered =~= offered + more);
                assert(handed(offered + more, taken + seq![asked]) =~= handed(offered, taken)
                    + handed(more, seq![asked]));
                assert(recalls@ =~= before + handed(run.offered, taken + seq![asked]));
            }
            return SeriesReply { status, count: i, replies };
        }
        proof {
            let prior = taken;
            let more = op_offers(opcode, args);
            let earlier = offered;
            taken = taken.push(asked);
            offered = offered + more;
            assert(handed(offered, taken) =~= handed(earlier, prior) + handed(more, seq![asked]));
            assert(recalls@ =~= before + handed(offered, taken));
            assert forall|t: Seq<bool>| #[trigger] series(start, count as nat, taken + t)
                == continued(
                i as nat,
                replies@,
                offered,
                series(contents(*buf), (count - i) as nat, t),
            ) by {
                let ahead = seq![asked] + t;
                assert(taken + t =~= prior + ahead);
                assert(ahead[0] == asked);
                assert(ahead.skip(1) =~= t);
                let tail = series(contents(*buf), (count - i) as nat, t);
                assert(done + (reply@ + tail.replies) =~= (done + reply@) + tail.replies);
                assert(earlier + (more + tail.offered) =~= offered + tail.offered);
            }
        }
    }
    proof {
        let none = Seq::<bool>::empty();
        let run = series(start, count as nat, taken + none);
        assert(run.replies =~= replies@);
        assert(run.offered =~= offered);
        assert(handed(offered, taken + none) =~= handed(offered, taken));
    }
    SeriesReply { status: NFS4_OK, count, replies }
}

/// The session after a slot has answered a request.
pub open spec fn advanced(
    session: SessionView,
    sequence: SequenceView,
    request: Seq<u8>,
    reply: Seq<u8>,
) -> SessionView {
    SessionView {
        slots: session.slots.update(
            sequence.slot_id as int,
            SlotView {
                next_sequence: sequence.sequence_id.wrapping_add(1),
                answered: Some((request, reply)),
            },
        ),
        ..session
    }
}

/// What a request leads to.
#[verifier::ext_equal]
pub struct Outcome {
    pub session: SessionView,
    pub reply: Seq<u8>,
    /// What the worker's queue is offered.
    pub offered: Seq<RecallView>,
}

/// A request that is answered and does nothing else.
pub open spec fn answered(session: SessionView, reply: Seq<u8>) -> Outcome {
    Outcome { session, reply, offered: Seq::empty() }
}

/// What a request with a well-formed CB_SEQUENCE leads to. `s` is what follows it.
pub open spec fn sequenced(
    session: SessionView,
    request: Seq<u8>,
    tag: Seq<u8>,
    num_ops: u32,
    sequence: SequenceView,
    s: Seq<u8>,
    taken: Seq<bool>,
) -> Outcome {
    if sequence.session_id != session.session_id {
        answered(session, sequence_error(tag, NFS4ERR_BADSESSION))
    } else if sequence.slot_id >= session.slots.len() {
        answered(session, sequence_error(tag, NFS4ERR_BADSLOT))
    } else {
        let slot = session.slots[sequence.slot_id as int];
        if sequence.sequence_id == slot.next_sequence.wrapping_sub(1) && slot.answered is Some {
            let (known, reply) = slot.answered->Some_0;
            if known == request {
                answered(session, reply)
            } else {
                answered(session, sequence_error(tag, NFS4ERR_SEQ_FALSE_RETRY))
            }
        } else if sequence.sequence_id != slot.next_sequence {
            answered(session, sequence_error(tag, NFS4ERR_SEQ_MISORDERED))
        } else {
            let run = series(s, (num_ops - 1) as nat, taken);
            let reply = compound_res(
                tag,
                run.status,
                (1 + run.count) as u32,
                sequence_res(sequence, (session.slots.len() - 1) as u32, session.session_id)
                    + run.replies,
            );
            Outcome {
                session: advanced(session, sequence, request, reply),
                reply,
                offered: run.offered,
            }
        }
    }
}

/// A result that holds just a CB_SEQUENCE that failed.
pub open spec fn sequence_error(tag: Seq<u8>, status: u32) -> Seq<u8> {
    compound_res(tag, status, 1, op_head(CB_SEQUENCE, status))
}

/// What a CB_COMPOUND leads to.
pub open spec fn compound_outcome(session: SessionView, request: Seq<u8>, taken: Seq<bool>) -> Decoded<
    Outcome,
> {
    chain(
        opaque_arg(request),
        |tag: Seq<u8>, s: Seq<u8>|
            if s.len() < 12 {
                Err::<Outcome, ErrorView>(ErrorView::Xdr("CB_COMPOUND args truncated"@))
            } else {
                Ok(compound_ops(session, request, tag, word(s), word(s.skip(8)), s.skip(12), taken))
            },
    )
}

/// What the operations of a CB_COMPOUND lead to.
pub open spec fn compound_ops(
    session: SessionView,
    request: Seq<u8>,
    tag: Seq<u8>,
    minor: u32,
    num_ops: u32,
    s: Seq<u8>,
    taken: Seq<bool>,
) -> Outcome {
    if minor != 1 {
        answered(session, compound_res(tag, NFS4ERR_MINOR_VERS_MISMATCH, 0, Seq::empty()))
    } else if request.len() > session.max_request_size || num_ops > session.max_operations {
        answered(session, compound_res(tag, NFS4ERR_BADXDR, 0, Seq::empty()))
    } else if num_ops == 0 {
        answered(session, compound_res(tag, NFS4_OK, 0, Seq::empty()))
    } else if s.len() < 4 {
        answered(session, compound_res(tag, NFS4ERR_BADXDR, 0, Seq::empty()))
    } else if word(s) != CB_SEQUENCE {
        answered(
            session,
            compound_res(
                tag,
                NFS4ERR_OP_NOT_IN_SESSION,
                1,
                op_head(word(s), NFS4ERR_OP_NOT_IN_SESSION),
            ),
        )
    } else {
        match sequence_args(s.skip(4)) {
            Err(_) => answered(session, sequence_error(tag, NFS4ERR_BADXDR)),
            Ok((sequence, rest)) => sequenced(
                session,
                request,
                tag,
                num_ops,
                sequence,
                rest,
                taken,
            ),
        }
    }
}

/// Whether a request came to what is expected, and the worker's queue was offered just what it
/// offers.
pub open spec fn outcome_matches(
    outcome: Outcome,
    taken: Seq<bool>,
    session: SessionView,
    reply: Seq<u8>,
    before: Seq<Handed<RecallView>>,
    after: Seq<Handed<RecallView>>,
) -> bool {
    &&& session == outcome.session
    &&& reply == outcome.reply
    &&& after == before + handed(outcome.offered, taken)
}

/// Answers a request whose CB_SEQUENCE is well formed.
fn answer_sequenced(
    session: &mut CallbackSession,
    request: Bytes,
    tag: &[u8],
    num_ops: u32,
    sequence: SequenceArgs,
    buf: &mut Bytes,
    recalls: &mut Outbox<RecallNotification>,
) -> (reply: Vec<u8>)
    requires
        old(session)@.wf(),
        1 <= num_ops <= MAX_CB_OPS,
    ensures
        final(session)@.wf(),
        exists|taken: Seq<bool>|
            outcome_matches(
                #[trigger] sequenced(
                    old(session)@,
                    contents(request),
                    tag@,
                    num_ops,
                    sequence@,
                    contents(*old(buf)),
                    taken,
                ),
                taken,
                final(session)@,
                reply@,
                old(recalls)@,
                final(recalls)@,
            ),
{
    let ghost before = session@;
    let ghost none: Seq<bool> = Seq::empty();
    let ghost start = contents(*buf);
    let ghost plain = sequenced(before, contents(request), tag@, num_ops, sequence@, start, none);
    assert(recalls@ =~= recalls@ + handed(Seq::empty(), none));
    if !equal_bytes(&sequence.session_id, &session.session_id) {
        return failed_body(tag, CB_SEQUENCE, NFS4ERR_BADSESSION);
    }
    if sequence.slot_id as u64 >= session.slots.len() as u64 {
        return failed_body(tag, CB_SEQUENCE, NFS4ERR_BADSLOT);
    }
    let max_slot: u32 = (session.slots.len() - 1) as u32;
    let index: usize = sequence.slot_id as usize;
    assert(before.slots[index as int] == session.slots@[index as int]@);
    if sequence.sequence_id == session.slots[index].next_sequence.wrapping_sub(1) {
        if let Some(answered) = &session.slots[index].answered {
            if same_bytes(&answered.request, &request) {
                return slice_to_vec(&answered.reply);
            }
            return failed_body(tag, CB_SEQUENCE, NFS4ERR_SEQ_FALSE_RETRY);
        }
    }
    if sequence.sequence_id != session.slots[index].next_sequence {
        return failed_body(tag, CB_SEQUENCE, NFS4ERR_SEQ_MISORDERED);
    }
    let run = run_series(buf, num_ops - 1, recalls);
    let ghost taken = choose|taken: Seq<bool>|
        series_matches(
            #[trigger] series(start, (num_ops - 1) as nat, taken),
            taken,
            run,
            old(recalls)@,
            recalls@,
        );
    let mut replies = sequence_reply(&sequence, max_slot, &session.session_id);
    append_bytes(&mut replies, &run.replies);
    let reply = compound_body(tag, run.status, run.count + 1, &replies);
    let ghost expected = sequenced(
        before,
        contents(request),
        tag@,
        num_ops,
        sequence@,
        start,
        taken,
    );
    let ghost request_bytes = contents(request);
    session.slots[index] =
        CallbackSlot {
            next_sequence: sequence.sequence_id.wrapping_add(1),
            answered: Some(Answered { request, reply: slice_to_vec(&reply) }),
        };
    assert(session@.slots =~= advanced(before, sequence@, request_bytes, reply@).slots);
    reply
}

/// Answers a CB_COMPOUND. A request that a slot has answered already gets the same answer
/// and is not done again.
pub fn parse_compound(
    session: &mut CallbackSession,
    request: Bytes,
    recalls: &mut Outbox<RecallNotification>,
) -> (reply: Result<Vec<u8>>)
    requires
        old(session)@.wf(),
    ensures
        final(session)@.wf(),
        exists|taken: Seq<bool>|
            compound_matches(
                #[trigger] compound_outcome(old(session)@, contents(request), taken),
                taken,
                (old(session)@, final(session)@),
                reply,
                (old(recalls)@, final(recalls)@),
            ),
{
    let ghost before = session@;
    let ghost none: Seq<bool> = Seq::empty();
    let ghost plain = compound_outcome(before, contents(request), none);
    assert(recalls@ =~= recalls@ + handed(Seq::empty(), none));
    let mut buf = duplicate(&request);
    let tag_bytes = read_opaque(&mut buf)?;
    let ghost s = contents(buf);
    if remaining(&buf) < 12 {
        return Err(xdr_error("CB_COMPOUND args truncated"));
    }
    let minor_version: u32 = get_u32(&mut buf);
    // callback_ident
    advance(&mut buf, 4);
    let num_ops: u32 = get_u32(&mut buf);
    assert(s.skip(4).skip(4) =~= s.skip(8));
    assert(s.skip(8).skip(4) =~= s.skip(12));
    let tag = as_slice(&tag_bytes);
    if minor_version != 1 {
        return Ok(compound_error_body(tag, NFS4ERR_MINOR_VERS_MISMATCH));
    }
    if remaining(&request) as u64 > session.max_request_size as u64 || num_ops
        > session.max_operations {
        return Ok(compound_error_body(tag, NFS4ERR_BADXDR));
    }
    if num_ops == 0 {
        return Ok(compound_error_body(tag, NFS4_OK));
    }
    if remaining(&buf) < 4 {
        return Ok(compound_error_body(tag, NFS4ERR_BADXDR));
    }
    let first_opcode: u32 = get_u32(&mut buf);
    if first_opcode != CB_SEQUENCE {
        return Ok(failed_body(tag, first_opcode, NFS4ERR_OP_NOT_IN_SESSION));
    }
    let sequence = match parse_sequence(&mut buf) {
        Ok(sequence) => sequence,
        Err(_) => {
            return Ok(failed_body(tag, CB_SEQUENCE, NFS4ERR_BADXDR));
        },
    };
    let ghost rest = contents(buf);
    let ghost sequence_view = sequence@;
    let ghost request_bytes = contents(request);
    let reply = answer_sequenced(session, request, tag, num_ops, sequence, &mut buf, recalls);
    let ghost taken = choose|taken: Seq<bool>|
        outcome_matches(
            #[trigger] sequenced(before, request_bytes, tag@, num_ops, sequence_view, rest, taken),
            taken,
            session@,
            reply@,
            old(recalls)@,
            recalls@,
        );
    let ghost outcome = compound_outcome(before, request_bytes, taken);
    Ok(reply)
}

/// Whether a CB_COMPOUND came to what is expected, and the worker's queue was offered just
/// what it offers. Of the session and of the offers, the first is before and the second after.
pub open spec fn compound_matches(
    outcome: Decoded<Outcome>,
    taken: Seq<bool>,
    session: (SessionView, SessionView),
    reply: Result<Vec<u8>>,
    offers: (Seq<Handed<RecallView>>, Seq<Handed<RecallView>>),
) -> bool {
    match outcome {
        Ok(outcome) => reply is Ok && outcome_matches(
            outcome,
            taken,
            session.1,
            reply->Ok_0@,
            offers.0,
            offers.1,
        ),
        Err(error) => session.1 == session.0 && offers.1 == offers.0 && reply is Err
            && reply->Err_0@ == error,
    }
}

/// Why a call header is refused.
pub open spec fn header_error(msg_type: u32, rpc_version: u32, program: u32, version: u32) -> ErrorView {
    ErrorView::Rpc(
        "invalid callback RPC header type="@ + decimal(msg_type as nat) + " rpc="@ + decimal(
            rpc_version as nat,
        ) + " program="@ + decimal(program as nat) + " version="@ + decimal(version as nat),
    )
}

/// The procedure of a call and its arguments, or why the call is refused.
pub open spec fn call_args(s: Seq<u8>) -> Parsed<u32> {
    if s.len() < 20 {
        Err(ErrorView::Xdr("CB RPC header too short"@))
    } else if word(s) != 0 || word(s.skip(4)) != 2 || word(s.skip(8)) != CB_PROGRAM || word(
        s.skip(12),
    ) != 1 {
        Err(header_error(word(s), word(s.skip(4)), word(s.skip(8)), word(s.skip(12))))
    } else {
        chain(
            auth_arg(s.skip(20)),
            |credential: (u32, u32), rest: Seq<u8>|
                chain(
                    auth_arg(rest),
                    |verifier: (u32, u32), rest: Seq<u8>|
                        if credential != (0u32, 0u32) || verifier != (0u32, 0u32) {
                            Err::<(u32, Seq<u8>), ErrorView>(
                                ErrorView::Rpc(
                                    "callback RPC authentication does not match negotiated AUTH_NONE"@,
                                ),
                            )
                        } else {
                            Ok((word(s.skip(16)), rest))
                        },
                ),
        )
    }
}

/// What a call leads to.
pub open spec fn call_outcome(session: SessionView, xid: u32, s: Seq<u8>, taken: Seq<bool>) -> Decoded<
    Outcome,
> {
    match call_args(s) {
        Err(error) => Err(error),
        Ok((procedure, request)) => if procedure == 0 {
            Ok(answered(session, rpc_accepted(xid, Seq::empty())))
        } else if procedure != 1 {
            Err(ErrorView::Rpc("unsupported callback procedure "@ + decimal(procedure as nat)))
        } else {
            match compound_outcome(session, request, taken) {
                Err(error) => Err(error),
                Ok(compound) => Ok(
                    Outcome { reply: rpc_accepted(xid, compound.reply), ..compound },
                ),
            }
        },
    }
}

fn parse_call_args(buf: &mut Bytes) -> (procedure: Result<u32>)
    ensures
        match call_args(contents(*old(buf))) {
            Ok((expected, rest)) => procedure is Ok && procedure->Ok_0 == expected && contents(
                *final(buf),
            ) == rest,
            Err(error) => procedure is Err && procedure->Err_0@ == error,
        },
{
    let ghost s = contents(*buf);
    if remaining(buf) < 20 {
        return Err(xdr_error("CB RPC header too short"));
    }
    let msg_type: u32 = get_u32(buf);
    let rpc_version: u32 = get_u32(buf);
    let program: u32 = get_u32(buf);
    let version: u32 = get_u32(buf);
    let procedure: u32 = get_u32(buf);
    assert(s.skip(4).skip(4) =~= s.skip(8));
    assert(s.skip(8).skip(4) =~= s.skip(12));
    assert(s.skip(12).skip(4) =~= s.skip(16));
    assert(s.skip(16).skip(4) =~= s.skip(20));
    if msg_type != 0 || rpc_version != 2 || program != CB_PROGRAM || version != 1 {
        let mut text = with_number("invalid callback RPC header type=", msg_type as u64);
        text.append(" rpc=");
        push_decimal(&mut text, rpc_version as u64);
        text.append(" program=");
        push_decimal(&mut text, program as u64);
        text.append(" version=");
        push_decimal(&mut text, version as u64);
        return Err(NfsError::Rpc(text));
    }
    let credential: (u32, u32) = read_rpc_auth(buf)?;
    let verifier: (u32, u32) = read_rpc_auth(buf)?;
    if credential.0 != 0 || credential.1 != 0 || verifier.0 != 0 || verifier.1 != 0 {
        return Err(
            rpc_error("callback RPC authentication does not match negotiated AUTH_NONE"),
        );
    }
    Ok(procedure)
}

/// Answers a call behind its transaction identifier.
pub fn parse_rpc_call(
    xid: u32,
    buf: Bytes,
    session: &mut CallbackSession,
    recalls: &mut Outbox<RecallNotification>,
) -> (reply: Result<Vec<u8>>)
    requires
        old(session)@.wf(),
    ensures
        final(session)@.wf(),
        exists|taken: Seq<bool>|
            compound_matches(
                #[trigger] call_outcome(old(session)@, xid, contents(buf), taken),
                taken,
                (old(session)@, final(session)@),
                reply,
                (old(recalls)@, final(recalls)@),
            ),
{
    let ghost before = session@;
    let ghost start = contents(buf);
    let ghost none: Seq<bool> = Seq::empty();
    let ghost plain = call_outcome(before, xid, start, none);
    assert(recalls@ =~= recalls@ + handed(Seq::empty(), none));
    let mut buf = buf;
    let procedure: u32 = parse_call_args(&mut buf)?;
    if procedure == 0 {
        let nothing: Vec<u8> = Vec::new();
        assert(nothing@ =~= Seq::empty());
        return Ok(build_rpc_reply(xid, &nothing));
    }
    if procedure != 1 {
        return Err(
            NfsError::Rpc(with_number("unsupported callback procedure ", procedure as u64)),
        );
    }
    let ghost request = contents(buf);
    let result = parse_compound(session, buf, recalls);
    let ghost taken = choose|taken: Seq<bool>|
        compound_matches(
            #[trigger] compound_outcome(before, request, taken),
            taken,
            (before, session@),
            result,
            (old(recalls)@, recalls@),
        );
    let ghost outcome = call_outcome(before, xid, start, taken);
    match result {
        Ok(compound) => Ok(build_rpc_reply(xid, &compound)),
        Err(error) => Err(error),
    }
}

/// What a frame leads to.
#[verifier::ext_equal]
pub struct FrameOutcome {
    pub session: SessionView,
    pub reply: Option<Seq<u8>>,
    /// What the worker's queue is offered.
    pub offered: Seq<RecallView>,
}

/// What a frame leads to: nothing if it is too short to be answered; a call that is refused
/// is answered with NFS4ERR_BADXDR.
pub open spec fn frame_outcome(session: SessionView, frame: Seq<u8>, taken: Seq<bool>) -> FrameOutcome {
    if frame.len() < 4 {
        FrameOutcome { session, reply: None, offered: Seq::empty() }
    } else {
        match call_outcome(session, word(frame), frame.skip(4), taken) {
            Ok(outcome) => FrameOutcome {
                session: outcome.session,
                reply: Some(outcome.reply),
                offered: outcome.offered,
            },
            Err(_) => FrameOutcome {
                session,
                reply: Some(
                    rpc_accepted(
                        word(frame),
                        compound_res(Seq::empty(), NFS4ERR_BADXDR, 0, Seq::empty()),
                    ),
                ),
                offered: Seq::empty(),
            },
        }
    }
}

/// Whether a frame came to what is expected, and the worker's queue was offered just what it
/// offers.
pub open spec fn frame_matches(
    outcome: FrameOutcome,
    taken: Seq<bool>,
    session: SessionView,
    reply: Option<Vec<u8>>,
    before: Seq<Handed<RecallView>>,
    after: Seq<Handed<RecallView>>,
) -> bool {
    &&& outcome.session == session
    &&& match outcome.reply {
        Some(bytes) => reply is Some && reply->Some_0@ == bytes,
        None => reply is None,
    }
    &&& after == before + handed(outcome.offered, taken)
}

/// Answers a frame of the backchannel. Which recalls the worker's queue takes is up to the
/// queue.
pub fn handle_cb_rpc(
    frame: Bytes,
    state: &mut CallbackState,
    recalls: &mut Outbox<RecallNotification>,
) -> (reply: Option<Vec<u8>>)
    requires
        old(state).wf(),
    ensures
        final(state).wf(),
        final(state).layout_recalls_received == old(state).layout_recalls_received,
        final(state).layout_returns_completed == old(state).layout_returns_completed,
        exists|taken: Seq<bool>|
            frame_matches(
                #[trigger] frame_outcome(old(state).session@, contents(frame), taken),
                taken,
                final(state).session@,
                reply,
                old(recalls)@,
                final(recalls)@,
            ),
{
    let ghost before = state.session@;
    let ghost start = contents(frame);
    let ghost none: Seq<bool> = Seq::empty();
    let ghost plain = frame_outcome(before, start, none);
    assert(recalls@ =~= recalls@ + handed(Seq::empty(), none));
    let mut frame = frame;
    if remaining(&frame) < 4 {
        return None;
    }
    let xid: u32 = get_u32(&mut frame);
    let result = parse_rpc_call(xid, frame, &mut state.session, recalls);
    let ghost taken = choose|taken: Seq<bool>|
        compound_matches(
            #[trigger] call_outcome(before, xid, start.skip(4), taken),
            taken,
            (before, state.session@),
            result,
            (old(recalls)@, recalls@),
        );
    let ghost outcome = frame_outcome(before, start, taken);
    match result {
        Ok(reply) => Some(reply),
        Err(_) => {
            let tag: Vec<u8> = Vec::new();
            assert(tag@ =~= Seq::empty());
            assert(recalls@ =~= recalls@ + handed(Seq::empty(), taken));
            Some(build_rpc_reply(xid, &compound_error_body(&tag, NFS4ERR_BADXDR)))
        },
    }
}

/// A CB_COMPOUND that comes in again gets the answer that it got before, and nothing is done
/// again: the session stays as it is and the worker's queue is offered nothing.
pub proof fn law_repeated_request_is_answered_alike(
    session: SessionView,
    request: Seq<u8>,
    taken: Seq<bool>,
    again: Seq<bool>,
)
    requires
        session.wf(),
        compound_outcome(session, request, taken) is Ok,
    ensures
        ({
            let first = compound_outcome(session, request, taken)->Ok_0;
            compound_outcome(first.session, request, again) == Ok::<Outcome, ErrorView>(
                answered(first.session, first.reply),
            )
        }),
{
}

/// Another request under a sequence number that was used already is refused, and nothing is
/// done.
pub proof fn law_false_retry_has_no_effect(
    session: SessionView,
    request: Seq<u8>,
    tag: Seq<u8>,
    num_ops: u32,
    sequence: SequenceView,
    s: Seq<u8>,
    taken: Seq<bool>,
)
    requires
        sequence.session_id == session.session_id,
        sequence.slot_id < session.slots.len(),
        sequence.sequence_id == session.slots[sequence.slot_id as int].next_sequence.wrapping_sub(1),
        session.slots[sequence.slot_id as int].answered is Some,
        session.slots[sequence.slot_id as int].answered->Some_0.0 != request,
    ensures
        sequenced(session, request, tag, num_ops, sequence, s, taken) == answered(
            session,
            sequence_error(tag, NFS4ERR_SEQ_FALSE_RETRY),
        ),
{
}

/// A request of another session, on a slot that there is not, or out of order is refused,
/// and nothing is done.
pub proof fn law_refused_sequence_has_no_effect(
    session: SessionView,
    request: Seq<u8>,
    tag: Seq<u8>,
    num_ops: u32,
    sequence: SequenceView,
    s: Seq<u8>,
    taken: Seq<bool>,
)
    requires
        ({
            ||| sequence.session_id != session.session_id
            ||| sequence.slot_id >= session.slots.len()
            ||| ({
                let slot = session.slots[sequence.slot_id as int];
                &&& sequence.sequence_id != slot.next_sequence
                &&& sequence.sequence_id != slot.next_sequence.wrapping_sub(1) || slot.answered
                    is None
            })
        }),
    ensures
        sequenced(session, request, tag, num_ops, sequence, s, taken).session == session,
        sequenced(session, request, tag, num_ops, sequence, s, taken).offered.len() == 0,
{
}

/// The slots of a session neither grow nor shrink.
pub proof fn law_slots_are_bounded(session: SessionView, frame: Seq<u8>, taken: Seq<bool>)
    ensures
        frame_outcome(session, frame, taken).session.slots.len() == session.slots.len(),
{
    let s = frame.skip(4);
    if frame.len() >= 4 && call_args(s) is Ok && call_args(s)->Ok_0.0 == 1 {
        lemma_compound_keeps_slots(session, call_args(s)->Ok_0.1, taken);
    }
}

proof fn lemma_compound_keeps_slots(session: SessionView, request: Seq<u8>, taken: Seq<bool>)
    ensures
        compound_outcome(session, request, taken) is Ok ==> compound_outcome(
            session,
            request,
            taken,
        )->Ok_0.session.slots.len() == session.slots.len(),
{
}

} // verus!
