//! What a server calls an NFSv4.1 client back with, as it writes it, and what the client answers.

use vstd::prelude::*;

use crate::error::ErrorView;
use crate::nfs41::callback::{
    asked_for, auth_arg, call_args, compound_ops, compound_res, delegation_recall, fresh_session,
    layout_recall, op_head, op_outcome, opaque_arg, referring_lists, rpc_accepted, sequence_args,
    sequence_error, sequence_res, sequenced, series, RecallView, SequenceView, SessionView,
};
use crate::wire::{holds, lemma_regroup, Fields};
use crate::xdr::{be32, be64, bool32, opaque, word};

verus! {

proof fn lemma_opaque_arg(data: Seq<u8>, tail: Seq<u8>)
    requires
        data.len() <= u32::MAX,
    ensures
        opaque_arg(opaque(data) + tail) == Ok::<(Seq<u8>, Seq<u8>), ErrorView>((data, tail)),
{
    broadcast use crate::wire::group_front;

}

/// CB_RECALL names the delegation, whether the file will be truncated, and the file.
pub proof fn law_recall_is_read_back(
    stateid: Seq<u8>,
    truncate: bool,
    fh: Seq<u8>,
    tail: Seq<u8>,
)
    requires
        stateid.len() == 16,
        fh.len() <= u32::MAX,
    ensures
        delegation_recall(stateid + (bool32(truncate) + (opaque(fh) + tail))) == Ok::<
            (RecallView, Seq<u8>),
            u32,
        >((RecallView::Delegation { stateid, truncate, fh }, tail)),
        asked_for(4, stateid + (bool32(truncate) + (opaque(fh) + tail))) == delegation_recall(
            stateid + (bool32(truncate) + (opaque(fh) + tail)),
        ),
{
    let file = opaque(fh) + tail;
    let s = stateid + (bool32(truncate) + file);
    lemma_opaque_arg(fh, tail);
    assert({
        &&& s.len() >= 20
        &&& s.take(16) == stateid
        &&& (word(s.skip(16)) != 0) == truncate
        &&& s.skip(16).skip(4) == file
    }) by {
        broadcast use crate::wire::group_front;

    }
}

/// CB_LAYOUTRECALL for a file names the mode, the file, the range and the stateid.
pub proof fn law_layout_recall_is_read_back(
    layout_type: u32,
    iomode: u32,
    changed: bool,
    fh: Seq<u8>,
    offset: u64,
    length: u64,
    stateid: Seq<u8>,
    tail: Seq<u8>,
)
    requires
        stateid.len() == 16,
        fh.len() <= u32::MAX,
    ensures
        ({
            let s = be32(layout_type) + (be32(iomode) + (bool32(changed) + (be32(1) + (opaque(fh) + (
            be64(offset) + (be64(length) + (stateid + tail)))))));
            &&& layout_recall(s) == Ok::<(RecallView, Seq<u8>), u32>(
                (RecallView::LayoutFile { stateid, fh, offset, length, iomode }, tail),
            )
            &&& asked_for(5, s) == layout_recall(s)
        }),
{
    let range = be64(offset) + (be64(length) + (stateid + tail));
    let file = opaque(fh) + range;
    let s = be32(layout_type) + (be32(iomode) + (bool32(changed) + (be32(1) + file)));
    lemma_opaque_arg(fh, range);
    assert({
        &&& s.len() >= 16
        &&& word(s.skip(4)) == iomode
        &&& word(s.skip(12)) == 1
        &&& s.skip(16) == file
    }) by {
        broadcast use crate::wire::group_front;

    }
    assert({
        &&& range.len() >= 32
        &&& crate::xdr::hyper(range) == offset
        &&& crate::xdr::hyper(range.skip(8)) == length
        &&& range.skip(32) == tail
    }) by {
        broadcast use crate::wire::group_front;

    }
    assert(range.subrange(16, 32) =~= stateid);
}

/// CB_LAYOUTRECALL for a file system and for everything recall all layouts; one for anything else
/// is refused as invalid.
pub proof fn law_bulk_recall_is_read_back(
    layout_type: u32,
    iomode: u32,
    changed: bool,
    kind: u32,
    fsid: Seq<u8>,
    tail: Seq<u8>,
)
    requires
        fsid.len() == 16,
    ensures
        ({
            let s = be32(layout_type) + (be32(iomode) + (bool32(changed) + (be32(kind) + (fsid
                + tail))));
            &&& kind == 2 ==> layout_recall(s) == Ok::<(RecallView, Seq<u8>), u32>(
                (RecallView::LayoutAll, tail),
            )
            &&& kind == 3 ==> layout_recall(s) == Ok::<(RecallView, Seq<u8>), u32>(
                (RecallView::LayoutAll, fsid + tail),
            )
            &&& kind == 0 || kind > 3 ==> layout_recall(s) == Err::<(RecallView, Seq<u8>), u32>(22)
        }),
{
    broadcast use crate::wire::group_front;

    let s = be32(layout_type) + (be32(iomode) + (bool32(changed) + (be32(kind) + (fsid + tail))));
    assert(word(s.skip(12)) == kind);
    assert(s.skip(16) == fsid + tail);
}

/// A recall that was read is answered with success where it could be handed on and with a wait
/// where it could not; an operation that is neither of the two recalls is illegal.
pub proof fn law_recall_is_answered(opcode: u32, s: Seq<u8>, taken: bool)
    ensures
        asked_for(opcode, s) is Ok ==> op_outcome(opcode, s, taken) == (if taken {
            0u32
        } else {
            10008
        }),
        asked_for(opcode, s) is Err ==> op_outcome(opcode, s, taken) == asked_for(opcode, s)->Err_0,
        opcode != 4 && opcode != 5 ==> op_outcome(opcode, s, taken) == 10044,
        (opcode == 4 || opcode == 5) && s.len() < 16 ==> op_outcome(opcode, s, taken) == 10036,
{
}

/// CB_SEQUENCE names the session, the number and the slot; what it says of other calls is passed
/// over.
pub proof fn law_sequence_is_read_back(
    session_id: Seq<u8>,
    sequence_id: u32,
    slot_id: u32,
    highest: u32,
    cache: bool,
    tail: Seq<u8>,
)
    requires
        session_id.len() == 16,
    ensures
        sequence_args(
            session_id + (be32(sequence_id) + (be32(slot_id) + (be32(highest) + (bool32(cache) + (
            be32(0) + tail))))),
        ) == Ok::<(SequenceView, Seq<u8>), ErrorView>(
            (SequenceView { session_id, sequence_id, slot_id }, tail),
        ),
{
    broadcast use crate::wire::group_front;

    let s = session_id + (be32(sequence_id) + (be32(slot_id) + (be32(highest) + (bool32(cache) + (
    be32(0) + tail)))));
    assert(word(s.skip(32)) == 0);
    assert(s.skip(36) == tail);
}

/// A list of calls that a callback refers to is passed over: a session, and eight bytes for each
/// call behind how many they are.
pub proof fn law_referring_list_is_passed_over(
    session_id: Seq<u8>,
    calls: Seq<u8>,
    count: u32,
    lists: nat,
    tail: Seq<u8>,
)
    requires
        session_id.len() == 16,
        calls.len() == 8 * count,
    ensures
        referring_lists(tail, 0) == Ok::<Seq<u8>, ErrorView>(tail),
        referring_lists(session_id + (be32(count) + (calls + tail)), lists + 1)
            == referring_lists(tail, lists),
{
    let s = session_id + (be32(count) + (calls + tail));
    assert({
        &&& s.len() >= 20
        &&& word(s.skip(16)) == count
        &&& s.skip(16).skip(4) == calls + tail
        &&& (calls + tail).skip(count * 8) == tail
    }) by {
        broadcast use crate::wire::group_front;

    }
}

/// CB_SEQUENCE is answered with the session, the number and the slot of the call, and with the
/// highest slot of the client twice.
pub proof fn law_sequence_is_answered(sequence: SequenceView, max_slot: u32, session_id: Seq<u8>)
    ensures
        holds(
            sequence_res(sequence, max_slot, session_id),
            Fields::Start.word(11).word(0).bytes(session_id).word(sequence.sequence_id).word(
                sequence.slot_id,
            ).word(max_slot).word(max_slot),
        ),
{
    broadcast use crate::wire::group_fields;

}

/// A reply to CB_COMPOUND holds the status, the tag, how many operations it answers and their
/// results; it goes out as the accepted reply to its call.
pub proof fn law_reply_holds_its_results(
    xid: u32,
    tag: Seq<u8>,
    status: u32,
    count: u32,
    replies: Seq<u8>,
    opcode: u32,
    body: Seq<u8>,
)
    requires
        tag.len() <= u32::MAX,
    ensures
        holds(
            compound_res(tag, status, count, replies),
            Fields::Start.word(status).counted(tag).word(count).bytes(replies),
        ),
        holds(
            rpc_accepted(xid, body),
            Fields::Start.word(xid).word(1).word(0).word(0).word(0).word(0).bytes(body),
        ),
        holds(op_head(opcode, status), Fields::Start.word(opcode).word(status)),
        holds(
            sequence_error(tag, status),
            Fields::Start.word(status).counted(tag).word(1).bytes(op_head(11, status)),
        ),
{
    broadcast use crate::wire::group_fields;

}

/// A new session takes at least one request at a time, of at least one byte, and between one
/// and sixty-four operations; each of its slots waits for the number one.
pub proof fn law_new_session_is_bounded(
    session_id: Seq<u8>,
    generation: u64,
    max_requests: u32,
    max_request_size: u32,
    max_operations: u32,
    i: int,
)
    ensures
        ({
            let session = fresh_session(
                session_id,
                generation,
                max_requests,
                max_request_size,
                max_operations,
            );
            &&& session.wf()
            &&& session.session_id == session_id
            &&& session.generation == generation
            &&& max_requests > 0 ==> session.slots.len() == max_requests
            &&& max_requests == 0 ==> session.slots.len() == 1
            &&& max_request_size > 0 ==> session.max_request_size == max_request_size
            &&& 1 <= max_operations <= 64 ==> session.max_operations == max_operations
            &&& max_operations > 64 ==> session.max_operations == 64
            &&& 0 <= i < session.slots.len() ==> session.slots[i].next_sequence == 1
                && session.slots[i].answered is None
        }),
{
}

/// The next request of a slot is run, answered and remembered, and its slot waits for the number
/// after it; the other slots stay.
pub proof fn law_next_request_moves_its_slot(
    session: SessionView,
    request: Seq<u8>,
    tag: Seq<u8>,
    num_ops: u32,
    sequence: SequenceView,
    s: Seq<u8>,
    taken: Seq<bool>,
    other: int,
)
    requires
        num_ops >= 1,
        sequence.session_id == session.session_id,
        sequence.slot_id < session.slots.len(),
        sequence.sequence_id == session.slots[sequence.slot_id as int].next_sequence,
        sequence.sequence_id < u32::MAX,
        0 <= other < session.slots.len(),
        other != sequence.slot_id,
    ensures
        ({
            let outcome = sequenced(session, request, tag, num_ops, sequence, s, taken);
            let slot = outcome.session.slots[sequence.slot_id as int];
            let run = series(s, (num_ops - 1) as nat, taken);
            &&& slot.next_sequence == sequence.sequence_id + 1
            &&& slot.answered == Some((request, outcome.reply))
            &&& outcome.session.slots[other] == session.slots[other]
            &&& outcome.session.session_id == session.session_id
            &&& outcome.session.generation == session.generation
            &&& outcome.offered == run.offered
        }),
{
    let slot = session.slots[sequence.slot_id as int];
    assert(slot.next_sequence.wrapping_sub(1) != slot.next_sequence);
}

/// What is wrong with a callback is answered with its number: another minor version, more than
/// the session takes, no CB_SEQUENCE in front.
pub proof fn law_callback_is_judged(
    session: SessionView,
    request: Seq<u8>,
    tag: Seq<u8>,
    minor: u32,
    num_ops: u32,
    opcode: u32,
    rest: Seq<u8>,
    taken: Seq<bool>,
)
    ensures
        ({
            let s = be32(opcode) + rest;
            let outcome = compound_ops(session, request, tag, minor, num_ops, s, taken);
            let fits = request.len() <= session.max_request_size && num_ops
                <= session.max_operations;
            let nothing = Seq::<u8>::empty();
            &&& minor != 1 ==> outcome.reply == compound_res(tag, 10021, 0, nothing)
            &&& minor == 1 && !fits ==> outcome.reply == compound_res(tag, 10036, 0, nothing)
            &&& minor == 1 && fits && num_ops == 0 ==> outcome.reply == compound_res(
                tag,
                0,
                0,
                nothing,
            )
            &&& minor == 1 && fits && num_ops > 0 && opcode != 11 ==> outcome.reply == compound_res(
                tag,
                10071,
                1,
                op_head(opcode, 10071),
            )
            &&& minor != 1 || !fits || num_ops == 0 || opcode != 11 ==> outcome.session == session
                && outcome.offered.len() == 0
        }),
{
    crate::xdr::lemma_word_of_be32(opcode, rest);
}

/// A request out of its session, its slot or its order is answered with which of them it is.
pub proof fn law_sequence_is_judged(
    session: SessionView,
    request: Seq<u8>,
    tag: Seq<u8>,
    num_ops: u32,
    sequence: SequenceView,
    s: Seq<u8>,
    taken: Seq<bool>,
)
    ensures
        ({
            let reply = sequenced(session, request, tag, num_ops, sequence, s, taken).reply;
            let known = sequence.session_id == session.session_id;
            let slot = session.slots[sequence.slot_id as int];
            &&& !known ==> reply == sequence_error(tag, 10052)
            &&& known && sequence.slot_id >= session.slots.len() ==> reply == sequence_error(
                tag,
                10053,
            )
            &&& known && sequence.slot_id < session.slots.len() && sequence.sequence_id
                != slot.next_sequence && slot.answered is None ==> reply == sequence_error(
                tag,
                10063,
            )
        }),
{
}

/// A call to the callback program without credentials is taken, with its procedure and its body;
/// one to another program or version is refused.
pub proof fn law_call_is_judged(
    kind: u32,
    rpc_version: u32,
    program: u32,
    version: u32,
    procedure: u32,
    body: Seq<u8>,
)
    ensures
        ({
            let s = be32(kind) + (be32(rpc_version) + (be32(program) + (be32(version) + (be32(
                procedure,
            ) + (be32(0) + (be32(0) + (be32(0) + (be32(0) + body))))))));
            let right = kind == 0 && rpc_version == 2 && program == 0x4000_0000 && version == 1;
            &&& right ==> call_args(s) == Ok::<(u32, Seq<u8>), ErrorView>((procedure, body))
            &&& !right ==> call_args(s) is Err
        }),
{
    let verifier = be32(0) + (be32(0) + body);
    let auth = be32(0) + (be32(0) + verifier);
    let s = be32(kind) + (be32(rpc_version) + (be32(program) + (be32(version) + (be32(procedure)
        + auth))));
    lemma_no_auth(verifier);
    lemma_no_auth(body);
    assert({
        &&& s.len() >= 20
        &&& word(s) == kind
        &&& word(s.skip(4)) == rpc_version
        &&& word(s.skip(8)) == program
        &&& word(s.skip(12)) == version
        &&& word(s.skip(16)) == procedure
        &&& s.skip(20) == auth
    }) by {
        broadcast use crate::wire::group_front;

    }
}

proof fn lemma_no_auth(rest: Seq<u8>)
    ensures
        auth_arg(be32(0) + (be32(0) + rest)) == Ok::<((u32, u32), Seq<u8>), ErrorView>(
            ((0, 0), rest),
        ),
{
    broadcast use crate::wire::group_front;

    let s = be32(0) + (be32(0) + rest);
    assert(s.skip(4) == be32(0) + rest);
    assert(s.skip(4).skip(4) == rest);
    assert(rest.skip(0) == rest);
}

} // verus!
