//! What each NFSv4.1 operation returns, as a server writes it: the walk over a reply ends
//! just where the result of an operation does.

use vstd::prelude::*;
use vstd::utf8::encode_utf8;

use crate::error::ErrorView;
use crate::nfs4::acl::{law_written_ace_is_read_back, written_ace, AceView};
use crate::nfs4::status::{status_word, Nfs4ErrorCode};
use crate::nfs41::compound::{opcode, operation, OpNum};
use crate::nfs41::response::{
    bitmap, channel_attrs4, entries, entry, fixed, impl_ids, layout_segment, op_result,
    open_delegation, repeated, server_owner_and_scope, state_protect, success_result, var_bytes,
    whole,
};
use crate::wire::lemma_regroup;
use crate::xdr::{be32, be64, bitmap4, bool32, lemma_word_of_be32, opaque};

verus! {

/// Where the result of an operation ends, whatever follows it, it is whole.
proof fn lemma_success_is_whole(op: OpNum, data: Seq<u8>)
    requires
        forall|tail: Seq<u8>| #[trigger] success_result(op, data + tail) == Ok::<
            Seq<u8>,
            ErrorView,
        >(tail),
    ensures
        whole((opcode(op), 0, data)),
{
    reveal(op_result);
    lemma_opcode_is_known(op);
    crate::nfs4::status::lemma_status_of_code(Nfs4ErrorCode::NFS4_OK);
}

proof fn lemma_opcode_is_known(op: OpNum)
    ensures
        operation(opcode(op)) == Some(op),
{
    let found = choose|found: OpNum| #[trigger] opcode(found) == opcode(op);
    crate::nfs41::compound::lemma_opcodes_are_distinct(found, op);
}

proof fn lemma_counted_ends(data: Seq<u8>, tail: Seq<u8>)
    requires
        data.len() <= u32::MAX,
    ensures
        var_bytes(opaque(data) + tail) == Ok::<Seq<u8>, ErrorView>(tail),
{
    broadcast use crate::wire::group_front;

}

proof fn lemma_bitmap_ends(mask: Seq<u32>, tail: Seq<u8>)
    requires
        mask.len() <= 16,
    ensures
        bitmap(bitmap4(mask) + tail) == Ok::<Seq<u8>, ErrorView>(tail),
{
    broadcast use crate::wire::group_front;

}

proof fn lemma_fixed_ends(part: Seq<u8>, tail: Seq<u8>, text: Seq<char>)
    ensures
        fixed(part + tail, part.len(), text) == Ok::<Seq<u8>, ErrorView>(tail),
{
    assert((part + tail).skip(part.len() as int) =~= tail);
}

/// Operations that return nothing but their status: nothing is read behind it.
pub proof fn law_bare_results_are_whole(number: u32)
    requires
        seq![8u32, 13, 15, 16, 20, 22, 24, 31, 32, 44, 56, 57, 58].contains(number),
    ensures
        whole((number, 0, Seq::empty())),
{
    assert forall|tail: Seq<u8>| Seq::<u8>::empty() + tail == tail by {
        assert(Seq::<u8>::empty() + tail =~= tail);
    }
    lemma_success_is_whole(OpNum::DelegReturn, Seq::empty());
    lemma_success_is_whole(OpNum::Lockt, Seq::empty());
    lemma_success_is_whole(OpNum::Lookup, Seq::empty());
    lemma_success_is_whole(OpNum::Lookupp, Seq::empty());
    lemma_success_is_whole(OpNum::OpenAttr, Seq::empty());
    lemma_success_is_whole(OpNum::PutFh, Seq::empty());
    lemma_success_is_whole(OpNum::PutRootFh, Seq::empty());
    lemma_success_is_whole(OpNum::RestoreFh, Seq::empty());
    lemma_success_is_whole(OpNum::SaveFh, Seq::empty());
    lemma_success_is_whole(OpNum::DestroySession, Seq::empty());
    lemma_success_is_whole(OpNum::FreeStateId, Seq::empty());
    lemma_success_is_whole(OpNum::DestroyClientId, Seq::empty());
    lemma_success_is_whole(OpNum::ReclaimComplete, Seq::empty());
}

/// GETFH returns a handle.
pub proof fn law_getfh_result_is_whole(fh: Seq<u8>)
    requires
        fh.len() <= u32::MAX,
    ensures
        whole((10, 0, opaque(fh))),
{
    broadcast use crate::wire::group_front;

    let data = opaque(fh);
    assert forall|tail: Seq<u8>| #[trigger] success_result(OpNum::GetFh, data + tail) == Ok::<
        Seq<u8>,
        ErrorView,
    >(tail) by {
    }
    lemma_success_is_whole(OpNum::GetFh, data);
}

/// READLINK returns the text of the link.
pub proof fn law_readlink_result_is_whole(link: Seq<u8>)
    requires
        link.len() <= u32::MAX,
    ensures
        whole((27, 0, opaque(link))),
{
    broadcast use crate::wire::group_front;

    let data = opaque(link);
    assert forall|tail: Seq<u8>| #[trigger] success_result(OpNum::ReadLink, data + tail) == Ok::<
        Seq<u8>,
        ErrorView,
    >(tail) by {
    }
    lemma_success_is_whole(OpNum::ReadLink, data);
}

/// GETATTR returns a bitmap and the values.
pub proof fn law_getattr_result_is_whole(mask: Seq<u32>, values: Seq<u8>)
    requires
        mask.len() <= 16,
        values.len() <= u32::MAX,
    ensures
        whole((9, 0, bitmap4(mask) + opaque(values))),
{
    broadcast use crate::wire::group_front;

    let data = bitmap4(mask) + opaque(values);
    assert forall|tail: Seq<u8>| #[trigger] success_result(OpNum::GetAttr, data + tail) == Ok::<
        Seq<u8>,
        ErrorView,
    >(tail) by {
        lemma_regroup(bitmap4(mask), opaque(values), tail);
    }
    lemma_success_is_whole(OpNum::GetAttr, data);
}

/// SETATTR returns the bitmap of what was set.
pub proof fn law_setattr_result_is_whole(mask: Seq<u32>)
    requires
        mask.len() <= 16,
    ensures
        whole((34, 0, bitmap4(mask))),
{
    broadcast use crate::wire::group_front;

    let data = bitmap4(mask);
    assert forall|tail: Seq<u8>| #[trigger] success_result(OpNum::SetAttr, data + tail) == Ok::<
        Seq<u8>,
        ErrorView,
    >(tail) by {
    }
    lemma_success_is_whole(OpNum::SetAttr, data);
}

/// ACCESS returns what the server can tell and what it grants.
pub proof fn law_access_result_is_whole(supported: u32, access: u32)
    ensures
        whole((3, 0, be32(supported) + be32(access))),
{
    broadcast use crate::wire::group_front;

    let data = be32(supported) + be32(access);
    assert forall|tail: Seq<u8>| #[trigger] success_result(OpNum::Access, data + tail) == Ok::<
        Seq<u8>,
        ErrorView,
    >(tail) by {
        lemma_regroup(be32(supported), be32(access), tail);
    }
    lemma_success_is_whole(OpNum::Access, data);
}

/// READ returns whether the file ends there and the data.
pub proof fn law_read_result_is_whole(eof: bool, bytes: Seq<u8>)
    requires
        bytes.len() <= u32::MAX,
    ensures
        whole((25, 0, bool32(eof) + opaque(bytes))),
{
    broadcast use crate::wire::group_front;

    let data = bool32(eof) + opaque(bytes);
    assert forall|tail: Seq<u8>| #[trigger] success_result(OpNum::Read, data + tail) == Ok::<
        Seq<u8>,
        ErrorView,
    >(tail) by {
        lemma_regroup(bool32(eof), opaque(bytes), tail);
    }
    lemma_success_is_whole(OpNum::Read, data);
}

/// WRITE returns how much was written, how firmly, and the verifier.
pub proof fn law_write_result_is_whole(count: u32, committed: u32, verifier: Seq<u8>)
    requires
        verifier.len() == 8,
    ensures
        whole((38, 0, be32(count) + be32(committed) + verifier)),
{
    broadcast use crate::wire::group_front;

    let data = be32(count) + be32(committed) + verifier;
    assert forall|tail: Seq<u8>| #[trigger] success_result(OpNum::Write, data + tail) == Ok::<
        Seq<u8>,
        ErrorView,
    >(tail) by {
        lemma_regroup(be32(count) + be32(committed), verifier, tail);
        lemma_regroup(be32(count), be32(committed), verifier + tail);
    }
    lemma_success_is_whole(OpNum::Write, data);
}

/// COMMIT returns the verifier.
pub proof fn law_commit_result_is_whole(verifier: Seq<u8>)
    requires
        verifier.len() == 8,
    ensures
        whole((5, 0, verifier)),
{
    broadcast use crate::wire::group_front;

    let data = verifier;
    assert forall|tail: Seq<u8>| #[trigger] success_result(OpNum::Commit, data + tail) == Ok::<
        Seq<u8>,
        ErrorView,
    >(tail) by {
    }
    lemma_success_is_whole(OpNum::Commit, data);
}

/// SEQUENCE returns the session, its number there, the slots and the flags.
pub proof fn law_sequence_result_is_whole(
    session: Seq<u8>,
    sequence: u32,
    slot: u32,
    highest: u32,
    target: u32,
    flags: u32,
)
    requires
        session.len() == 16,
    ensures
        whole(
            (
                53,
                0,
                session + be32(sequence) + be32(slot) + be32(highest) + be32(target) + be32(flags),
            ),
        ),
{
    broadcast use crate::wire::group_front;

    let data = session + be32(sequence) + be32(slot) + be32(highest) + be32(target) + be32(flags);
    assert forall|tail: Seq<u8>| #[trigger] success_result(OpNum::Sequence, data + tail) == Ok::<
        Seq<u8>,
        ErrorView,
    >(tail) by {
        lemma_regroup(
            session + be32(sequence) + be32(slot) + be32(highest) + be32(target),
            be32(flags),
            tail,
        );
        lemma_regroup(
            session + be32(sequence) + be32(slot) + be32(highest),
            be32(target),
            be32(flags) + tail,
        );
        lemma_regroup(
            session + be32(sequence) + be32(slot),
            be32(highest),
            be32(target) + (be32(flags) + tail),
        );
        lemma_regroup(
            session + be32(sequence),
            be32(slot),
            be32(highest) + (be32(target) + (be32(flags) + tail)),
        );
        lemma_regroup(
            session,
            be32(sequence),
            be32(slot) + (be32(highest) + (be32(target) + (be32(flags) + tail))),
        );
    }
    lemma_success_is_whole(OpNum::Sequence, data);
}

/// CREATE returns how the directory changed and what was set.
pub proof fn law_create_result_is_whole(atomic: bool, before: u64, after: u64, mask: Seq<u32>)
    requires
        mask.len() <= 16,
    ensures
        whole((6, 0, bool32(atomic) + be64(before) + be64(after) + bitmap4(mask))),
{
    broadcast use crate::wire::group_front;

    let data = bool32(atomic) + be64(before) + be64(after) + bitmap4(mask);
    assert forall|tail: Seq<u8>| #[trigger] success_result(OpNum::Create, data + tail) == Ok::<
        Seq<u8>,
        ErrorView,
    >(tail) by {
        lemma_regroup(bool32(atomic) + be64(before) + be64(after), bitmap4(mask), tail);
        lemma_regroup(bool32(atomic) + be64(before), be64(after), bitmap4(mask) + tail);
        lemma_regroup(bool32(atomic), be64(before), be64(after) + (bitmap4(mask) + tail));
    }
    lemma_success_is_whole(OpNum::Create, data);
}

/// REMOVE returns how the directory changed.
pub proof fn law_remove_result_is_whole(atomic: bool, before: u64, after: u64)
    ensures
        whole((28, 0, bool32(atomic) + be64(before) + be64(after))),
{
    broadcast use crate::wire::group_front;

    let data = bool32(atomic) + be64(before) + be64(after);
    assert forall|tail: Seq<u8>| #[trigger] success_result(OpNum::Remove, data + tail) == Ok::<
        Seq<u8>,
        ErrorView,
    >(tail) by {
        lemma_regroup(bool32(atomic) + be64(before), be64(after), tail);
        lemma_regroup(bool32(atomic), be64(before), be64(after) + tail);
    }
    lemma_success_is_whole(OpNum::Remove, data);
}

/// LINK returns how the directory changed.
pub proof fn law_link_result_is_whole(atomic: bool, before: u64, after: u64)
    ensures
        whole((11, 0, bool32(atomic) + be64(before) + be64(after))),
{
    broadcast use crate::wire::group_front;

    let data = bool32(atomic) + be64(before) + be64(after);
    assert forall|tail: Seq<u8>| #[trigger] success_result(OpNum::Link, data + tail) == Ok::<
        Seq<u8>,
        ErrorView,
    >(tail) by {
        lemma_regroup(bool32(atomic) + be64(before), be64(after), tail);
        lemma_regroup(bool32(atomic), be64(before), be64(after) + tail);
    }
    lemma_success_is_whole(OpNum::Link, data);
}

/// RENAME returns how both directories changed.
pub proof fn law_rename_result_is_whole(
    atomic: bool,
    before: u64,
    after: u64,
    target_atomic: bool,
    target_before: u64,
    target_after: u64,
)
    ensures
        whole(
            (
                29,
                0,
                bool32(atomic) + be64(before) + be64(after) + bool32(target_atomic) + be64(target_before) + be64(target_after),
            ),
        ),
{
    broadcast use crate::wire::group_front;

    let data = bool32(atomic) + be64(before) + be64(after) + bool32(target_atomic) + be64(target_before) + be64(target_after);
    assert forall|tail: Seq<u8>| #[trigger] success_result(OpNum::Rename, data + tail) == Ok::<
        Seq<u8>,
        ErrorView,
    >(tail) by {
        lemma_regroup(
            bool32(atomic) + be64(before) + be64(after) + bool32(target_atomic) + be64(target_before),
            be64(target_after),
            tail,
        );
        lemma_regroup(
            bool32(atomic) + be64(before) + be64(after) + bool32(target_atomic),
            be64(target_before),
            be64(target_after) + tail,
        );
        lemma_regroup(
            bool32(atomic) + be64(before) + be64(after),
            bool32(target_atomic),
            be64(target_before) + (be64(target_after) + tail),
        );
        lemma_regroup(
            bool32(atomic) + be64(before),
            be64(after),
            bool32(target_atomic) + (be64(target_before) + (be64(target_after) + tail)),
        );
        lemma_regroup(
            bool32(atomic),
            be64(before),
            be64(after) + (bool32(target_atomic) + (be64(target_before) + (be64(target_after) + tail))),
        );
    }
    lemma_success_is_whole(OpNum::Rename, data);
}

/// CLOSE returns a stateid.
pub proof fn law_close_result_is_whole(stateid: Seq<u8>)
    requires
        stateid.len() == 16,
    ensures
        whole((4, 0, stateid)),
{
    broadcast use crate::wire::group_front;

    let data = stateid;
    assert forall|tail: Seq<u8>| #[trigger] success_result(OpNum::Close, data + tail) == Ok::<
        Seq<u8>,
        ErrorView,
    >(tail) by {
    }
    lemma_success_is_whole(OpNum::Close, data);
}

/// LOCK returns a stateid.
pub proof fn law_lock_result_is_whole(stateid: Seq<u8>)
    requires
        stateid.len() == 16,
    ensures
        whole((12, 0, stateid)),
{
    broadcast use crate::wire::group_front;

    let data = stateid;
    assert forall|tail: Seq<u8>| #[trigger] success_result(OpNum::Lock, data + tail) == Ok::<
        Seq<u8>,
        ErrorView,
    >(tail) by {
    }
    lemma_success_is_whole(OpNum::Lock, data);
}

/// LOCKU returns a stateid.
pub proof fn law_locku_result_is_whole(stateid: Seq<u8>)
    requires
        stateid.len() == 16,
    ensures
        whole((14, 0, stateid)),
{
    broadcast use crate::wire::group_front;

    let data = stateid;
    assert forall|tail: Seq<u8>| #[trigger] success_result(OpNum::Locku, data + tail) == Ok::<
        Seq<u8>,
        ErrorView,
    >(tail) by {
    }
    lemma_success_is_whole(OpNum::Locku, data);
}

/// TEST_STATEID returns a status for each stateid.
pub proof fn law_test_stateid_result_is_whole(statuses: Seq<u32>)
    requires
        statuses.len() <= u32::MAX,
    ensures
        whole((55, 0, bitmap4(statuses))),
{
    broadcast use crate::wire::group_front;

    let data = bitmap4(statuses);
    assert forall|tail: Seq<u8>| #[trigger] success_result(OpNum::TestStateId, data + tail) == Ok::<
        Seq<u8>,
        ErrorView,
    >(tail) by {
    }
    lemma_success_is_whole(OpNum::TestStateId, data);
}

/// BIND_CONN_TO_SESSION returns the session, the direction and whether RDMA is used.
pub proof fn law_bind_result_is_whole(session: Seq<u8>, direction: u32, rdma: bool)
    requires
        session.len() == 16,
    ensures
        whole((41, 0, session + be32(direction) + bool32(rdma))),
{
    broadcast use crate::wire::group_front;

    let data = session + be32(direction) + bool32(rdma);
    assert forall|tail: Seq<u8>| #[trigger] success_result(OpNum::BindConnToSession, data + tail) == Ok::<
        Seq<u8>,
        ErrorView,
    >(tail) by {
        lemma_regroup(session + be32(direction), bool32(rdma), tail);
        lemma_regroup(session, be32(direction), bool32(rdma) + tail);
    }
    lemma_success_is_whole(OpNum::BindConnToSession, data);
}

/// GETDEVICEINFO returns the layout type, the address and what will be notified.
pub proof fn law_getdeviceinfo_result_is_whole(layout_type: u32, body: Seq<u8>, notify: Seq<u32>)
    requires
        body.len() <= u32::MAX,
        notify.len() <= 16,
    ensures
        whole((47, 0, be32(layout_type) + opaque(body) + bitmap4(notify))),
{
    broadcast use crate::wire::group_front;

    let data = be32(layout_type) + opaque(body) + bitmap4(notify);
    assert forall|tail: Seq<u8>| #[trigger] success_result(OpNum::GetDeviceInfo, data + tail) == Ok::<
        Seq<u8>,
        ErrorView,
    >(tail) by {
        lemma_regroup(be32(layout_type) + opaque(body), bitmap4(notify), tail);
        lemma_regroup(be32(layout_type), opaque(body), bitmap4(notify) + tail);
    }
    lemma_success_is_whole(OpNum::GetDeviceInfo, data);
}

/// LAYOUTRETURN may return no stateid.
pub proof fn law_layoutreturn_without_stateid_is_whole(layout: u32)
    requires
        layout == 0,
    ensures
        whole((51, 0, be32(layout))),
{
    broadcast use crate::wire::group_front;

    let data = be32(layout);
    assert forall|tail: Seq<u8>| #[trigger] success_result(OpNum::LayoutReturn, data + tail) == Ok::<
        Seq<u8>,
        ErrorView,
    >(tail) by {
    }
    lemma_success_is_whole(OpNum::LayoutReturn, data);
}

/// LAYOUTRETURN may return the stateid of what is left.
pub proof fn law_layoutreturn_with_stateid_is_whole(stateid: Seq<u8>)
    requires
        stateid.len() == 16,
    ensures
        whole((51, 0, bool32(true) + stateid)),
{
    broadcast use crate::wire::group_front;

    let data = bool32(true) + stateid;
    assert forall|tail: Seq<u8>| #[trigger] success_result(OpNum::LayoutReturn, data + tail) == Ok::<
        Seq<u8>,
        ErrorView,
    >(tail) by {
        lemma_regroup(bool32(true), stateid, tail);
    }
    lemma_success_is_whole(OpNum::LayoutReturn, data);
}

/// LAYOUTCOMMIT may return a new size.
pub proof fn law_layoutcommit_with_size_is_whole(size: u64)
    ensures
        whole((49, 0, bool32(true) + be64(size))),
{
    broadcast use crate::wire::group_front;

    let data = bool32(true) + be64(size);
    assert forall|tail: Seq<u8>| #[trigger] success_result(OpNum::LayoutCommit, data + tail) == Ok::<
        Seq<u8>,
        ErrorView,
    >(tail) by {
        lemma_regroup(bool32(true), be64(size), tail);
    }
    lemma_success_is_whole(OpNum::LayoutCommit, data);
}

/// LAYOUTCOMMIT may return no new size.
pub proof fn law_layoutcommit_without_size_is_whole(changed: u32)
    requires
        changed == 0,
    ensures
        whole((49, 0, be32(changed))),
{
    broadcast use crate::wire::group_front;

    let data = be32(changed);
    assert forall|tail: Seq<u8>| #[trigger] success_result(OpNum::LayoutCommit, data + tail) == Ok::<
        Seq<u8>,
        ErrorView,
    >(tail) by {
    }
    lemma_success_is_whole(OpNum::LayoutCommit, data);
}

/// The attributes of a channel: six numbers, and how deep RDMA reads may queue.
pub type WrittenChannel = (u32, u32, u32, u32, u32, u32, Seq<u32>);

/// The attributes of a channel as they are written.
pub open spec fn written_channel(channel: WrittenChannel) -> Seq<u8> {
    be32(channel.0) + (be32(channel.1) + (be32(channel.2) + (be32(channel.3) + (be32(channel.4) + (
    be32(channel.5) + bitmap4(channel.6))))))
}

proof fn lemma_channel_ends(channel: WrittenChannel, tail: Seq<u8>)
    requires
        channel.6.len() <= u32::MAX,
    ensures
        channel_attrs4(written_channel(channel) + tail) == Ok::<Seq<u8>, ErrorView>(tail),
{
    broadcast use crate::wire::group_front;

    let depth = bitmap4(channel.6);
    let from5 = be32(channel.5) + depth;
    let from4 = be32(channel.4) + from5;
    let from3 = be32(channel.3) + from4;
    let from2 = be32(channel.2) + from3;
    let from1 = be32(channel.1) + from2;
    lemma_regroup(be32(channel.0), from1, tail);
    lemma_regroup(be32(channel.1), from2, tail);
    lemma_regroup(be32(channel.2), from3, tail);
    lemma_regroup(be32(channel.3), from4, tail);
    lemma_regroup(be32(channel.4), from5, tail);
    lemma_regroup(be32(channel.5), depth, tail);
}

proof fn lemma_channels_follow(
    session: Seq<u8>,
    sequence: u32,
    flags: u32,
    one: Seq<u8>,
    two: Seq<u8>,
    tail: Seq<u8>,
)
    requires
        session.len() == 16,
    ensures
        ({
            let s = session + (be32(sequence) + (be32(flags) + (one + two))) + tail;
            &&& s.len() >= 24
            &&& s.skip(24) == one + (two + tail)
        }),
{
    broadcast use crate::wire::group_front;

    lemma_regroup(session, be32(sequence) + (be32(flags) + (one + two)), tail);
    lemma_regroup(be32(sequence), be32(flags) + (one + two), tail);
    lemma_regroup(be32(flags), one + two, tail);
    lemma_regroup(one, two, tail);
}

/// CREATE_SESSION returns the session, its first number, the flags and both channels.
pub proof fn law_create_session_result_is_whole(
    session: Seq<u8>,
    sequence: u32,
    flags: u32,
    fore: WrittenChannel,
    back: WrittenChannel,
)
    requires
        session.len() == 16,
        fore.6.len() <= u32::MAX,
        back.6.len() <= u32::MAX,
    ensures
        whole(
            (
                43,
                0,
                session + (be32(sequence) + (be32(flags) + (written_channel(fore)
                    + written_channel(back)))),
            ),
        ),
{
    let (one, two) = (written_channel(fore), written_channel(back));
    let data = session + (be32(sequence) + (be32(flags) + (one + two)));
    assert forall|tail: Seq<u8>| #[trigger] success_result(OpNum::CreateSession, data + tail)
        == Ok::<Seq<u8>, ErrorView>(tail) by {
        lemma_channels_follow(session, sequence, flags, one, two, tail);
        lemma_channel_ends(fore, two + tail);
        lemma_channel_ends(back, tail);
    }
    lemma_success_is_whole(OpNum::CreateSession, data);
}

/// What EXCHANGE_ID returns up to how state is protected.
pub open spec fn written_client(client_id: u64, sequence: u32, flags: u32) -> Seq<u8> {
    be64(client_id) + (be32(sequence) + be32(flags))
}

/// The owner and the scope of a server.
pub open spec fn written_server(minor_id: u64, major_id: Seq<u8>, scope: Seq<u8>) -> Seq<u8> {
    be64(minor_id) + (opaque(major_id) + opaque(scope))
}

/// What implementation a server is.
pub open spec fn written_implementation(
    domain: Seq<u8>,
    name: Seq<u8>,
    seconds: u64,
    nanoseconds: u32,
) -> Seq<u8> {
    be32(1) + (opaque(domain) + (opaque(name) + (be64(seconds) + be32(nanoseconds))))
}

proof fn lemma_server_ends(minor_id: u64, major_id: Seq<u8>, scope: Seq<u8>, tail: Seq<u8>)
    requires
        major_id.len() <= u32::MAX,
        scope.len() <= u32::MAX,
    ensures
        server_owner_and_scope(written_server(minor_id, major_id, scope) + tail) == Ok::<
            Seq<u8>,
            ErrorView,
        >(tail),
{
    broadcast use crate::wire::group_front;

    lemma_regroup(be64(minor_id), opaque(major_id) + opaque(scope), tail);
    lemma_regroup(opaque(major_id), opaque(scope), tail);
}

proof fn lemma_implementation_ends(
    domain: Seq<u8>,
    name: Seq<u8>,
    seconds: u64,
    nanoseconds: u32,
    tail: Seq<u8>,
)
    requires
        domain.len() <= u32::MAX,
        name.len() <= u32::MAX,
    ensures
        impl_ids(written_implementation(domain, name, seconds, nanoseconds) + tail) == Ok::<
            Seq<u8>,
            ErrorView,
        >(tail),
        impl_ids(be32(0) + tail) == Ok::<Seq<u8>, ErrorView>(tail),
{
    broadcast use crate::wire::group_front;

    let time = be64(seconds) + be32(nanoseconds);
    lemma_regroup(be32(1), opaque(domain) + (opaque(name) + time), tail);
    lemma_regroup(opaque(domain), opaque(name) + time, tail);
    lemma_regroup(opaque(name), time, tail);
}

proof fn lemma_protection_ends(must: Seq<u32>, may: Seq<u32>, tail: Seq<u8>)
    requires
        must.len() <= 16,
        may.len() <= 16,
    ensures
        state_protect(be32(0) + tail) == Ok::<Seq<u8>, ErrorView>(tail),
        state_protect(be32(1) + (bitmap4(must) + bitmap4(may)) + tail) == Ok::<
            Seq<u8>,
            ErrorView,
        >(tail),
{
    broadcast use crate::wire::group_front;

    lemma_regroup(be32(1), bitmap4(must) + bitmap4(may), tail);
    lemma_regroup(bitmap4(must), bitmap4(may), tail);
}

proof fn lemma_exchange_is_whole(client: Seq<u8>, protect: Seq<u8>, server: Seq<u8>, ids: Seq<u8>)
    requires
        client.len() == 16,
        forall|tail: Seq<u8>| #[trigger] state_protect(protect + tail) == Ok::<
            Seq<u8>,
            ErrorView,
        >(tail),
        forall|tail: Seq<u8>| #[trigger] server_owner_and_scope(server + tail) == Ok::<
            Seq<u8>,
            ErrorView,
        >(tail),
        forall|tail: Seq<u8>| #[trigger] impl_ids(ids + tail) == Ok::<Seq<u8>, ErrorView>(tail),
    ensures
        whole((42, 0, client + protect + server + ids)),
{
    let data = client + protect + server + ids;
    assert forall|tail: Seq<u8>| #[trigger] success_result(OpNum::ExchangeId, data + tail) == Ok::<
        Seq<u8>,
        ErrorView,
    >(tail) by {
        lemma_regroup(client + protect + server, ids, tail);
        lemma_regroup(client + protect, server, ids + tail);
        lemma_regroup(client, protect, server + (ids + tail));
        assert((client + (protect + (server + (ids + tail)))).skip(16) =~= protect + (server + (ids
            + tail)));
    }
    lemma_success_is_whole(OpNum::ExchangeId, data);
}

/// EXCHANGE_ID returns the client ID, its first number, the flags, how state is protected, the
/// owner and the scope of the server, and what implementation it is, if it tells.
pub proof fn law_exchange_id_result_is_whole(
    client: (u64, u32, u32),
    server: (u64, Seq<u8>, Seq<u8>),
    must: Seq<u32>,
    may: Seq<u32>,
    domain: Seq<u8>,
    name: Seq<u8>,
    seconds: u64,
    nanoseconds: u32,
)
    requires
        server.1.len() <= u32::MAX,
        server.2.len() <= u32::MAX,
        must.len() <= 16,
        may.len() <= 16,
        domain.len() <= u32::MAX,
        name.len() <= u32::MAX,
    ensures
        ({
            let head = written_client(client.0, client.1, client.2);
            let owner = written_server(server.0, server.1, server.2);
            let implementation = written_implementation(domain, name, seconds, nanoseconds);
            let protection = be32(1) + (bitmap4(must) + bitmap4(may));
            &&& whole((42, 0, head + be32(0) + owner + be32(0)))
            &&& whole((42, 0, head + be32(0) + owner + implementation))
            &&& whole((42, 0, head + protection + owner + be32(0)))
            &&& whole((42, 0, head + protection + owner + implementation))
        }),
{
    let head = written_client(client.0, client.1, client.2);
    let owner = written_server(server.0, server.1, server.2);
    let implementation = written_implementation(domain, name, seconds, nanoseconds);
    let protection = be32(1) + (bitmap4(must) + bitmap4(may));
    assert forall|tail: Seq<u8>| #[trigger] server_owner_and_scope(owner + tail) == Ok::<
        Seq<u8>,
        ErrorView,
    >(tail) by {
        lemma_server_ends(server.0, server.1, server.2, tail);
    }
    assert forall|tail: Seq<u8>|
        #[trigger] impl_ids(implementation + tail) == Ok::<Seq<u8>, ErrorView>(tail) by {
        lemma_implementation_ends(domain, name, seconds, nanoseconds, tail);
    }
    assert forall|tail: Seq<u8>|
        #[trigger] impl_ids(be32(0) + tail) == Ok::<Seq<u8>, ErrorView>(tail) by {
        lemma_implementation_ends(domain, name, seconds, nanoseconds, tail);
    }
    assert forall|tail: Seq<u8>|
        #[trigger] state_protect(be32(0) + tail) == Ok::<Seq<u8>, ErrorView>(tail) by {
        lemma_protection_ends(must, may, tail);
    }
    assert forall|tail: Seq<u8>|
        #[trigger] state_protect(protection + tail) == Ok::<Seq<u8>, ErrorView>(tail) by {
        lemma_protection_ends(must, may, tail);
    }
    lemma_exchange_is_whole(head, be32(0), owner, be32(0));
    lemma_exchange_is_whole(head, be32(0), owner, implementation);
    lemma_exchange_is_whole(head, protection, owner, be32(0));
    lemma_exchange_is_whole(head, protection, owner, implementation);
}

/// How a directory changed: whether the change was atomic, and the change attribute before and
/// after it.
pub open spec fn written_change(change: (bool, u64, u64)) -> Seq<u8> {
    bool32(change.0) + (be64(change.1) + be64(change.2))
}

/// What OPEN returns up to the delegation: a stateid, how the directory changed, the flags and
/// what was set.
pub open spec fn written_open(
    stateid: Seq<u8>,
    change: (bool, u64, u64),
    flags: u32,
    mask: Seq<u32>,
) -> Seq<u8> {
    stateid + (written_change(change) + (be32(flags) + bitmap4(mask)))
}

proof fn lemma_open_leads_to_delegation(
    stateid: Seq<u8>,
    change: (bool, u64, u64),
    flags: u32,
    mask: Seq<u32>,
    rest: Seq<u8>,
)
    requires
        stateid.len() == 16,
        mask.len() <= 16,
    ensures
        success_result(OpNum::Open, written_open(stateid, change, flags, mask) + rest)
            == open_delegation(rest),
{
    broadcast use crate::wire::group_front;

    let changed = written_change(change);
    assert(changed.len() == 20);
    lemma_regroup(stateid, changed + (be32(flags) + bitmap4(mask)), rest);
    lemma_regroup(changed, be32(flags) + bitmap4(mask), rest);
    lemma_regroup(be32(flags), bitmap4(mask), rest);
}

proof fn lemma_open_is_whole(
    stateid: Seq<u8>,
    change: (bool, u64, u64),
    flags: u32,
    mask: Seq<u32>,
    delegation: Seq<u8>,
)
    requires
        stateid.len() == 16,
        mask.len() <= 16,
        forall|tail: Seq<u8>| #[trigger] open_delegation(delegation + tail) == Ok::<
            Seq<u8>,
            ErrorView,
        >(tail),
    ensures
        whole((18, 0, written_open(stateid, change, flags, mask) + delegation)),
{
    let head = written_open(stateid, change, flags, mask);
    let data = head + delegation;
    assert forall|tail: Seq<u8>| #[trigger] success_result(OpNum::Open, data + tail) == Ok::<
        Seq<u8>,
        ErrorView,
    >(tail) by {
        lemma_regroup(head, delegation, tail);
        lemma_open_leads_to_delegation(stateid, change, flags, mask, delegation + tail);
    }
    lemma_success_is_whole(OpNum::Open, data);
}

/// OPEN may return no delegation.
pub proof fn law_open_result_is_whole(
    stateid: Seq<u8>,
    change: (bool, u64, u64),
    flags: u32,
    mask: Seq<u32>,
)
    requires
        stateid.len() == 16,
        mask.len() <= 16,
    ensures
        whole((18, 0, written_open(stateid, change, flags, mask) + be32(0))),
{
    assert forall|tail: Seq<u8>|
        #[trigger] open_delegation(be32(0) + tail) == Ok::<Seq<u8>, ErrorView>(tail) by {
        broadcast use crate::wire::group_front;

    }
    lemma_open_is_whole(stateid, change, flags, mask, be32(0));
}

/// OPEN may say why it returns no delegation: contention and resources come with whether the
/// server will tell when that changes, other reasons come alone.
pub proof fn law_open_result_without_delegation_is_whole(
    stateid: Seq<u8>,
    change: (bool, u64, u64),
    flags: u32,
    mask: Seq<u32>,
    why: u32,
    will_tell: bool,
)
    requires
        stateid.len() == 16,
        mask.len() <= 16,
    ensures
        why == 1 || why == 2 ==> whole(
            (
                18,
                0,
                written_open(stateid, change, flags, mask) + (be32(3) + (be32(why) + bool32(
                    will_tell,
                ))),
            ),
        ),
        why != 1 && why != 2 ==> whole(
            (18, 0, written_open(stateid, change, flags, mask) + (be32(3) + be32(why))),
        ),
{
    let told = be32(3) + (be32(why) + bool32(will_tell));
    let bare = be32(3) + be32(why);
    if why == 1 || why == 2 {
        assert forall|tail: Seq<u8>|
            #[trigger] open_delegation(told + tail) == Ok::<Seq<u8>, ErrorView>(tail) by {
            broadcast use crate::wire::group_front;

            lemma_regroup(be32(3), be32(why) + bool32(will_tell), tail);
            lemma_regroup(be32(why), bool32(will_tell), tail);
        }
        lemma_open_is_whole(stateid, change, flags, mask, told);
    } else {
        assert forall|tail: Seq<u8>|
            #[trigger] open_delegation(bare + tail) == Ok::<Seq<u8>, ErrorView>(tail) by {
            broadcast use crate::wire::group_front;

            lemma_regroup(be32(3), be32(why), tail);
        }
        lemma_open_is_whole(stateid, change, flags, mask, bare);
    }
}

/// OPEN may return a delegation to read: its stateid, whether it is recalled already, and who
/// may read without asking.
pub proof fn law_open_result_with_read_delegation_is_whole(
    stateid: Seq<u8>,
    change: (bool, u64, u64),
    flags: u32,
    mask: Seq<u32>,
    delegation: Seq<u8>,
    recalled: bool,
    who: AceView,
)
    requires
        stateid.len() == 16,
        mask.len() <= 16,
        delegation.len() == 16,
        encode_utf8(who.who).len() <= u32::MAX,
    ensures
        whole(
            (
                18,
                0,
                written_open(stateid, change, flags, mask) + (be32(1) + (delegation + (bool32(
                    recalled,
                ) + written_ace(who)))),
            ),
        ),
{
    let granted = be32(1) + (delegation + (bool32(recalled) + written_ace(who)));
    assert forall|tail: Seq<u8>|
        #[trigger] open_delegation(granted + tail) == Ok::<Seq<u8>, ErrorView>(tail) by {
        broadcast use crate::wire::group_front;

        lemma_regroup(be32(1), delegation + (bool32(recalled) + written_ace(who)), tail);
        lemma_regroup(delegation, bool32(recalled) + written_ace(who), tail);
        lemma_regroup(bool32(recalled), written_ace(who), tail);
        law_written_ace_is_read_back(who, tail);
    }
    lemma_open_is_whole(stateid, change, flags, mask, granted);
}

/// OPEN may return a delegation to write, which bounds the file by a size or by a number of
/// blocks.
pub proof fn law_open_result_with_write_delegation_is_whole(
    stateid: Seq<u8>,
    change: (bool, u64, u64),
    flags: u32,
    mask: Seq<u32>,
    delegation: Seq<u8>,
    recalled: bool,
    size: u64,
    blocks: u32,
    block_size: u32,
    who: AceView,
)
    requires
        stateid.len() == 16,
        mask.len() <= 16,
        delegation.len() == 16,
        encode_utf8(who.who).len() <= u32::MAX,
    ensures
        whole(
            (
                18,
                0,
                written_open(stateid, change, flags, mask) + (be32(2) + (delegation + (bool32(
                    recalled,
                ) + (be32(1) + (be64(size) + written_ace(who)))))),
            ),
        ),
        whole(
            (
                18,
                0,
                written_open(stateid, change, flags, mask) + (be32(2) + (delegation + (bool32(
                    recalled,
                ) + (be32(2) + (be32(blocks) + (be32(block_size) + written_ace(who))))))),
            ),
        ),
{
    let by_size = be32(1) + (be64(size) + written_ace(who));
    let by_blocks = be32(2) + (be32(blocks) + (be32(block_size) + written_ace(who)));
    let sized = be32(2) + (delegation + (bool32(recalled) + by_size));
    let blocked = be32(2) + (delegation + (bool32(recalled) + by_blocks));
    assert forall|tail: Seq<u8>|
        #[trigger] open_delegation(sized + tail) == Ok::<Seq<u8>, ErrorView>(tail) by {
        broadcast use crate::wire::group_front;

        lemma_regroup(be32(2), delegation + (bool32(recalled) + by_size), tail);
        lemma_regroup(delegation, bool32(recalled) + by_size, tail);
        lemma_regroup(bool32(recalled), by_size, tail);
        lemma_regroup(be32(1), be64(size) + written_ace(who), tail);
        lemma_regroup(be64(size), written_ace(who), tail);
        law_written_ace_is_read_back(who, tail);
    }
    assert forall|tail: Seq<u8>|
        #[trigger] open_delegation(blocked + tail) == Ok::<Seq<u8>, ErrorView>(tail) by {
        broadcast use crate::wire::group_front;

        lemma_regroup(be32(2), delegation + (bool32(recalled) + by_blocks), tail);
        lemma_regroup(delegation, bool32(recalled) + by_blocks, tail);
        lemma_regroup(bool32(recalled), by_blocks, tail);
        lemma_regroup(be32(2), be32(blocks) + (be32(block_size) + written_ace(who)), tail);
        lemma_regroup(be32(blocks), be32(block_size) + written_ace(who), tail);
        lemma_regroup(be32(block_size), written_ace(who), tail);
        law_written_ace_is_read_back(who, tail);
    }
    lemma_open_is_whole(stateid, change, flags, mask, sized);
    lemma_open_is_whole(stateid, change, flags, mask, blocked);
}

/// A segment of LAYOUTGET as it is written, with the content behind its length.
pub type WrittenLayout = (u64, u64, u32, u32, Seq<u8>);

/// Segments one after the other.
pub open spec fn written_layouts(segments: Seq<WrittenLayout>) -> Seq<u8>
    decreases segments.len(),
{
    if segments.len() == 0 {
        Seq::empty()
    } else {
        be64(segments[0].0) + (be64(segments[0].1) + (be32(segments[0].2) + (be32(segments[0].3) + (
        opaque(segments[0].4) + written_layouts(segments.drop_first())))))
    }
}

proof fn lemma_layout_ends(segment: WrittenLayout, tail: Seq<u8>)
    requires
        segment.4.len() <= u32::MAX,
    ensures
        layout_segment(
            be64(segment.0) + (be64(segment.1) + (be32(segment.2) + (be32(segment.3) + (opaque(
                segment.4,
            ) + tail)))),
        ) == Ok::<Seq<u8>, ErrorView>(tail),
{
    let (c, d) = (be32(segment.2), be32(segment.3));
    let rest = opaque(segment.4) + tail;
    lemma_regroup(c, d, rest);
    lemma_regroup(be64(segment.1), c + d, rest);
    lemma_regroup(be64(segment.0), be64(segment.1) + (c + d), rest);
    lemma_counted_leads(segment.4, tail);
    lemma_layout_leads(be64(segment.0) + (be64(segment.1) + (c + d)), rest, tail);
}

proof fn lemma_layout_leads(head: Seq<u8>, content: Seq<u8>, tail: Seq<u8>)
    requires
        head.len() == 24,
        counted_leads(content, tail),
    ensures
        layout_segment(head + content) == Ok::<Seq<u8>, ErrorView>(tail),
{
    reveal(counted_leads);
    lemma_fixed_ends(head, content, "layout4 segment truncated"@);
}

proof fn lemma_layouts_end(segments: Seq<WrittenLayout>, tail: Seq<u8>)
    requires
        forall|i: int| 0 <= i < segments.len() ==> (#[trigger] segments[i]).4.len() <= u32::MAX,
    ensures
        repeated(
            written_layouts(segments) + tail,
            segments.len(),
            |s: Seq<u8>| layout_segment(s),
        ) == Ok::<Seq<u8>, ErrorView>(tail),
    decreases segments.len(),
{
    if segments.len() == 0 {
        assert(written_layouts(segments) + tail =~= tail);
    } else {
        let first = segments[0];
        let rest = written_layouts(segments.drop_first());
        let content = opaque(first.4) + rest;
        lemma_regroup(
            be64(first.0),
            be64(first.1) + (be32(first.2) + (be32(first.3) + content)),
            tail,
        );
        lemma_regroup(be64(first.1), be32(first.2) + (be32(first.3) + content), tail);
        lemma_regroup(be32(first.2), be32(first.3) + content, tail);
        lemma_regroup(be32(first.3), content, tail);
        lemma_regroup(opaque(first.4), rest, tail);
        lemma_layout_ends(first, rest + tail);
        lemma_layouts_end(segments.drop_first(), tail);
    }
}

/// LAYOUTGET returns whether the layout goes back on CLOSE, a stateid and segments.
pub proof fn law_layoutget_result_is_whole(
    return_on_close: bool,
    stateid: Seq<u8>,
    segments: Seq<WrittenLayout>,
)
    requires
        stateid.len() == 16,
        segments.len() <= 1024,
        forall|i: int| 0 <= i < segments.len() ==> (#[trigger] segments[i]).4.len() <= u32::MAX,
    ensures
        whole(
            (
                50,
                0,
                bool32(return_on_close) + stateid + be32(segments.len() as u32) + written_layouts(
                    segments,
                ),
            ),
        ),
{
    broadcast use crate::wire::group_front;

    let data = bool32(return_on_close) + stateid + be32(segments.len() as u32) + written_layouts(
        segments,
    );
    assert forall|tail: Seq<u8>| #[trigger] success_result(OpNum::LayoutGet, data + tail) == Ok::<
        Seq<u8>,
        ErrorView,
    >(tail) by {
        lemma_regroup(
            bool32(return_on_close) + stateid + be32(segments.len() as u32),
            written_layouts(segments),
            tail,
        );
        lemma_regroup(
            bool32(return_on_close) + stateid,
            be32(segments.len() as u32),
            written_layouts(segments) + tail,
        );
        lemma_regroup(
            bool32(return_on_close),
            stateid,
            be32(segments.len() as u32) + (written_layouts(segments) + tail),
        );
        lemma_layouts_end(segments, tail);
    }
    lemma_success_is_whole(OpNum::LayoutGet, data);
}

/// An entry of a directory as it is written: the cookie, the name, the bitmap and the values.
pub type WrittenEntry = (u64, Seq<u8>, Seq<u32>, Seq<u8>);

/// Entries one after the other, each behind a one, and a zero behind them.
pub open spec fn written_entries(list: Seq<WrittenEntry>) -> Seq<u8>
    decreases list.len(),
{
    if list.len() == 0 {
        be32(0)
    } else {
        be32(1) + (be64(list[0].0) + (opaque(list[0].1) + (bitmap4(list[0].2) + (opaque(list[0].3)
            + written_entries(list.drop_first())))))
    }
}

/// Whether the walk over counted data leads to the rest.
#[verifier::opaque]
spec fn counted_leads(s: Seq<u8>, rest: Seq<u8>) -> bool {
    var_bytes(s) == Ok::<Seq<u8>, ErrorView>(rest)
}

/// Whether the walk over a bitmap leads to the rest.
#[verifier::opaque]
spec fn bitmap_leads(s: Seq<u8>, rest: Seq<u8>) -> bool {
    bitmap(s) == Ok::<Seq<u8>, ErrorView>(rest)
}

/// Whether the walk over an entry leads to the rest.
#[verifier::opaque]
spec fn entry_leads(s: Seq<u8>, rest: Seq<u8>) -> bool {
    entry(s) == Ok::<Seq<u8>, ErrorView>(rest)
}

proof fn lemma_counted_leads(data: Seq<u8>, tail: Seq<u8>)
    requires
        data.len() <= u32::MAX,
    ensures
        counted_leads(opaque(data) + tail, tail),
{
    reveal(counted_leads);
    lemma_counted_ends(data, tail);
}

proof fn lemma_bitmap_leads(mask: Seq<u32>, tail: Seq<u8>)
    requires
        mask.len() <= 16,
    ensures
        bitmap_leads(bitmap4(mask) + tail, tail),
{
    reveal(bitmap_leads);
    lemma_bitmap_ends(mask, tail);
}

proof fn lemma_entry_leads(
    cookie: Seq<u8>,
    name: Seq<u8>,
    attrs: Seq<u8>,
    values: Seq<u8>,
    tail: Seq<u8>,
)
    requires
        cookie.len() == 8,
        counted_leads(name, attrs),
        bitmap_leads(attrs, values),
        counted_leads(values, tail),
    ensures
        entry_leads(cookie + name, tail),
{
    reveal(counted_leads);
    reveal(bitmap_leads);
    reveal(entry_leads);
    lemma_fixed_ends(cookie, name, "entry4 cookie truncated"@);
}

proof fn lemma_entries_step(item: Seq<u8>, rest: Seq<u8>, seen: nat)
    requires
        entry_leads(item, rest),
        rest.len() <= item.len(),
        seen < 65536,
    ensures
        entries(be32(1) + item, seen) == entries(rest, seen + 1),
{
    reveal(entry_leads);
    lemma_word_of_be32(1, item);
}

proof fn lemma_entries_stop(eof: bool, seen: nat, tail: Seq<u8>)
    ensures
        entries(be32(0) + (bool32(eof) + tail), seen) == Ok::<Seq<u8>, ErrorView>(tail),
{
    lemma_word_of_be32(0, bool32(eof) + tail);
    lemma_fixed_ends(bool32(eof), tail, "dirlist4 eof truncated"@);
}

proof fn lemma_entries_go_on(item: WrittenEntry, others: Seq<u8>, behind: Seq<u8>, seen: nat)
    requires
        item.1.len() <= u32::MAX,
        item.2.len() <= 16,
        item.3.len() <= u32::MAX,
        seen < 65536,
    ensures
        entries(
            be32(1) + (be64(item.0) + (opaque(item.1) + (bitmap4(item.2) + (opaque(item.3)
                + others)))) + behind,
            seen,
        ) == entries(others + behind, seen + 1),
{
    let values = opaque(item.3) + others;
    let attrs = bitmap4(item.2) + values;
    let name = opaque(item.1) + attrs;
    lemma_regroup(be32(1), be64(item.0) + name, behind);
    lemma_regroup(be64(item.0), name, behind);
    lemma_regroup(opaque(item.1), attrs, behind);
    lemma_regroup(bitmap4(item.2), values, behind);
    lemma_regroup(opaque(item.3), others, behind);
    lemma_counted_leads(item.1, attrs + behind);
    lemma_bitmap_leads(item.2, values + behind);
    lemma_counted_leads(item.3, others + behind);
    lemma_entry_leads(
        be64(item.0),
        name + behind,
        attrs + behind,
        values + behind,
        others + behind,
    );
    lemma_entries_step(be64(item.0) + (name + behind), others + behind, seen);
}

proof fn lemma_entries_end(list: Seq<WrittenEntry>, eof: bool, seen: nat, tail: Seq<u8>)
    requires
        seen + list.len() <= 65536,
        forall|i: int|
            0 <= i < list.len() ==> {
                &&& (#[trigger] list[i]).1.len() <= u32::MAX
                &&& list[i].2.len() <= 16
                &&& list[i].3.len() <= u32::MAX
            },
    ensures
        entries(written_entries(list) + (bool32(eof) + tail), seen) == Ok::<Seq<u8>, ErrorView>(
            tail,
        ),
    decreases list.len(),
{
    let behind = bool32(eof) + tail;
    if list.len() == 0 {
        lemma_entries_stop(eof, seen, tail);
    } else {
        lemma_entries_go_on(list[0], written_entries(list.drop_first()), behind, seen);
        lemma_entries_end(list.drop_first(), eof, seen + 1, tail);
    }
}

/// READDIR returns a verifier, the entries and whether the directory ends with them.
pub proof fn law_readdir_result_is_whole(verifier: Seq<u8>, list: Seq<WrittenEntry>, eof: bool)
    requires
        verifier.len() == 8,
        list.len() <= 65536,
        forall|i: int|
            0 <= i < list.len() ==> {
                &&& (#[trigger] list[i]).1.len() <= u32::MAX
                &&& list[i].2.len() <= 16
                &&& list[i].3.len() <= u32::MAX
            },
    ensures
        whole((26, 0, verifier + written_entries(list) + bool32(eof))),
{
    broadcast use crate::wire::group_front;

    let data = verifier + written_entries(list) + bool32(eof);
    assert forall|tail: Seq<u8>| #[trigger] success_result(OpNum::ReadDir, data + tail) == Ok::<
        Seq<u8>,
        ErrorView,
    >(tail) by {
        lemma_regroup(verifier + written_entries(list), bool32(eof), tail);
        lemma_regroup(verifier, written_entries(list), bool32(eof) + tail);
        lemma_entries_end(list, eof, 0, tail);
    }
    lemma_success_is_whole(OpNum::ReadDir, data);
}

/// A failed operation returns its status alone, unless it is SETATTR or a denied LOCK.
pub proof fn law_failures_are_bare(number: u32, status: u32)
    requires
        status != 0,
        status_word(status) is Ok,
        number != 34,
        number != 12 || status != 10010,
    ensures
        whole((number, status, Seq::empty())),
{
    reveal(op_result);
    assert forall|tail: Seq<u8>| Seq::<u8>::empty() + tail == tail by {
        assert(Seq::<u8>::empty() + tail =~= tail);
    }
}

/// A failed SETATTR returns the bitmap of what it set before it failed.
pub proof fn law_failed_setattr_is_whole(status: u32, mask: Seq<u32>)
    requires
        status != 0,
        status_word(status) is Ok,
        mask.len() <= 16,
    ensures
        whole((34, status, bitmap4(mask))),
{
    broadcast use crate::wire::group_front;

    reveal(op_result);
}

/// A denied LOCK returns the lock in the way: its range, its type and its owner.
pub proof fn law_denied_lock_is_whole(
    offset: u64,
    length: u64,
    lock_type: u32,
    client_id: u64,
    owner: Seq<u8>,
)
    requires
        owner.len() <= u32::MAX,
    ensures
        whole(
            (
                12,
                10010,
                be64(offset) + be64(length) + be32(lock_type) + be64(client_id) + opaque(owner),
            ),
        ),
{
    broadcast use crate::wire::group_front;

    reveal(op_result);
    crate::nfs4::status::lemma_status_of_code(Nfs4ErrorCode::NFS4ERR_DENIED);
    let data = be64(offset) + be64(length) + be32(lock_type) + be64(client_id) + opaque(owner);
    assert forall|tail: Seq<u8>| #[trigger] op_result(12, 10010, data + tail) == Ok::<
        Seq<u8>,
        ErrorView,
    >(tail) by {
        lemma_regroup(
            be64(offset) + be64(length) + be32(lock_type) + be64(client_id),
            opaque(owner),
            tail,
        );
        lemma_regroup(
            be64(offset) + be64(length) + be32(lock_type),
            be64(client_id),
            opaque(owner) + tail,
        );
        lemma_regroup(
            be64(offset) + be64(length),
            be32(lock_type),
            be64(client_id) + (opaque(owner) + tail),
        );
        lemma_regroup(
            be64(offset),
            be64(length),
            be32(lock_type) + (be64(client_id) + (opaque(owner) + tail)),
        );
    }
}

} // verus!
