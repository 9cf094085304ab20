//! What a server answers to the requests of an NFSv4.0 mount, as it writes it, and what the
//! mount reads from it.

use vstd::prelude::*;
use vstd::utf8::encode_utf8;

use crate::error::ErrorView;
use crate::nfs4::compound::{
    fixed_item, lookup_heads, navigation, ok_status, op_head, opaque_item, reply_head, word_item,
};
use crate::nfs4::status::{lemma_status_of_code, status_code, Nfs4ErrorCode};
use crate::nfs40::compound::{
    access_response, ace_item, attrsset, bitmap_item, commit_response, create_response,
    delegation_item, denied_range, fh_and_attrs, getfh_item, lock_response,
    lockt_response, lookup_response, only_op, open_response, opened, putfh_and, read_response,
    readlink_response, saved_and, setattr_response, setclientid_response, single_response,
    space_limit_item, stateid_item, stateid_response, succeeded_before_failure, write_response,
};
use crate::wire::lemma_regroup;
use crate::xdr::{be32, be64, bitmap4, bool32, opaque};

verus! {

/// A reply to a COMPOUND: its status, the tag, how many operations it answers, and what
/// follows.
pub open spec fn reply(status: u32, tag: Seq<u8>, count: u32, rest: Seq<u8>) -> Seq<u8> {
    be32(status) + (opaque(tag) + (be32(count) + rest))
}

/// The result of an operation: its number, its status and what follows.
pub open spec fn result(opcode: u32, status: u32, rest: Seq<u8>) -> Seq<u8> {
    be32(opcode) + (be32(status) + rest)
}

/// A reply to a request of two operations, the first of which is PUTFH, that succeeded.
#[verifier::opaque]
pub open spec fn reply_on_file(tag: Seq<u8>, opcode: u32, rest: Seq<u8>) -> Seq<u8> {
    reply(0, tag, 2, result(22, 0, result(opcode, 0, rest)))
}

proof fn lemma_word_item(value: u32, rest: Seq<u8>, what: Seq<char>)
    ensures
        word_item(be32(value) + rest, what) == Ok::<(u32, Seq<u8>), ErrorView>((value, rest)),
{
    broadcast use crate::wire::group_front;

}

proof fn lemma_opaque_item(data: Seq<u8>, rest: Seq<u8>, what: Seq<char>)
    requires
        data.len() <= u32::MAX,
    ensures
        opaque_item(opaque(data) + rest, what) == Ok::<(Seq<u8>, Seq<u8>), ErrorView>(
            (data, rest),
        ),
{
    broadcast use crate::wire::group_front;

}

proof fn lemma_fixed_item(data: Seq<u8>, rest: Seq<u8>, text: Seq<char>)
    ensures
        fixed_item(data + rest, data.len(), text) == Ok::<(Seq<u8>, Seq<u8>), ErrorView>(
            (data, rest),
        ),
{
    broadcast use crate::wire::group_front;

}

proof fn lemma_bitmap_item(mask: Seq<u32>, rest: Seq<u8>, what: Seq<char>)
    requires
        mask.len() <= u32::MAX,
    ensures
        bitmap_item(bitmap4(mask) + rest, what) == Ok::<((), Seq<u8>), ErrorView>(((), rest)),
{
    broadcast use crate::wire::group_front;

}

/// The status zero, and no other, lets a reply go on; any other that the protocol knows is
/// reported as it is.
pub proof fn law_status_decides(status: Nfs4ErrorCode, rest: Seq<u8>, what: Seq<char>)
    ensures
        ok_status(be32(0) + rest, what) == Ok::<((), Seq<u8>), ErrorView>(((), rest)),
        status_code(status) != 0 ==> ok_status(be32(status_code(status)) + rest, what) == Err::<
            ((), Seq<u8>),
            ErrorView,
        >(ErrorView::Nfs4(status)),
{
    lemma_word_item(0, rest, what);
    lemma_word_item(status_code(status), rest, what);
    lemma_status_of_code(status);
    lemma_status_of_code(Nfs4ErrorCode::NFS4_OK);
}

proof fn lemma_reply_head(tag: Seq<u8>, count: u32, rest: Seq<u8>)
    requires
        tag.len() <= u32::MAX,
    ensures
        reply_head(reply(0, tag, count, rest)) == Ok::<(u32, Seq<u8>), ErrorView>((count, rest)),
{
    let after_tag = be32(count) + rest;
    law_status_decides(
        Nfs4ErrorCode::NFS4_OK,
        opaque(tag) + after_tag,
        "COMPOUND status"@,
    );
    lemma_opaque_item(tag, after_tag, "COMPOUND tag"@);
    lemma_word_item(count, rest, "COMPOUND result count"@);
}

proof fn lemma_op_head(opcode: u32, name: Seq<char>, rest: Seq<u8>)
    ensures
        op_head(result(opcode, 0, rest), opcode, name) == Ok::<((), Seq<u8>), ErrorView>(
            ((), rest),
        ),
{
    lemma_word_item(opcode, be32(0) + rest, name + " opcode"@);
    law_status_decides(Nfs4ErrorCode::NFS4_OK, rest, name + " status"@);
}

/// A reply that failed reports its status, whatever it holds besides.
pub proof fn law_failed_reply_reports_its_status(
    status: Nfs4ErrorCode,
    rest: Seq<u8>,
    opcode: u32,
    name: Seq<char>,
)
    requires
        status_code(status) != 0,
    ensures
        ({
            let s = be32(status_code(status)) + rest;
            let error = ErrorView::Nfs4(status);
            &&& putfh_and(s, opcode, name) == Err::<((), Seq<u8>), ErrorView>(error)
            &&& saved_and(s, opcode, name) == Err::<((), Seq<u8>), ErrorView>(error)
            &&& only_op(s, opcode, name) == Err::<((), Seq<u8>), ErrorView>(error)
            &&& single_response(s, opcode, name) == Err::<((), Seq<u8>), ErrorView>(error)
            &&& open_response(s) == Err::<(Seq<u8>, bool, Seq<u8>), ErrorView>(error)
            &&& lookup_response(s) == Err::<(Seq<u8>, Seq<u8>), ErrorView>(error)
            &&& create_response(s) == Err::<(Seq<u8>, Seq<u8>), ErrorView>(error)
        }),
{
    law_status_decides(status, rest, "COMPOUND status"@);
}

/// An operation that failed reports its status, and one that is not the expected one is
/// refused.
pub proof fn law_failed_operation_reports_its_status(
    opcode: u32,
    other: u32,
    status: Nfs4ErrorCode,
    name: Seq<char>,
    rest: Seq<u8>,
)
    ensures
        status_code(status) != 0 ==> op_head(
            result(opcode, status_code(status), rest),
            opcode,
            name,
        ) == Err::<((), Seq<u8>), ErrorView>(ErrorView::Nfs4(status)),
        other != opcode ==> op_head(result(other, 0, rest), opcode, name) is Err,
{
    lemma_word_item(opcode, be32(status_code(status)) + rest, name + " opcode"@);
    lemma_word_item(other, be32(0) + rest, name + " opcode"@);
    law_status_decides(status, rest, name + " status"@);
}

/// A reply to PUTFH and one operation leads to what that operation returned; a reply that
/// answers another number of operations is refused.
pub proof fn law_reply_on_file_is_read(
    tag: Seq<u8>,
    opcode: u32,
    name: Seq<char>,
    count: u32,
    rest: Seq<u8>,
)
    requires
        tag.len() <= u32::MAX,
    ensures
        putfh_and(reply_on_file(tag, opcode, rest), opcode, name) == Ok::<
            ((), Seq<u8>),
            ErrorView,
        >(((), rest)),
        count != 2 ==> putfh_and(reply(0, tag, count, rest), opcode, name) is Err,
{
    reveal(reply_on_file);
    lemma_reply_head(tag, 2, result(22, 0, result(opcode, 0, rest)));
    lemma_reply_head(tag, count, rest);
    lemma_op_head(22, "PUTFH"@, result(opcode, 0, rest));
    lemma_op_head(opcode, name, rest);
}

/// A reply to one operation leads to what it returned.
pub proof fn law_reply_to_one_operation_is_read(
    tag: Seq<u8>,
    opcode: u32,
    name: Seq<char>,
    count: u32,
    rest: Seq<u8>,
)
    requires
        tag.len() <= u32::MAX,
    ensures
        single_response(reply(0, tag, 1, result(opcode, 0, rest)), opcode, name) == Ok::<
            ((), Seq<u8>),
            ErrorView,
        >(((), rest)),
        only_op(reply(0, tag, 1, result(opcode, 0, rest)), opcode, name) == Ok::<
            ((), Seq<u8>),
            ErrorView,
        >(((), rest)),
        count != 1 ==> single_response(reply(0, tag, count, rest), opcode, name) is Err,
        count != 1 ==> only_op(reply(0, tag, count, rest), opcode, name) is Err,
{
    lemma_reply_head(tag, 1, result(opcode, 0, rest));
    lemma_reply_head(tag, count, rest);
    lemma_op_head(opcode, name, rest);
    lemma_word_item(opcode, be32(0) + rest, name + " opcode"@);
    law_status_decides(Nfs4ErrorCode::NFS4_OK, rest, name + " status"@);
}

/// A reply to PUTFH, SAVEFH, PUTFH and one operation leads to what that operation returned.
pub proof fn law_reply_on_two_files_is_read(
    tag: Seq<u8>,
    opcode: u32,
    name: Seq<char>,
    rest: Seq<u8>,
)
    requires
        tag.len() <= u32::MAX,
    ensures
        saved_and(
            reply(
                0,
                tag,
                4,
                result(22, 0, result(32, 0, result(22, 0, result(opcode, 0, rest)))),
            ),
            opcode,
            name,
        ) == Ok::<((), Seq<u8>), ErrorView>(((), rest)),
{
    let last = result(opcode, 0, rest);
    let target = result(22, 0, last);
    let saved = result(32, 0, target);
    lemma_reply_head(tag, 4, result(22, 0, saved));
    lemma_op_head(22, "PUTFH"@, saved);
    lemma_op_head(32, "SAVEFH"@, target);
    lemma_op_head(22, "PUTFH"@, last);
    lemma_op_head(opcode, name, rest);
}

/// SETCLIENTID gives the client its ID and the verifier with which to confirm it.
pub proof fn law_setclientid_is_read_back(
    tag: Seq<u8>,
    client_id: u64,
    verifier: Seq<u8>,
    tail: Seq<u8>,
)
    requires
        tag.len() <= u32::MAX,
        verifier.len() == 8,
    ensures
        setclientid_response(
            reply(0, tag, 1, result(35, 0, be64(client_id) + (verifier + tail))),
        ) == Ok::<(u64, Seq<u8>), ErrorView>((client_id, verifier)),
{
    let s = be64(client_id) + (verifier + tail);
    law_reply_to_one_operation_is_read(tag, 35, "SETCLIENTID"@, 1, s);
    crate::xdr::lemma_hyper_of_be64(client_id, verifier + tail);
    assert(s.subrange(8, 16) =~= verifier);
}

/// ACCESS tells which rights the server can judge and which it grants; a right that is granted
/// without being judged is refused.
pub proof fn law_access_is_read_back(tag: Seq<u8>, supported: u32, granted: u32, tail: Seq<u8>)
    requires
        tag.len() <= u32::MAX,
    ensures
        ({
            let s = reply_on_file(tag, 3, be32(supported) + (be32(granted) + tail));
            &&& (granted & supported == granted ==> access_response(s) == Ok::<
                (u32, u32),
                ErrorView,
            >((supported, granted)))
            &&& (granted & supported != granted ==> access_response(s) is Err)
        }),
{
    law_reply_on_file_is_read(
        tag,
        3,
        "ACCESS"@,
        2,
        be32(supported) + (be32(granted) + tail),
    );
    lemma_word_item(supported, be32(granted) + tail, "ACCESS supported"@);
    lemma_word_item(granted, tail, "ACCESS granted"@);
    assert((granted & supported == granted) == (granted & !supported == 0)) by (bit_vector);
}

/// READ gives the data that the server sent, and no more.
pub proof fn law_read_is_read_back(tag: Seq<u8>, eof: bool, data: Seq<u8>, tail: Seq<u8>)
    requires
        tag.len() <= u32::MAX,
        data.len() <= u32::MAX,
    ensures
        read_response(reply_on_file(tag, 25, bool32(eof) + (opaque(data) + tail))) == Ok::<
            (Seq<u8>, Seq<u8>),
            ErrorView,
        >((data, tail)),
{
    law_reply_on_file_is_read(tag, 25, "READ"@, 2, bool32(eof) + (opaque(data) + tail));
    lemma_word_item(
        if eof {
            1
        } else {
            0
        },
        opaque(data) + tail,
        "READ eof"@,
    );
    lemma_opaque_item(data, tail, "READ data"@);
}

/// WRITE tells how much was written, how firmly, and the verifier of the server.
pub proof fn law_write_is_read_back(
    tag: Seq<u8>,
    count: u32,
    committed: u32,
    verifier: Seq<u8>,
    tail: Seq<u8>,
)
    requires
        tag.len() <= u32::MAX,
        verifier.len() == 8,
    ensures
        ({
            let s = reply_on_file(tag, 38, be32(count) + (be32(committed) + (verifier + tail)));
            &&& (committed <= 2 ==> write_response(s) == Ok::<(u32, u32, Seq<u8>), ErrorView>(
                (count, committed, verifier),
            ))
            &&& (committed > 2 ==> write_response(s) is Err)
        }),
{
    law_reply_on_file_is_read(
        tag,
        38,
        "WRITE"@,
        2,
        be32(count) + (be32(committed) + (verifier + tail)),
    );
    lemma_word_item(count, be32(committed) + (verifier + tail), "WRITE count"@);
    lemma_word_item(committed, verifier + tail, "WRITE committed"@);
    lemma_fixed_item(verifier, tail, "WRITE verifier truncated"@);
}

/// COMMIT gives the verifier of the server.
pub proof fn law_commit_is_read_back(tag: Seq<u8>, verifier: Seq<u8>, tail: Seq<u8>)
    requires
        tag.len() <= u32::MAX,
        verifier.len() == 8,
    ensures
        commit_response(reply_on_file(tag, 5, verifier + tail)) == Ok::<Seq<u8>, ErrorView>(
            verifier,
        ),
{
    law_reply_on_file_is_read(tag, 5, "COMMIT"@, 2, verifier + tail);
    lemma_fixed_item(verifier, tail, "COMMIT verifier truncated"@);
}

/// CLOSE, OPEN_CONFIRM and the like give the stateid that the server sent.
pub proof fn law_stateid_is_read_back(
    tag: Seq<u8>,
    opcode: u32,
    name: Seq<char>,
    stateid: Seq<u8>,
    tail: Seq<u8>,
)
    requires
        tag.len() <= u32::MAX,
        stateid.len() == 16,
    ensures
        stateid_response(reply_on_file(tag, opcode, stateid + tail), opcode, name) == Ok::<
            Seq<u8>,
            ErrorView,
        >(stateid),
        lock_response(reply_on_file(tag, opcode, stateid + tail), opcode, name) == Ok::<
            Seq<u8>,
            ErrorView,
        >(stateid),
{
    reveal(reply_on_file);
    law_reply_on_file_is_read(tag, opcode, name, 2, stateid + tail);
    lemma_fixed_item(stateid, tail, name + " stateid truncated"@);
    lemma_word_item(
        0,
        opaque(tag) + (be32(2) + result(22, 0, result(opcode, 0, stateid + tail))),
        "COMPOUND status"@,
    );
}

/// A lock that is denied is reported with the lock in the way: its range, its type and its
/// owner.
pub proof fn law_denied_lock_is_reported(
    tag: Seq<u8>,
    opcode: u32,
    name: Seq<char>,
    offset: u64,
    length: u64,
    lock_type: u32,
    client_id: u64,
    owner: Seq<u8>,
    tail: Seq<u8>,
)
    requires
        tag.len() <= u32::MAX,
        owner.len() <= 1024,
    ensures
        ({
            let s = reply(
                10010,
                tag,
                2,
                result(
                    22,
                    0,
                    result(
                        opcode,
                        10010,
                        be64(offset) + (be64(length) + (be32(lock_type) + (be64(client_id) + (
                        opaque(owner) + tail)))),
                    ),
                ),
            );
            let error = ErrorView::LockDenied { lock_type, offset, length, owner };
            &&& lock_response(s, opcode, name) == Err::<Seq<u8>, ErrorView>(error)
            &&& (opcode == 13 && name == "LOCKT"@ ==> lockt_response(s) == Err::<
                ((), Seq<u8>),
                ErrorView,
            >(error))
        }),
{
    let body = be64(offset) + (be64(length) + (be32(lock_type) + (be64(client_id) + (opaque(owner)
        + tail))));
    let ops = result(22, 0, result(opcode, 10010, body));
    lemma_word_item(10010, opaque(tag) + (be32(2) + ops), "COMPOUND status"@);
    lemma_opaque_item(tag, be32(2) + ops, "COMPOUND tag"@);
    lemma_word_item(2, ops, "COMPOUND result count"@);
    lemma_op_head(22, "PUTFH"@, result(opcode, 10010, body));
    lemma_word_item(opcode, be32(10010) + body, name + " opcode"@);
    lemma_word_item(10010, body, name + " status"@);
    lemma_denied_range(offset, length, lock_type, client_id, owner, tail, name);
}

proof fn lemma_denied_range(
    offset: u64,
    length: u64,
    lock_type: u32,
    client_id: u64,
    owner: Seq<u8>,
    tail: Seq<u8>,
    name: Seq<char>,
)
    requires
        owner.len() <= 1024,
    ensures
        denied_range(
            be64(offset) + (be64(length) + (be32(lock_type) + (be64(client_id) + (opaque(owner)
                + tail)))),
            name,
        ) == (ErrorView::LockDenied { lock_type, offset, length, owner }),
{
    let rest = opaque(owner) + tail;
    let s = be64(offset) + (be64(length) + (be32(lock_type) + (be64(client_id) + rest)));
    lemma_opaque_item(owner, tail, name + " denied owner"@);
    assert({
        &&& s.len() >= 28
        &&& s.skip(28) == rest
        &&& crate::xdr::hyper(s) == offset
        &&& crate::xdr::hyper(s.skip(8)) == length
        &&& crate::xdr::word(s.skip(16)) == lock_type
    }) by {
        broadcast use crate::wire::group_front;

    }
}

/// READLINK gives the text of the link.
pub proof fn law_readlink_is_read_back(tag: Seq<u8>, link: Seq<char>, tail: Seq<u8>)
    requires
        tag.len() <= u32::MAX,
        encode_utf8(link).len() <= u32::MAX,
    ensures
        readlink_response(reply_on_file(tag, 27, opaque(encode_utf8(link)) + tail)) == Ok::<
            Seq<char>,
            ErrorView,
        >(link),
{
    broadcast use {vstd::utf8::encode_utf8_valid_utf8, vstd::utf8::encode_utf8_decode_utf8};

    law_reply_on_file_is_read(tag, 27, "READLINK"@, 2, opaque(encode_utf8(link)) + tail);
    lemma_opaque_item(encode_utf8(link), tail, "READLINK target"@);
}

proof fn lemma_fh_and_attrs(fh: Seq<u8>, attrs: Seq<u8>)
    requires
        fh.len() <= u32::MAX,
    ensures
        fh_and_attrs(result(10, 0, opaque(fh) + result(9, 0, attrs))) == Ok::<
            (Seq<u8>, Seq<u8>),
            ErrorView,
        >((fh, attrs)),
{
    lemma_op_head(10, "GETFH"@, opaque(fh) + result(9, 0, attrs));
    lemma_opaque_item(fh, result(9, 0, attrs), "GETFH filehandle"@);
    lemma_op_head(9, "GETATTR"@, attrs);
}

/// A lookup gives the handle of what was found, and its attributes.
pub proof fn law_lookup_is_read_back(tag: Seq<u8>, fh: Seq<u8>, attrs: Seq<u8>)
    requires
        tag.len() <= u32::MAX,
        fh.len() <= u32::MAX,
    ensures
        lookup_response(
            reply(
                0,
                tag,
                4,
                result(22, 0, result(15, 0, result(10, 0, opaque(fh) + result(9, 0, attrs)))),
            ),
        ) == Ok::<(Seq<u8>, Seq<u8>), ErrorView>((fh, attrs)),
{
    let found = result(10, 0, opaque(fh) + result(9, 0, attrs));
    lemma_reply_head(tag, 4, result(22, 0, result(15, 0, found)));
    lemma_op_head(22, "PUTFH"@, result(15, 0, found));
    lemma_op_head(15, "LOOKUP"@, found);
    lemma_fh_and_attrs(fh, attrs);
}

/// CREATE gives the handle of what was made, and its attributes, behind how the directory
/// changed and what was set.
pub proof fn law_create_is_read_back(
    tag: Seq<u8>,
    change: Seq<u8>,
    mask: Seq<u32>,
    fh: Seq<u8>,
    attrs: Seq<u8>,
)
    requires
        tag.len() <= u32::MAX,
        change.len() == 20,
        mask.len() <= u32::MAX,
        fh.len() <= u32::MAX,
    ensures
        create_response(
            reply(
                0,
                tag,
                4,
                result(
                    22,
                    0,
                    result(
                        6,
                        0,
                        change + (bitmap4(mask) + result(
                            10,
                            0,
                            opaque(fh) + result(9, 0, attrs),
                        )),
                    ),
                ),
            ),
        ) == Ok::<(Seq<u8>, Seq<u8>), ErrorView>((fh, attrs)),
{
    let made = result(10, 0, opaque(fh) + result(9, 0, attrs));
    let body = change + (bitmap4(mask) + made);
    lemma_reply_head(tag, 4, result(22, 0, result(6, 0, body)));
    lemma_op_head(22, "PUTFH"@, result(6, 0, body));
    lemma_op_head(6, "CREATE"@, body);
    lemma_fixed_item(change, bitmap4(mask) + made, "CREATE change_info truncated"@);
    lemma_bitmap_item(mask, made, "CREATE attrset"@);
    lemma_fh_and_attrs(fh, attrs);
}

/// What OPEN returns, up to the delegation.
pub open spec fn open_result(
    stateid: Seq<u8>,
    change: Seq<u8>,
    flags: u32,
    mask: Seq<u32>,
    rest: Seq<u8>,
) -> Seq<u8> {
    stateid + (change + (be32(flags) + (bitmap4(mask) + rest)))
}

/// An access control entry in a delegation.
pub open spec fn written_ace(ace: (u32, u32, u32, Seq<u8>), rest: Seq<u8>) -> Seq<u8> {
    be32(ace.0) + (be32(ace.1) + (be32(ace.2) + (opaque(ace.3) + rest)))
}

proof fn lemma_ace_item(ace: (u32, u32, u32, Seq<u8>), rest: Seq<u8>)
    requires
        ace.3.len() <= u32::MAX,
    ensures
        ace_item(written_ace(ace, rest)) == Ok::<((), Seq<u8>), ErrorView>(((), rest)),
{
    let who = opaque(ace.3) + rest;
    lemma_word_item(ace.0, be32(ace.1) + (be32(ace.2) + who), "ACE type"@);
    lemma_word_item(ace.1, be32(ace.2) + who, "ACE flags"@);
    lemma_word_item(ace.2, who, "ACE mask"@);
    lemma_opaque_item(ace.3, rest, "ACE who"@);
}

/// A delegation is walked over to its end: none, one to read, and one to write with a bound on
/// the size of the file.
pub proof fn law_delegation_is_walked_over(
    stateid: Seq<u8>,
    recalled: bool,
    size: u64,
    ace: (u32, u32, u32, Seq<u8>),
    rest: Seq<u8>,
)
    requires
        stateid.len() == 16,
        ace.3.len() <= u32::MAX,
    ensures
        delegation_item(be32(0) + rest) == Ok::<((), Seq<u8>), ErrorView>(((), rest)),
        delegation_item(be32(1) + (stateid + (bool32(recalled) + written_ace(ace, rest)))) == Ok::<
            ((), Seq<u8>),
            ErrorView,
        >(((), rest)),
        delegation_item(
            be32(2) + (stateid + (bool32(recalled) + (be32(1) + (be64(size) + written_ace(
                ace,
                rest,
            ))))),
        ) == Ok::<((), Seq<u8>), ErrorView>(((), rest)),
{
    let entry = written_ace(ace, rest);
    lemma_ace_item(ace, rest);
    lemma_word_item(0, rest, "delegation type"@);
    lemma_read_delegation(stateid, recalled, entry, rest);
    lemma_write_delegation(stateid, recalled, size, entry, rest);
}

proof fn lemma_read_delegation(stateid: Seq<u8>, recalled: bool, entry: Seq<u8>, rest: Seq<u8>)
    requires
        stateid.len() == 16,
        ace_item(entry) == Ok::<((), Seq<u8>), ErrorView>(((), rest)),
    ensures
        delegation_item(be32(1) + (stateid + (bool32(recalled) + entry))) == Ok::<
            ((), Seq<u8>),
            ErrorView,
        >(((), rest)),
{
    let flag: u32 = if recalled {
        1
    } else {
        0
    };
    lemma_word_item(1, stateid + (bool32(recalled) + entry), "delegation type"@);
    lemma_fixed_item(stateid, bool32(recalled) + entry, "read delegation"@ + " stateid truncated"@);
    lemma_word_item(flag, entry, "recall"@);
}

proof fn lemma_size_limit(size: u64, entry: Seq<u8>)
    ensures
        space_limit_item(be32(1) + (be64(size) + entry)) == Ok::<((), Seq<u8>), ErrorView>(
            ((), entry),
        ),
{
    lemma_word_item(1, be64(size) + entry, "space limit"@);
    assert((be64(size) + entry).skip(8) =~= entry);
}

proof fn lemma_write_delegation(
    stateid: Seq<u8>,
    recalled: bool,
    size: u64,
    entry: Seq<u8>,
    rest: Seq<u8>,
)
    requires
        stateid.len() == 16,
        ace_item(entry) == Ok::<((), Seq<u8>), ErrorView>(((), rest)),
    ensures
        delegation_item(
            be32(2) + (stateid + (bool32(recalled) + (be32(1) + (be64(size) + entry)))),
        ) == Ok::<((), Seq<u8>), ErrorView>(((), rest)),
{
    let limit = be32(1) + (be64(size) + entry);
    lemma_size_limit(size, entry);
    lemma_limited_delegation(stateid, recalled, limit, entry, rest);
}

proof fn lemma_limited_delegation(
    stateid: Seq<u8>,
    recalled: bool,
    limit: Seq<u8>,
    entry: Seq<u8>,
    rest: Seq<u8>,
)
    requires
        stateid.len() == 16,
        space_limit_item(limit) == Ok::<((), Seq<u8>), ErrorView>(((), entry)),
        ace_item(entry) == Ok::<((), Seq<u8>), ErrorView>(((), rest)),
    ensures
        delegation_item(be32(2) + (stateid + (bool32(recalled) + limit))) == Ok::<
            ((), Seq<u8>),
            ErrorView,
        >(((), rest)),
{
    let flag: u32 = if recalled {
        1
    } else {
        0
    };
    lemma_word_item(2, stateid + (bool32(recalled) + limit), "delegation type"@);
    lemma_fixed_item(stateid, bool32(recalled) + limit, "write delegation"@ + " stateid truncated"@);
    lemma_word_item(flag, limit, "recall"@);
}

/// OPEN gives the stateid, whether it has to be confirmed, and the handle of the file, whatever
/// delegation comes with it.
pub proof fn law_open_is_read_back(
    tag: Seq<u8>,
    stateid: Seq<u8>,
    change: Seq<u8>,
    flags: u32,
    mask: Seq<u32>,
    delegation: Seq<u8>,
    fh: Seq<u8>,
    tail: Seq<u8>,
)
    requires
        tag.len() <= u32::MAX,
        stateid.len() == 16,
        change.len() == 20,
        mask.len() <= u32::MAX,
        fh.len() <= u32::MAX,
        delegation_item(delegation + result(10, 0, opaque(fh) + tail)) == Ok::<
            ((), Seq<u8>),
            ErrorView,
        >(((), result(10, 0, opaque(fh) + tail))),
    ensures
        open_response(
            reply(
                0,
                tag,
                3,
                result(
                    22,
                    0,
                    result(
                        18,
                        0,
                        open_result(
                            stateid,
                            change,
                            flags,
                            mask,
                            delegation + result(10, 0, opaque(fh) + tail),
                        ),
                    ),
                ),
            ),
        ) == Ok::<(Seq<u8>, bool, Seq<u8>), ErrorView>((stateid, flags / 2 % 2 == 1, fh)),
{
    let handle = result(10, 0, opaque(fh) + tail);
    let granted = delegation + handle;
    let body = open_result(stateid, change, flags, mask, granted);
    lemma_reply_head(tag, 3, result(22, 0, result(18, 0, body)));
    lemma_op_head(22, "PUTFH"@, result(18, 0, body));
    lemma_op_head(18, "OPEN"@, body);
    lemma_opened(stateid, change, flags, mask, granted, fh, tail);
}

#[verifier::rlimit(40)]
proof fn lemma_opened(
    stateid: Seq<u8>,
    change: Seq<u8>,
    flags: u32,
    mask: Seq<u32>,
    granted: Seq<u8>,
    fh: Seq<u8>,
    tail: Seq<u8>,
)
    requires
        stateid.len() == 16,
        change.len() == 20,
        mask.len() <= u32::MAX,
        fh.len() <= u32::MAX,
        delegation_item(granted) == Ok::<((), Seq<u8>), ErrorView>(
            ((), result(10, 0, opaque(fh) + tail)),
        ),
    ensures
        opened(open_result(stateid, change, flags, mask, granted)) == Ok::<
            (Seq<u8>, bool, Seq<u8>),
            ErrorView,
        >((stateid, flags / 2 % 2 == 1, fh)),
{
    let set = bitmap4(mask) + granted;
    let flagged = be32(flags) + set;
    let rest = change + flagged;
    lemma_fixed_item(stateid, rest, "OPEN"@ + " stateid truncated"@);
    lemma_fixed_item(change, flagged, "OPEN change_info truncated"@);
    lemma_word_item(flags, set, "OPEN result flags"@);
    lemma_bitmap_item(mask, granted, "OPEN attrset"@);
    lemma_handle(fh, tail);
    assert((flags & 2 != 0) == (flags / 2 % 2 == 1)) by (bit_vector);
    lemma_opened_of(
        (stateid + rest, rest, flagged, set, granted, result(10, 0, opaque(fh) + tail), tail),
        stateid,
        change,
        flags,
        fh,
    );
}

proof fn lemma_handle(fh: Seq<u8>, tail: Seq<u8>)
    requires
        fh.len() <= u32::MAX,
    ensures
        getfh_item(result(10, 0, opaque(fh) + tail)) == Ok::<(Seq<u8>, Seq<u8>), ErrorView>(
            (fh, tail),
        ),
{
    lemma_op_head(10, "GETFH"@, opaque(fh) + tail);
    lemma_opaque_item(fh, tail, "GETFH filehandle"@);
}

proof fn lemma_opened_of(
    s: (Seq<u8>, Seq<u8>, Seq<u8>, Seq<u8>, Seq<u8>, Seq<u8>, Seq<u8>),
    stateid: Seq<u8>,
    change: Seq<u8>,
    flags: u32,
    fh: Seq<u8>,
)
    requires
        stateid_item(s.0, "OPEN"@) == Ok::<(Seq<u8>, Seq<u8>), ErrorView>((stateid, s.1)),
        fixed_item(s.1, 20, "OPEN change_info truncated"@) == Ok::<(Seq<u8>, Seq<u8>), ErrorView>(
            (change, s.2),
        ),
        word_item(s.2, "OPEN result flags"@) == Ok::<(u32, Seq<u8>), ErrorView>((flags, s.3)),
        bitmap_item(s.3, "OPEN attrset"@) == Ok::<((), Seq<u8>), ErrorView>(((), s.4)),
        delegation_item(s.4) == Ok::<((), Seq<u8>), ErrorView>(((), s.5)),
        getfh_item(s.5) == Ok::<(Seq<u8>, Seq<u8>), ErrorView>((fh, s.6)),
    ensures
        opened(s.0) == Ok::<(Seq<u8>, bool, Seq<u8>), ErrorView>((stateid, flags & 2 != 0, fh)),
{
}

/// SETATTR succeeds where nothing was set that was not asked for, and only there.
pub proof fn law_setattr_is_read_back(
    tag: Seq<u8>,
    mask: Seq<u32>,
    requested: Seq<u32>,
    tail: Seq<u8>,
)
    requires
        tag.len() <= u32::MAX,
        mask.len() <= u32::MAX,
    ensures
        setattr_response(reply_on_file(tag, 34, bitmap4(mask) + tail), requested) is Ok
            <==> forall|i: int|
            0 <= i < mask.len() ==> #[trigger] mask[i] & (if i < requested.len() {
                requested[i]
            } else {
                0u32
            }) == mask[i],
{
    let body = bitmap4(mask) + tail;
    let list = crate::xdr::words(mask) + tail;
    law_reply_on_file_is_read(tag, 34, "SETATTR"@, 2, body);
    lemma_regroup(be32(mask.len() as u32), crate::xdr::words(mask), tail);
    lemma_word_item(mask.len() as u32, list, "SETATTR attrsset length"@);
    lemma_attrsset(mask, requested, 0, tail);
    assert(mask.skip(0) =~= mask);
}

proof fn lemma_attrsset(mask: Seq<u32>, requested: Seq<u32>, index: nat, tail: Seq<u8>)
    requires
        index <= mask.len(),
    ensures
        attrsset(
            crate::xdr::words(mask.skip(index as int)) + tail,
            requested,
            index,
            mask.len(),
        ) is Ok <==> forall|i: int|
            index <= i < mask.len() ==> #[trigger] mask[i] & (if i < requested.len() {
                requested[i]
            } else {
                0u32
            }) == mask[i],
    decreases mask.len() - index,
{
    if index < mask.len() {
        let rest = mask.skip(index + 1int);
        let set = mask[index as int];
        let wanted = if index < requested.len() {
            requested[index as int]
        } else {
            0u32
        };
        lemma_words_from_the_front(mask.skip(index as int));
        assert(mask.skip(index as int).drop_first() =~= rest);
        lemma_regroup(be32(set), crate::xdr::words(rest), tail);
        lemma_word_item(set, crate::xdr::words(rest) + tail, "SETATTR attrsset word"@);
        lemma_attrsset(mask, requested, index + 1, tail);
        assert((set & !wanted != 0) == (set & wanted != set)) by (bit_vector);
    }
}

/// A list of numbers starts with its first.
pub proof fn lemma_words_from_the_front(values: Seq<u32>)
    requires
        values.len() > 0,
    ensures
        crate::xdr::words(values) == be32(values[0]) + crate::xdr::words(values.drop_first()),
    decreases values.len(),
{
    if values.len() > 1 {
        lemma_words_from_the_front(values.drop_last());
        assert(values.drop_last().drop_first() =~= values.drop_first().drop_last());
        lemma_regroup(
            be32(values[0]),
            crate::xdr::words(values.drop_first().drop_last()),
            be32(values.last()),
        );
    } else {
        assert(values.drop_last() =~= Seq::<u32>::empty());
        assert(values.drop_first() =~= Seq::<u32>::empty());
        assert(crate::xdr::words(values.drop_last()) =~= Seq::<u8>::empty());
        assert(crate::xdr::words(values) =~= be32(values[0]));
        assert(be32(values[0]) + crate::xdr::words(values.drop_first()) =~= be32(values[0]));
    }
}

/// LOOKUP results, as many as there are.
pub open spec fn lookups(count: nat, rest: Seq<u8>) -> Seq<u8>
    decreases count,
{
    if count == 0 {
        rest
    } else {
        result(15, 0, lookups((count - 1) as nat, rest))
    }
}

proof fn lemma_lookups(count: nat, rest: Seq<u8>)
    ensures
        lookup_heads(lookups(count, rest), count) == Ok::<((), Seq<u8>), ErrorView>(((), rest)),
    decreases count,
{
    if count > 0 {
        lemma_op_head(15, "LOOKUP"@, lookups((count - 1) as nat, rest));
        lemma_lookups((count - 1) as nat, rest);
    }
}

/// The walk from the root down a path gives the handle at its end; a reply that answers another
/// number of operations than the path has names, and two, is refused.
pub proof fn law_navigation_is_read_back(
    tag: Seq<u8>,
    components: nat,
    fh: Seq<u8>,
    count: u32,
    tail: Seq<u8>,
)
    requires
        tag.len() <= u32::MAX,
        components + 2 <= u32::MAX,
        fh.len() <= u32::MAX,
    ensures
        navigation(
            reply(
                0,
                tag,
                (components + 2) as u32,
                result(24, 0, lookups(components, result(10, 0, opaque(fh) + tail))),
            ),
            components,
        ) == Ok::<Seq<u8>, ErrorView>(fh),
        count != components + 2 ==> navigation(reply(0, tag, count, tail), components) is Err,
{
    let handle = result(10, 0, opaque(fh) + tail);
    let names = lookups(components, handle);
    lemma_reply_head(tag, (components + 2) as u32, result(24, 0, names));
    lemma_reply_head(tag, count, tail);
    lemma_op_head(24, "PUTROOTFH"@, names);
    lemma_lookups(components, handle);
    lemma_op_head(10, "GETFH"@, opaque(fh) + tail);
    lemma_opaque_item(fh, tail, "GETFH filehandle"@);
}

/// A reply that failed shows that the operation behind PUTFH had succeeded just where both have
/// the status zero in it.
pub proof fn law_success_before_failure_is_seen(
    status: u32,
    tag: Seq<u8>,
    count: u32,
    first: u32,
    second: u32,
    opcode: u32,
    tail: Seq<u8>,
)
    requires
        tag.len() <= u32::MAX,
        count >= 2,
    ensures
        succeeded_before_failure(
            reply(status, tag, count, result(22, first, result(opcode, second, tail))),
            opcode,
        ) <==> status != 0 && first == 0 && second == 0,
{
    let ops = result(22, first, result(opcode, second, tail));
    let s = reply(status, tag, count, ops);
    let left = be32(count) + ops;
    crate::xdr::lemma_word_of_be32(status, opaque(tag) + left);
    lemma_opaque_item(tag, left, "COMPOUND tag"@);
    assert({
        &&& left.len() >= 20
        &&& crate::xdr::word(left) == count
        &&& crate::xdr::word(left.skip(4)) == 22
        &&& crate::xdr::word(left.skip(8)) == first
        &&& crate::xdr::word(left.skip(12)) == opcode
        &&& crate::xdr::word(left.skip(16)) == second
    }) by {
        broadcast use crate::wire::group_front;

    }
}

} // verus!
