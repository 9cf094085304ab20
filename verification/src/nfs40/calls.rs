//! What a server calls an NFSv4.0 client back with, as it writes it, and what the client answers.

use vstd::prelude::*;

use crate::error::ErrorView;
use crate::nfs40::callback::{
    accepted, accepted_with, attribute_values, compound_outcome, compound_res, credential_ok,
    fragment_length,
    getattr_args, getattr_result, getattr_status, is_last_fragment, opaque_auth, opaque_field,
    plain_answer, recall_args, recall_finished, recall_is_new, recall_offer, recall_status,
    registered, replayed, requested_attributes, rpc_auth, verifier_ok, word_field, CallbackView,
    DelegationGrant, DelegationRecord, EnvelopeView, Era, ReplayView, Books,
};
use crate::wire::{holds, lemma_regroup, Fields};
use crate::xdr::{be32, be64, bitmap4, bool32, opaque, word, words};

verus! {

proof fn lemma_word_field(value: u32, rest: Seq<u8>, field: Seq<char>)
    ensures
        word_field(be32(value) + rest, field) == Ok::<(u32, Seq<u8>), ErrorView>((value, rest)),
{
    broadcast use crate::wire::group_front;

}

proof fn lemma_opaque_field(data: Seq<u8>, rest: Seq<u8>, field: Seq<char>)
    requires
        data.len() <= u32::MAX,
    ensures
        opaque_field(opaque(data) + rest, field) == Ok::<(Seq<u8>, Seq<u8>), ErrorView>(
            (data, rest),
        ),
{
    broadcast use crate::wire::group_front;

}

/// CB_RECALL names the delegation, whether the file will be truncated, and the file.
pub proof fn law_recall_is_read_back(
    stateid: Seq<u8>,
    truncate: bool,
    fh: Seq<u8>,
    tail: Seq<u8>,
)
    requires
        stateid.len() == 16,
        fh.len() <= u32::MAX,
    ensures
        recall_args(stateid + (bool32(truncate) + (opaque(fh) + tail))) == Ok::<
            ((Seq<u8>, bool, Seq<u8>), Seq<u8>),
            ErrorView,
        >(((stateid, truncate, fh), tail)),
{
    let file = opaque(fh) + tail;
    let s = stateid + (bool32(truncate) + file);
    assert(s.take(16) =~= stateid);
    assert(s.skip(16) =~= bool32(truncate) + file);
    lemma_word_field(
        if truncate {
            1
        } else {
            0
        },
        file,
        "CB_RECALL truncate"@,
    );
    lemma_opaque_field(fh, tail, "CB_RECALL filehandle"@);
}

proof fn lemma_requested_attributes(mask: Seq<u32>, at: nat, found: u32, tail: Seq<u8>)
    requires
        at <= mask.len(),
    ensures
        ({
            let read = requested_attributes(
                words(mask.skip(at as int)) + tail,
                (mask.len() - at) as nat,
                found,
            );
            &&& read is Ok
            &&& read->Ok_0.1 == tail
            &&& found != 0 ==> read->Ok_0.0 == found
            &&& found == 0 && at < mask.len() && mask[at as int] != 0 ==> read->Ok_0.0
                == mask[at as int]
            &&& found == 0 && (forall|i: int| at <= i < mask.len() ==> mask[i] == 0)
                ==> read->Ok_0.0 == 0
        }),
    decreases mask.len() - at,
{
    if at < mask.len() {
        let rest = mask.skip(at + 1int);
        let first = mask[at as int];
        crate::nfs40::replies::lemma_words_from_the_front(mask.skip(at as int));
        assert(mask.skip(at as int).drop_first() =~= rest);
        lemma_regroup(be32(first), words(rest), tail);
        lemma_word_field(first, words(rest) + tail, "CB_GETATTR bitmap word"@);
        lemma_requested_attributes(
            mask,
            at + 1,
            if found == 0 {
                first
            } else {
                found
            },
            tail,
        );
    } else {
        assert(mask.skip(at as int) =~= Seq::<u32>::empty());
        assert(words(mask.skip(at as int)) + tail =~= tail);
    }
}

/// CB_GETATTR names the file and the attributes: those of the first word of the bitmap, or none
/// where all its words are empty. A bitmap of more than four words is refused.
pub proof fn law_getattr_is_read_back(fh: Seq<u8>, mask: Seq<u32>, tail: Seq<u8>)
    requires
        fh.len() <= u32::MAX,
        mask.len() <= u32::MAX,
    ensures
        ({
            let read = getattr_args(opaque(fh) + (bitmap4(mask) + tail));
            &&& mask.len() > 4 ==> read is Err
            &&& mask.len() <= 4 ==> read is Ok && read->Ok_0.1 == tail && read->Ok_0.0.0 == fh
            &&& 1 <= mask.len() <= 4 && mask[0] != 0 ==> read->Ok_0.0.1 == mask[0]
            &&& mask.len() <= 4 && (forall|i: int| 0 <= i < mask.len() ==> mask[i] == 0)
                ==> read->Ok_0.0.1 == 0
        }),
{
    let list = words(mask) + tail;
    lemma_opaque_field(fh, bitmap4(mask) + tail, "CB_GETATTR filehandle"@);
    lemma_regroup(be32(mask.len() as u32), words(mask), tail);
    lemma_word_field(mask.len() as u32, list, "CB_GETATTR bitmap length"@);
    lemma_requested_attributes(mask, 0, 0, tail);
    assert(mask.skip(0) =~= mask);
}

/// The attributes of a file that the client may write are answered as they are: the change
/// number and the size, each where it was asked for, in this order.
pub proof fn law_getattr_is_answered(
    record: DelegationRecord,
    change: u64,
    size: u64,
    requested: u32,
)
    requires
        record.grant.kind is Write,
        record.attributes == Some((change, size)),
    ensures
        ({
            let head = Fields::Start.word(3).word(0).word(1);
            let result = getattr_result(Some(record), record.generation, requested);
            let wants_change = requested / 8 % 2 == 1;
            let wants_size = requested / 16 % 2 == 1;
            &&& getattr_status(Some(record), record.generation) == 0
            &&& wants_change && wants_size ==> holds(
                result,
                head.word(0x18).word(16).hyper(change).hyper(size),
            )
            &&& wants_change && !wants_size ==> holds(
                result,
                head.word(0x8).word(8).hyper(change),
            )
            &&& !wants_change && wants_size ==> holds(
                result,
                head.word(0x10).word(8).hyper(size),
            )
            &&& !wants_change && !wants_size ==> holds(result, head.word(0).word(0))
        }),
{
    broadcast use crate::wire::group_fields;

    let returned = requested & 0x18;
    let values = attribute_values(returned, change, size);
    assert({
        &&& (returned & 0x8 != 0) == (requested / 8 % 2 == 1)
        &&& (returned & 0x10 != 0) == (requested / 16 % 2 == 1)
        &&& returned & 0x8 != 0 && returned & 0x10 != 0 ==> returned == 0x18
        &&& returned & 0x8 != 0 && returned & 0x10 == 0 ==> returned == 0x8
        &&& returned & 0x8 == 0 && returned & 0x10 != 0 ==> returned == 0x10
        &&& returned & 0x8 == 0 && returned & 0x10 == 0 ==> returned == 0
    }) by (bit_vector)
        requires
            returned == requested & 0x18,
    ;
    let head = be32(3) + be32(0) + be32(1) + be32(returned) + be32(values.len() as u32);
    let fields = Fields::Start.word(3).word(0).word(1).word(returned).word(values.len() as u32);
    assert(holds(head, fields));
    let wants_change = returned & 0x8 != 0;
    let wants_size = returned & 0x10 != 0;
    if wants_change && wants_size {
        lemma_regroup(head, be64(change), be64(size));
        assert(values.len() == 16);
    } else if wants_change {
        assert(values =~= be64(change));
    } else if wants_size {
        assert(values =~= be64(size));
    } else {
        assert(values =~= Seq::<u8>::empty());
        assert(head + values =~= head);
    }
}

/// Where nothing is known of a file that the client may write, the server is asked to wait;
/// where the client may not write it, or held it in another generation, it is not known.
pub proof fn law_getattr_is_refused(record: Option<DelegationRecord>, generation: u64, requested: u32)
    requires
        getattr_status(record, generation) != 0,
    ensures
        holds(
            getattr_result(record, generation, requested),
            Fields::Start.word(3).word(getattr_status(record, generation)),
        ),
        record is None ==> getattr_status(record, generation) == 10001,
        record is Some && record->Some_0.grant.kind is Read ==> getattr_status(record, generation)
            == 10001,
        record is Some && record->Some_0.grant.kind is Write && record->Some_0.attributes is None
            ==> getattr_status(record, generation) == 10008,
        record is Some && record->Some_0.attributes is Some && record->Some_0.generation
            != generation ==> getattr_status(record, generation) == 10001,
{
    broadcast use crate::wire::group_fields;

}

/// A recall is answered with success where it is on its way already or could be handed on; with
/// a wait where it could not, or where the grant may still be on its way; and otherwise with
/// what is wrong with it.
pub proof fn law_recall_is_answered(
    era: Era,
    record: DelegationRecord,
    stateid: Seq<u8>,
    taken: bool,
)
    ensures
        recall_status(era, None, stateid, taken) == (if era.publishing {
            10008u32
        } else {
            10001
        }),
        record.generation != era.generation ==> recall_status(era, Some(record), stateid, taken)
            == 10001,
        record.generation == era.generation && record.grant.stateid@ != stateid ==> recall_status(
            era,
            Some(record),
            stateid,
            taken,
        ) == 10025,
        record.generation == era.generation && record.grant.stateid@ == stateid ==> recall_status(
            era,
            Some(record),
            stateid,
            taken,
        ) == (if taken || record.recalling {
            0u32
        } else {
            10008
        }),
        recall_is_new(era, Some(record), stateid) <==> record.generation == era.generation
            && record.grant.stateid@ == stateid && !record.recalling,
        !recall_is_new(era, None, stateid),
{
}

/// What is handed on names the file, the stateid and the generation of the delegation; what was
/// written has to be flushed where the client may write and the file will not be truncated.
pub proof fn law_recall_hands_on_the_delegation(
    record: DelegationRecord,
    fh: Seq<u8>,
    truncate: bool,
)
    ensures
        recall_offer(record, fh, truncate).fh == fh,
        recall_offer(record, fh, truncate).stateid == record.grant.stateid@,
        recall_offer(record, fh, truncate).generation == record.generation,
        recall_offer(record, fh, true).flush == false,
        recall_offer(record, fh, false).flush == (record.grant.kind is Write),
{
}

/// A reply to CB_COMPOUND holds the status, the tag as it came, how many operations it answers,
/// and their results.
pub proof fn law_reply_holds_its_results(
    status: u32,
    tag_len: u32,
    padded_tag: Seq<u8>,
    count: u32,
    results: Seq<u8>,
)
    ensures
        holds(
            compound_res(status, tag_len, padded_tag, count, results),
            Fields::Start.word(status).word(tag_len).bytes(padded_tag).word(count).bytes(results),
        ),
{
    broadcast use crate::wire::group_fields;

}

/// An accepted call is answered under its own number: a reply, accepted, with no verifier.
pub proof fn law_accepted_reply_names_the_call(xid: u32, result: Seq<u32>, body: Seq<u8>)
    ensures
        holds(
            accepted(xid, result),
            Fields::Start.words(seq![xid, 1u32, 0u32, 0u32, 0u32] + result),
        ),
        holds(
            accepted_with(xid, body),
            Fields::Start.words(seq![xid, 1u32, 0u32, 0u32, 0u32, 0u32]).bytes(body),
        ),
{
    broadcast use crate::wire::group_fields;

}

/// A credential is read back with its flavor and its body; one that is too long is refused.
pub proof fn law_credential_is_read_back(flavor: u32, body: Seq<u8>, tail: Seq<u8>)
    requires
        body.len() <= u32::MAX,
    ensures
        body.len() <= 400 ==> opaque_auth(be32(flavor) + (opaque(body) + tail)) == Some(
            (flavor, body, tail),
        ),
        body.len() > 400 ==> opaque_auth(be32(flavor) + (opaque(body) + tail)) is None,
{
    let s = be32(flavor) + (opaque(body) + tail);
    assert({
        &&& s.len() >= 8 + crate::xdr::padded(body.len())
        &&& word(s) == flavor
        &&& word(s.skip(4)) == body.len()
        &&& s.skip(8 + crate::xdr::padded(body.len()) as int) == tail
    }) by {
        broadcast use crate::wire::group_front;

        assert(s.skip(4) == opaque(body) + tail);
    }
    assert(s.subrange(8, 8int + body.len()) =~= body);
}

/// Both credentials of a call are read back, and what follows them is its body.
pub proof fn law_credentials_are_read_back(
    credential_flavor: u32,
    credential: Seq<u8>,
    verifier_flavor: u32,
    verifier: Seq<u8>,
    body: Seq<u8>,
)
    requires
        credential.len() <= 400,
        verifier.len() <= 400,
    ensures
        rpc_auth(
            be32(credential_flavor) + (opaque(credential) + (be32(verifier_flavor) + (opaque(
                verifier,
            ) + body))),
        ) == Some(
            EnvelopeView { credential_flavor, credential, verifier_flavor, verifier, body },
        ),
{
    law_credential_is_read_back(
        credential_flavor,
        credential,
        be32(verifier_flavor) + (opaque(verifier) + body),
    );
    law_credential_is_read_back(verifier_flavor, verifier, body);
}

/// No credential is accepted where it is empty, a system one where it names a machine of at
/// most 255 bytes, a user, a group and at most sixteen groups more; no other is accepted.
pub proof fn law_credential_is_judged(
    stamp: u32,
    machine: Seq<u8>,
    uid: u32,
    gid: u32,
    groups: Seq<u32>,
    flavor: u32,
    other: Seq<u8>,
)
    requires
        machine.len() <= 0x1000,
        groups.len() <= 0x1000,
    ensures
        credential_ok(0, other) <==> other.len() == 0,
        flavor > 1 ==> !credential_ok(flavor, other),
        credential_ok(1, written_credential(stamp, machine, uid, gid, groups)) <==> machine.len()
            <= 255 && groups.len() <= 16,
        verifier_ok(flavor, other) <==> flavor == 0 && other.len() == 0 || flavor == 1
            && other.len() == 4,
{
    let credential = written_credential(stamp, machine, uid, gid, groups);
    lemma_written_credential(stamp, machine, uid, gid, groups);
    lemma_credential_of(credential, machine.len(), groups.len());
}

/// A system credential as it is written.
#[verifier::opaque]
pub open spec fn written_credential(
    stamp: u32,
    machine: Seq<u8>,
    uid: u32,
    gid: u32,
    groups: Seq<u32>,
) -> Seq<u8> {
    be32(stamp) + (opaque(machine) + (be32(uid) + (be32(gid) + bitmap4(groups))))
}

proof fn lemma_credential_of(credential: Seq<u8>, machine: nat, groups: nat)
    requires
        machine <= 0x1000,
        groups <= 0x1000,
        credential.len() == 20 + crate::xdr::padded(machine) + 4 * groups,
        word(credential.skip(4)) == machine,
        word(credential.skip(4).skip(12 + crate::xdr::padded(machine) as int)) == groups,
    ensures
        credential_ok(1, credential) <==> machine <= 255 && groups <= 16,
{
}

proof fn lemma_written_credential(
    stamp: u32,
    machine: Seq<u8>,
    uid: u32,
    gid: u32,
    groups: Seq<u32>,
)
    requires
        machine.len() <= 0x1000,
        groups.len() <= 0x1000,
    ensures
        ({
            let credential = written_credential(stamp, machine, uid, gid, groups);
            let padded = crate::xdr::padded(machine.len());
            &&& credential.len() == 20 + padded + 4 * groups.len()
            &&& word(credential.skip(4)) == machine.len()
            &&& word(credential.skip(4).skip(12 + padded as int)) == groups.len()
        }),
{
    reveal(written_credential);
    let list = bitmap4(groups) + Seq::<u8>::empty();
    let ids = be32(uid) + (be32(gid) + list);
    let s = opaque(machine) + ids;
    let credential = be32(stamp) + s;
    let padded = crate::xdr::padded(machine.len());
    assert(list =~= bitmap4(groups));
    assert({
        &&& credential.len() == 20 + padded + 4 * groups.len()
        &&& credential.skip(4) == s
        &&& word(s) == machine.len()
        &&& s.skip(12 + padded as int) == list
        &&& word(list) == groups.len()
    }) by {
        broadcast use crate::wire::group_front;

        assert(s.skip(12 + padded as int) == ids.skip(8));
    }
}

/// A call as a server writes it, without credentials.
#[verifier::opaque]
pub open spec fn written_call(
    xid: u32,
    version: u32,
    program: u32,
    program_version: u32,
    procedure: u32,
    body: Seq<u8>,
) -> Seq<u8> {
    be32(xid) + (be32(0) + (be32(version) + (be32(program) + (be32(program_version) + (be32(procedure)
        + (be32(0) + (opaque(Seq::empty()) + (be32(0) + (opaque(Seq::empty()) + body)))))))))
}

/// A call that is not for the callback program is answered under its number with what is wrong:
/// another version of RPC, another program, another version of the program, another procedure.
/// The empty procedure is answered at once, and CB_COMPOUND is looked into.
pub proof fn law_call_is_judged(
    replies: Seq<ReplayView>,
    xid: u32,
    version: u32,
    program: u32,
    program_version: u32,
    procedure: u32,
    body: Seq<u8>,
)
    requires
        body.len() % 4 == 0,
        replayed(
            replies,
            xid,
            written_call(xid, version, program, program_version, procedure, body),
        ) is None,
    ensures
        ({
            let call = written_call(xid, version, program, program_version, procedure, body);
            let answer = plain_answer(replies, call);
            &&& version != 2 ==> answer == Some(
                Ok::<Seq<u8>, ErrorView>(words(seq![xid, 1u32, 1u32, 0u32, 2u32, 2u32])),
            )
            &&& version == 2 && program != 0x4000_0000 ==> answer == Some(
                Ok::<Seq<u8>, ErrorView>(accepted(xid, seq![1u32])),
            )
            &&& version == 2 && program == 0x4000_0000 && program_version != 1 ==> answer == Some(
                Ok::<Seq<u8>, ErrorView>(accepted(xid, seq![2u32, 1u32, 1u32])),
            )
            &&& version == 2 && program == 0x4000_0000 && program_version == 1 && procedure > 1
                ==> answer == Some(Ok::<Seq<u8>, ErrorView>(accepted(xid, seq![3u32])))
            &&& version == 2 && program == 0x4000_0000 && program_version == 1 && procedure == 0
                && body.len() == 0 ==> answer == Some(
                Ok::<Seq<u8>, ErrorView>(accepted(xid, seq![0u32])),
            )
            &&& version == 2 && program == 0x4000_0000 && program_version == 1 && procedure == 1
                ==> answer is None && rpc_auth(call.skip(24)) is Some && rpc_auth(
                call.skip(24),
            )->Some_0.body == body
        }),
{
    let call = written_call(xid, version, program, program_version, procedure, body);
    lemma_call_words(xid, version, program, program_version, procedure, body);
    lemma_call_is_judged(replies, call, body);
}

proof fn lemma_call_words(
    xid: u32,
    version: u32,
    program: u32,
    program_version: u32,
    procedure: u32,
    body: Seq<u8>,
)
    ensures
        ({
            let call = written_call(xid, version, program, program_version, procedure, body);
            &&& call.len() == 40 + body.len()
            &&& word(call) == xid
            &&& word(call.skip(4)) == 0
            &&& word(call.skip(8)) == version
            &&& word(call.skip(12)) == program
            &&& word(call.skip(16)) == program_version
            &&& word(call.skip(20)) == procedure
            &&& rpc_auth(call.skip(24)) == Some(
                EnvelopeView {
                    credential_flavor: 0,
                    credential: Seq::empty(),
                    verifier_flavor: 0,
                    verifier: Seq::empty(),
                    body,
                },
            )
        }),
{
    reveal(written_call);
    let call = written_call(xid, version, program, program_version, procedure, body);
    let auth = be32(0) + (opaque(Seq::empty()) + (be32(0) + (opaque(Seq::empty()) + body)));
    law_credentials_are_read_back(0, Seq::empty(), 0, Seq::empty(), body);
    assert({
        &&& call.len() == 24 + auth.len()
        &&& auth.len() == 16 + body.len()
        &&& word(call) == xid
        &&& word(call.skip(4)) == 0
        &&& word(call.skip(8)) == version
        &&& word(call.skip(12)) == program
        &&& word(call.skip(16)) == program_version
        &&& word(call.skip(20)) == procedure
        &&& call.skip(24) == auth
    }) by {
        broadcast use crate::wire::group_front;

    }
}

proof fn lemma_call_is_judged(replies: Seq<ReplayView>, call: Seq<u8>, body: Seq<u8>)
    requires
        call.len() == 40 + body.len(),
        body.len() % 4 == 0,
        replayed(replies, word(call), call) is None,
        word(call.skip(4)) == 0,
        rpc_auth(call.skip(24)) == Some(
            EnvelopeView {
                credential_flavor: 0,
                credential: Seq::empty(),
                verifier_flavor: 0,
                verifier: Seq::empty(),
                body,
            },
        ),
    ensures
        ({
            let xid = word(call);
            let version = word(call.skip(8));
            let program = word(call.skip(12));
            let program_version = word(call.skip(16));
            let procedure = word(call.skip(20));
            let answer = plain_answer(replies, call);
            &&& version != 2 ==> answer == Some(
                Ok::<Seq<u8>, ErrorView>(words(seq![xid, 1u32, 1u32, 0u32, 2u32, 2u32])),
            )
            &&& version == 2 && program != 0x4000_0000 ==> answer == Some(
                Ok::<Seq<u8>, ErrorView>(accepted(xid, seq![1u32])),
            )
            &&& version == 2 && program == 0x4000_0000 && program_version != 1 ==> answer == Some(
                Ok::<Seq<u8>, ErrorView>(accepted(xid, seq![2u32, 1u32, 1u32])),
            )
            &&& version == 2 && program == 0x4000_0000 && program_version == 1 && procedure > 1
                ==> answer == Some(Ok::<Seq<u8>, ErrorView>(accepted(xid, seq![3u32])))
            &&& version == 2 && program == 0x4000_0000 && program_version == 1 && procedure == 0
                && body.len() == 0 ==> answer == Some(
                Ok::<Seq<u8>, ErrorView>(accepted(xid, seq![0u32])),
            )
            &&& version == 2 && program == 0x4000_0000 && program_version == 1 && procedure == 1
                ==> answer is None
        }),
{
}

/// A record marker holds the length of its fragment and whether it is the last.
pub proof fn law_marker_holds_length_and_end(len: u32, last: bool)
    requires
        len < 0x8000_0000,
    ensures
        ({
            let marker = (len + (if last {
                0x8000_0000int
            } else {
                0
            })) as u32;
            fragment_length(marker) == len && is_last_fragment(marker) == last
        }),
{
}

/// A delegation that was granted is held for its file with its stateid, its kind, its generation
/// and what is known of the file; those of other files stay, and it is counted.
pub proof fn law_grant_is_held(
    state: CallbackView,
    fh: Seq<u8>,
    grant: DelegationGrant,
    generation: u64,
    attributes: Option<(u64, u64)>,
    taken: bool,
    other: Seq<u8>,
)
    requires
        other != fh,
        state.stats.grants_received < u64::MAX,
    ensures
        ({
            let after = registered(state, fh, grant, generation, attributes, taken);
            let record = after.delegations[fh];
            &&& after.delegations.contains_key(fh)
            &&& record.grant == grant
            &&& record.generation == generation
            &&& record.attributes == attributes
            &&& record.recalling == (grant.recall && taken)
            &&& after.delegations.contains_key(other) == state.delegations.contains_key(other)
            &&& after.delegations[other] == state.delegations[other]
            &&& after.generation == generation
            &&& after.stats.grants_received == state.stats.grants_received + 1
            &&& after.stats.returns_completed == state.stats.returns_completed
            &&& after.stats.returns_failed == state.stats.returns_failed
            &&& !grant.recall ==> after.offers == state.offers && after.stats.recalls_received
                == state.stats.recalls_received && after.worker_healthy == state.worker_healthy
            &&& grant.recall ==> after.offers.len() == state.offers.len() + 1
                && after.offers.last().taken == taken && after.offers.last().item.fh == fh
                && after.offers.last().item.stateid == grant.stateid@
                && after.offers.last().item.generation == generation
                && after.offers.last().item.flush == (grant.kind is Write)
        }),
{
}

/// A recall that ended takes its delegation away where it was returned, and lets it be recalled
/// again where it was not; a delegation that has changed since, and those of other files, stay.
pub proof fn law_ended_recall_settles_its_delegation(
    delegations: Map<Seq<u8>, DelegationRecord>,
    fh: Seq<u8>,
    stateid: Seq<u8>,
    generation: u64,
    returned: bool,
    other: Seq<u8>,
)
    requires
        other != fh,
        delegations.contains_key(fh),
    ensures
        ({
            let after = recall_finished(delegations, fh, stateid, generation, returned);
            let record = delegations[fh];
            let same = record.generation == generation && record.grant.stateid@ == stateid;
            &&& after.contains_key(other) == delegations.contains_key(other)
            &&& after[other] == delegations[other]
            &&& same && returned ==> !after.contains_key(fh)
            &&& same && !returned ==> after.contains_key(fh) && !after[fh].recalling
                && after[fh].grant == record.grant && after[fh].generation == record.generation
                && after[fh].attributes == record.attributes
            &&& !same ==> after == delegations
        }),
{
}

/// CB_COMPOUND as a server writes it: the tag, the minor version, the number under which the
/// client asked to be called back, how many operations follow, and the operations.
#[verifier::opaque]
pub open spec fn written_compound(
    tag: Seq<u8>,
    minor: u32,
    ident: u32,
    count: u32,
    ops: Seq<u8>,
) -> Seq<u8> {
    opaque(tag) + (be32(minor) + (be32(ident) + (be32(count) + ops)))
}

proof fn lemma_written_compound(tag: Seq<u8>, minor: u32, ident: u32, count: u32, ops: Seq<u8>)
    requires
        tag.len() <= u32::MAX,
    ensures
        ({
            let body = written_compound(tag, minor, ident, count, ops);
            let end = 4 + crate::xdr::padded(tag.len()) as int;
            &&& body.len() == end + 12 + ops.len()
            &&& word(body) == tag.len()
            &&& body.subrange(4, end) == crate::xdr::fixed_opaque(tag)
            &&& word(body.skip(end)) == minor
            &&& word(body.skip(end + 4)) == ident
            &&& word(body.skip(end + 8)) == count
            &&& body.skip(end + 12) == ops
        }),
{
    reveal(written_compound);
    let body = written_compound(tag, minor, ident, count, ops);
    let rest = be32(minor) + (be32(ident) + (be32(count) + ops));
    let end = 4 + crate::xdr::padded(tag.len()) as int;
    assert({
        &&& opaque(tag).len() == end
        &&& rest.len() == 12 + ops.len()
        &&& word(body) == tag.len()
        &&& body.skip(end) == rest
        &&& word(rest) == minor
        &&& word(rest.skip(4)) == ident
        &&& word(rest.skip(8)) == count
        &&& rest.skip(12) == ops
    }) by {
        broadcast use crate::wire::group_front;

    }
    assert(body.skip(end + 4) =~= rest.skip(4));
    assert(body.skip(end + 8) =~= rest.skip(8));
    assert(body.skip(end + 12) =~= rest.skip(12));
    assert(body.subrange(4, end) =~= crate::xdr::fixed_opaque(tag));
}

/// A callback of another minor version, for another client or with more operations than are
/// taken is answered with which of them it is, under its own tag, and has no effect; one without
/// operations is answered with success.
pub proof fn law_compound_is_judged(
    era: Era,
    books: Books,
    tag: Seq<u8>,
    minor: u32,
    ident: u32,
    count: u32,
    ops: Seq<u8>,
    taken: Seq<bool>,
)
    requires
        tag.len() <= u32::MAX,
    ensures
        ({
            let (after, reply) = compound_outcome(
                era,
                books,
                written_compound(tag, minor, ident, count, ops),
                taken,
            );
            let len = tag.len() as u32;
            let bytes = crate::xdr::fixed_opaque(tag);
            let nothing = Seq::<u8>::empty();
            &&& minor != 0 ==> reply == Ok::<Seq<u8>, ErrorView>(
                compound_res(10021, len, bytes, 0, nothing),
            )
            &&& minor == 0 && ident != 1 ==> reply == Ok::<Seq<u8>, ErrorView>(
                compound_res(10001, len, bytes, 0, nothing),
            )
            &&& minor == 0 && ident == 1 && count > 64 ==> reply == Ok::<Seq<u8>, ErrorView>(
                compound_res(10018, len, bytes, 0, nothing),
            )
            &&& minor == 0 && ident == 1 && count == 0 && ops.len() == 0 ==> reply == Ok::<
                Seq<u8>,
                ErrorView,
            >(compound_res(0, len, bytes, 0, nothing))
            &&& minor == 0 && ident == 1 && count == 0 && ops.len() > 0 ==> reply is Err
            &&& minor != 0 || ident != 1 || count > 64 || count == 0 ==> after == books
        }),
{
    lemma_written_compound(tag, minor, ident, count, ops);
}


} // verus!
