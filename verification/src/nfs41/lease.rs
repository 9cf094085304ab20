//! The renewal of a lease by SEQUENCE (RFC 8881 §8.3): what a renewal asks for, what its reply
//! says of the session, and what follows from it.

use bytes::Bytes;
use vstd::prelude::*;
use vstd::string::StringExecFns;

use crate::buffer::{contents, duplicate, get_u32, remaining, take_array};
use crate::error::{xdr_error, ErrorView, NfsError, Result};
use crate::nfs4::compound::Decoded;
use crate::nfs4::status::Nfs4ErrorCode;
use crate::nfs41::compound::{opcode, CompoundBuilder, OpNum, OpView};
use crate::nfs41::response::{CompoundResponse, ResponseView};
use crate::table::equal_bytes;
use crate::text::{
    around_number, characters, decimal, push_decimal, same_text, with_number,
};
use crate::xdr::{be32, bool32, word};

verus! {

/// What the last renewal said of the lease.
#[derive(Clone, Copy, Debug, PartialEq, Eq, Structural)]
pub enum LeaseHealth {
    Healthy,
    TransportFailure,
    ProtocolFailure,
    IdentityMismatch,
    SessionFailure,
}

/// Whether a text holds another.
pub open spec fn holds_text(text: Seq<char>, part: Seq<char>) -> bool {
    exists|i: int|
        0 <= i && i + part.len() <= text.len() && #[trigger] text.subrange(i, i + part.len())
            == part
}

fn contains_text(text: &str, part: &str) -> (found: bool)
    ensures
        found == holds_text(text@, part@),
{
    let chars = characters(text);
    let wanted = characters(part);
    let n: usize = chars.len();
    let m: usize = wanted.len();
    if m > n {
        return false;
    }
    let mut i: usize = 0;
    loop
        invariant
            chars@ == text@,
            wanted@ == part@,
            n == chars@.len(),
            m == wanted@.len(),
            i <= n - m,
            m <= n,
            forall|k: int| 0 <= k < i ==> #[trigger] text@.subrange(k, k + part@.len()) != part@,
        decreases n - m - i,
    {
        let mut k: usize = 0;
        while k < m && chars[i + k] == wanted[k]
            invariant
                n == chars@.len(),
                m == wanted@.len(),
                k <= m <= n,
                i <= n - m,
                forall|j: int| 0 <= j < k ==> chars@[i + j] == #[trigger] wanted@[j],
            decreases m - k,
        {
            k += 1;
        }
        if k == m {
            assert(text@.subrange(i as int, i + part@.len()) =~= part@);
            return true;
        }
        assert(text@.subrange(i as int, i + part@.len())[k as int] != part@[k as int]);
        if i == n - m {
            return false;
        }
        i += 1;
    }
}

/// What an error says of the lease.
pub open spec fn health_of(error: ErrorView) -> LeaseHealth {
    match error {
        ErrorView::Nfs4(status) => if status == Nfs4ErrorCode::NFS4ERR_BADSESSION || status
            == Nfs4ErrorCode::NFS4ERR_DEADSESSION || status == Nfs4ErrorCode::NFS4ERR_SEQ_MISORDERED
            || status == Nfs4ErrorCode::NFS4ERR_BADSLOT {
            LeaseHealth::SessionFailure
        } else {
            LeaseHealth::ProtocolFailure
        },
        ErrorView::Io(_) => LeaseHealth::TransportFailure,
        ErrorView::Rpc(_) => LeaseHealth::TransportFailure,
        ErrorView::Xdr(message) => if holds_text(message, "mismatch"@) {
            LeaseHealth::IdentityMismatch
        } else {
            LeaseHealth::ProtocolFailure
        },
        _ => LeaseHealth::ProtocolFailure,
    }
}

impl LeaseHealth {
    pub fn from_error(error: &NfsError) -> (health: Self)
        ensures
            health == health_of(error@),
    {
        match error {
            NfsError::Nfs4(status) => match status {
                Nfs4ErrorCode::NFS4ERR_BADSESSION => LeaseHealth::SessionFailure,
                Nfs4ErrorCode::NFS4ERR_DEADSESSION => LeaseHealth::SessionFailure,
                Nfs4ErrorCode::NFS4ERR_SEQ_MISORDERED => LeaseHealth::SessionFailure,
                Nfs4ErrorCode::NFS4ERR_BADSLOT => LeaseHealth::SessionFailure,
                _ => LeaseHealth::ProtocolFailure,
            },
            NfsError::Io(_) => LeaseHealth::TransportFailure,
            NfsError::Rpc(_) => LeaseHealth::TransportFailure,
            NfsError::Xdr(message) => if contains_text(message.as_str(), "mismatch") {
                LeaseHealth::IdentityMismatch
            } else {
                LeaseHealth::ProtocolFailure
            },
            _ => LeaseHealth::ProtocolFailure,
        }
    }

    /// The number under which a health is kept.
    pub open spec fn spec_number(self) -> u8 {
        match self {
            LeaseHealth::Healthy => 0,
            LeaseHealth::TransportFailure => 1,
            LeaseHealth::ProtocolFailure => 2,
            LeaseHealth::IdentityMismatch => 3,
            LeaseHealth::SessionFailure => 4,
        }
    }

    #[verifier::when_used_as_spec(spec_number)]
    pub fn number(self) -> (number: u8)
        ensures
            number == self.spec_number(),
    {
        match self {
            LeaseHealth::Healthy => 0,
            LeaseHealth::TransportFailure => 1,
            LeaseHealth::ProtocolFailure => 2,
            LeaseHealth::IdentityMismatch => 3,
            LeaseHealth::SessionFailure => 4,
        }
    }

    /// The health that is kept under a number. A number that stands for none is taken for the
    /// worst.
    pub fn load(number: u8) -> (health: Self)
        ensures
            number <= 4 ==> health.spec_number() == number,
            number > 4 ==> health == LeaseHealth::SessionFailure,
    {
        match number {
            0 => LeaseHealth::Healthy,
            1 => LeaseHealth::TransportFailure,
            2 => LeaseHealth::ProtocolFailure,
            3 => LeaseHealth::IdentityMismatch,
            _ => LeaseHealth::SessionFailure,
        }
    }
}

/// Two numbers that should be the same.
pub open spec fn got_expected(before: Seq<char>, got: u32, expected: u32) -> ErrorView {
    ErrorView::Xdr(before + decimal(got as nat) + ", expected "@ + decimal(expected as nat))
}

fn unexpected(before: &str, got: u32, expected: u32) -> (error: NfsError)
    ensures
        error@ == got_expected(before@, got, expected),
{
    let mut text = around_number(before, got as u64, ", expected ");
    push_decimal(&mut text, expected as u64);
    NfsError::Xdr(text)
}

/// The error for slots that a SEQUENCE result does not echo.
pub open spec fn highest_slot_mismatch(echoed: u32, target: u32, expected: u32) -> ErrorView {
    ErrorView::Xdr(
        "renewal SEQUENCE highest-slot mismatch: echoed "@ + decimal(echoed as nat) + ", target "@
            + decimal(target as nat) + ", expected maximum "@ + decimal(expected as nat),
    )
}

/// What the result of SEQUENCE says of the session, if it is the session that was asked.
pub open spec fn sequence_flags(
    s: Seq<u8>,
    session_id: Seq<u8>,
    sequence_id: u32,
    slot_id: u32,
    highest_slot_id: u32,
) -> Decoded<u32> {
    if s.len() != 36 {
        Err(
            ErrorView::Xdr(
                "renewal SEQUENCE result length "@ + decimal(s.len()) + ", expected 36"@,
            ),
        )
    } else if s.take(16) != session_id {
        Err(ErrorView::Xdr("renewal SEQUENCE session mismatch"@))
    } else if word(s.skip(16)) != sequence_id {
        Err(
            got_expected(
                "renewal SEQUENCE sequence mismatch: got "@,
                word(s.skip(16)),
                sequence_id,
            ),
        )
    } else if word(s.skip(20)) != slot_id {
        Err(got_expected("renewal SEQUENCE slot mismatch: got "@, word(s.skip(20)), slot_id))
    } else if word(s.skip(24)) != highest_slot_id || word(s.skip(28)) > highest_slot_id {
        Err(highest_slot_mismatch(word(s.skip(24)), word(s.skip(28)), highest_slot_id))
    } else {
        Ok(word(s.skip(32)))
    }
}

/// What the reply to a renewal says of the session, if it is the reply to this renewal.
pub open spec fn renewal_flags(
    response: ResponseView,
    session_id: Seq<u8>,
    sequence_id: u32,
    slot_id: u32,
    highest_slot_id: u32,
) -> Decoded<u32> {
    if response.status != Nfs4ErrorCode::NFS4_OK {
        Err(ErrorView::Nfs4(response.status))
    } else if response.tag != "renew"@ {
        Err(ErrorView::Xdr("renewal tag mismatch"@))
    } else if response.results.len() != 1 {
        Err(
            ErrorView::Xdr(
                "renewal response has "@ + decimal(response.results.len())
                    + " operations, expected 1"@,
            ),
        )
    } else if response.results[0].status != Nfs4ErrorCode::NFS4_OK {
        Err(ErrorView::Nfs4(response.results[0].status))
    } else if response.results[0].opcode != opcode(OpNum::Sequence) {
        Err(
            got_expected(
                "renewal result 0 opcode mismatch: got "@,
                response.results[0].opcode,
                opcode(OpNum::Sequence),
            ),
        )
    } else {
        sequence_flags(
            response.results[0].data,
            session_id,
            sequence_id,
            slot_id,
            highest_slot_id,
        )
    }
}

fn validate_sequence(
    data: &Bytes,
    session_id: &[u8; 16],
    sequence_id: u32,
    slot_id: u32,
    highest_slot_id: u32,
) -> (flags: Result<u32>)
    ensures
        match sequence_flags(
            contents(*data),
            session_id@,
            sequence_id,
            slot_id,
            highest_slot_id,
        ) {
            Ok(expected) => flags is Ok && flags->Ok_0 == expected,
            Err(error) => flags is Err && flags->Err_0@ == error,
        },
{
    let ghost s = contents(*data);
    let mut data = duplicate(data);
    if remaining(&data) != 36 {
        return Err(
            NfsError::Xdr(
                around_number(
                    "renewal SEQUENCE result length ",
                    remaining(&data) as u64,
                    ", expected 36",
                ),
            ),
        );
    }
    let echoed_session: [u8; 16] = take_array(&mut data);
    let echoed_sequence: u32 = get_u32(&mut data);
    let echoed_slot: u32 = get_u32(&mut data);
    let echoed_highest: u32 = get_u32(&mut data);
    let target_highest: u32 = get_u32(&mut data);
    let status_flags: u32 = get_u32(&mut data);
    assert(s.skip(16).skip(4) =~= s.skip(20));
    assert(s.skip(20).skip(4) =~= s.skip(24));
    assert(s.skip(24).skip(4) =~= s.skip(28));
    assert(s.skip(28).skip(4) =~= s.skip(32));
    if !equal_bytes(&echoed_session, session_id) {
        return Err(xdr_error("renewal SEQUENCE session mismatch"));
    }
    if echoed_sequence != sequence_id {
        return Err(
            unexpected("renewal SEQUENCE sequence mismatch: got ", echoed_sequence, sequence_id),
        );
    }
    if echoed_slot != slot_id {
        return Err(unexpected("renewal SEQUENCE slot mismatch: got ", echoed_slot, slot_id));
    }
    if echoed_highest != highest_slot_id || target_highest > highest_slot_id {
        let mut text = with_number(
            "renewal SEQUENCE highest-slot mismatch: echoed ",
            echoed_highest as u64,
        );
        text.append(", target ");
        push_decimal(&mut text, target_highest as u64);
        text.append(", expected maximum ");
        push_decimal(&mut text, highest_slot_id as u64);
        return Err(NfsError::Xdr(text));
    }
    Ok(status_flags)
}

/// What the reply to a renewal says of the session.
pub fn validate_renewal_response(
    response: &CompoundResponse,
    session_id: &[u8; 16],
    sequence_id: u32,
    slot_id: u32,
    highest_slot_id: u32,
) -> (flags: Result<u32>)
    ensures
        match renewal_flags(response@, session_id@, sequence_id, slot_id, highest_slot_id) {
            Ok(expected) => flags is Ok && flags->Ok_0 == expected,
            Err(error) => flags is Err && flags->Err_0@ == error,
        },
{
    response.check_status()?;
    if !same_text(response.tag.as_str(), "renew") {
        return Err(xdr_error("renewal tag mismatch"));
    }
    if response.results.len() != 1 {
        return Err(
            NfsError::Xdr(
                around_number(
                    "renewal response has ",
                    response.results.len() as u64,
                    " operations, expected 1",
                ),
            ),
        );
    }
    let sequence = response.op_ok(0)?;
    if sequence.opcode != OpNum::Sequence.number() {
        return Err(
            unexpected(
                "renewal result 0 opcode mismatch: got ",
                sequence.opcode,
                OpNum::Sequence.number(),
            ),
        );
    }
    validate_sequence(&sequence.data, session_id, sequence_id, slot_id, highest_slot_id)
}


/// The request that renews a lease: a SEQUENCE by itself.
pub fn renewal_request(
    session_id: &[u8; 16],
    sequence_id: u32,
    slot_id: u32,
    highest_slot_id: u32,
) -> (request: CompoundBuilder)
    ensures
        request@.tag == "renew"@,
        request@.required_generation is None,
        request@.ops == seq![
            OpView {
                opcode: OpNum::Sequence,
                args: session_id@ + be32(sequence_id) + be32(slot_id) + be32(highest_slot_id)
                    + bool32(false),
            },
        ],
{
    let request = CompoundBuilder::new("renew").sequence(
        session_id,
        sequence_id,
        slot_id,
        highest_slot_id,
    );
    assert(request@.ops =~= seq![request@.ops[0]]);
    request
}

/// What a renewal does to the slot that carried it and to the health of the lease.
#[derive(Clone, Copy, Debug, PartialEq, Eq, Structural)]
pub struct RenewalOutcome {
    pub health: LeaseHealth,
    /// Whether the slot moves on to its next sequence number.
    pub advance: bool,
    /// Whether the server is known to have dealt with the request, so that the slot can be
    /// used again.
    pub resolve: bool,
}

/// The outcome of a renewal. The slot of a request whose fate is unknown stays out of use.
pub open spec fn renewal_outcome(result: Decoded<u32>) -> RenewalOutcome {
    match result {
        Ok(_) => RenewalOutcome { health: LeaseHealth::Healthy, advance: true, resolve: true },
        Err(error) => RenewalOutcome {
            health: health_of(error),
            advance: false,
            resolve: error is Nfs4,
        },
    }
}

/// What follows from a renewal.
pub fn after_renewal(result: &Result<u32>) -> (outcome: RenewalOutcome)
    ensures
        outcome == renewal_outcome(
            match *result {
                Ok(flags) => Ok(flags),
                Err(error) => Err(error@),
            },
        ),
{
    match result {
        Ok(_) => RenewalOutcome { health: LeaseHealth::Healthy, advance: true, resolve: true },
        Err(error) => RenewalOutcome {
            health: LeaseHealth::from_error(error),
            advance: false,
            resolve: match error {
                NfsError::Nfs4(_) => true,
                _ => false,
            },
        },
    }
}

/// A reply for another session, slot or sequence number never counts as a renewal, and the
/// slot does not move on.
pub proof fn law_foreign_reply_does_not_renew(
    response: ResponseView,
    session_id: Seq<u8>,
    sequence_id: u32,
    slot_id: u32,
    highest_slot_id: u32,
)
    requires
        response.results.len() >= 1,
        ({
            let s = response.results[0].data;
            ||| s.len() != 36
            ||| s.take(16) != session_id
            ||| word(s.skip(16)) != sequence_id
            ||| word(s.skip(20)) != slot_id
        }),
    ensures
        ({
            let outcome = renewal_outcome(
                renewal_flags(response, session_id, sequence_id, slot_id, highest_slot_id),
            );
            outcome.health != LeaseHealth::Healthy && !outcome.advance
        }),
{
}

/// A status that says that the session is gone is a failure of the session.
pub proof fn law_lost_session_is_a_session_failure(status: Nfs4ErrorCode)
    requires
        status == Nfs4ErrorCode::NFS4ERR_BADSESSION || status == Nfs4ErrorCode::NFS4ERR_DEADSESSION
            || status == Nfs4ErrorCode::NFS4ERR_SEQ_MISORDERED || status
            == Nfs4ErrorCode::NFS4ERR_BADSLOT,
    ensures
        health_of(ErrorView::Nfs4(status)) == LeaseHealth::SessionFailure,
{
}

/// A SEQUENCE result that answers the session, the number and the slot of the request, and names
/// the slots that it may, gives the flags that the server wrote; one with a larger target does
/// not.
pub proof fn law_sequence_is_read_back(
    session_id: Seq<u8>,
    sequence_id: u32,
    slot_id: u32,
    highest_slot_id: u32,
    target: u32,
    flags: u32,
)
    requires
        session_id.len() == 16,
    ensures
        ({
            let s = session_id + (be32(sequence_id) + (be32(slot_id) + (be32(highest_slot_id) + (
            be32(target) + be32(flags)))));
            let read = sequence_flags(s, session_id, sequence_id, slot_id, highest_slot_id);
            &&& target <= highest_slot_id ==> read == Ok::<u32, ErrorView>(flags)
            &&& target > highest_slot_id ==> read is Err
        }),
{
    broadcast use crate::wire::group_front;

    let s = session_id + (be32(sequence_id) + (be32(slot_id) + (be32(highest_slot_id) + (be32(
        target,
    ) + be32(flags)))));
    assert(s.len() == 36);
}

/// The states of a lease are told apart by their numbers.
pub proof fn law_health_has_its_number(a: LeaseHealth, b: LeaseHealth)
    ensures
        a.spec_number() == b.spec_number() ==> a == b,
        a.spec_number() == 0 <==> a is Healthy,
        a.spec_number() <= 4,
{
}

/// A renewal moves its slot on just where it succeeded, and is settled where the server
/// answered: with success or with a status.
pub proof fn law_renewal_is_settled_by_an_answer(result: Decoded<u32>)
    ensures
        renewal_outcome(result).advance <==> result is Ok,
        renewal_outcome(result).resolve <==> result is Ok || result->Err_0 is Nfs4,
        renewal_outcome(result).health is Healthy <==> result is Ok,
{
}

/// What failed is told apart: the transport, the session, a reply to something else, and the
/// protocol otherwise.
pub proof fn law_failures_are_told_apart(status: Nfs4ErrorCode, text: Seq<char>)
    ensures
        health_of(ErrorView::Rpc(text)) is TransportFailure,
        health_of(ErrorView::Nfs4(status)) is SessionFailure || health_of(
            ErrorView::Nfs4(status),
        ) is ProtocolFailure,
        health_of(ErrorView::Nfs4(Nfs4ErrorCode::NFS4ERR_DELAY)) is ProtocolFailure,
        health_of(ErrorView::Nfs4(Nfs4ErrorCode::NFS4ERR_STALE_CLIENTID)) is ProtocolFailure,
        health_of(ErrorView::Xdr("renewal tag mismatch"@)) is IdentityMismatch,
        health_of(ErrorView::Unsupported(text)) is ProtocolFailure,
        health_of(ErrorView::InvalidInput(text)) is ProtocolFailure,
{
    reveal_strlit("renewal tag mismatch");
    reveal_strlit("mismatch");
    let message = "renewal tag mismatch"@;
    assert(message.subrange(12, 20) =~= "mismatch"@);
    assert(holds_text(message, "mismatch"@)) by {
        assert(message.subrange(12, 12int + "mismatch"@.len()) == "mismatch"@);
    }
}


} // verus!
