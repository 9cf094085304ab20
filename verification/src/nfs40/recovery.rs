//! The identity of an NFSv4.0 client and the recovery of its state after the server
//! restarted.

use bytes::Bytes;
use vstd::prelude::*;
use vstd::string::StringExecFns;
use vstd::utf8::encode_utf8;

use crate::buffer::{as_slice, contents, same_bytes};
use crate::error::{
    outcome_error, xdr_error, ErrorView, NFSVersion, NfsError, OperationClass, OperationOutcome,
    RecoveryAction, RequestContext, Result,
};
use crate::nfs4::compound::{Decoded, RawRequest, OP_GETFH, OP_PUTFH};
use crate::nfs40::callback::CB_PROGRAM;
use crate::nfs40::compound::{
    decode_lock_response, decode_open_response, lock_new_wire, lock_response, open_reclaim_wire,
    open_response, setclientid_wire, CallbackAddress, CompoundBuilder, LockRange, NewLockArgs,
    OpenReclaimArgs, SetClientIdArgs, OP_LOCK, OP_OPEN, OP_SETCLIENTID, OP_SETCLIENTID_CONFIRM,
};
use crate::nfs40::lease::{lost, LeaseState, MountLifecycleState};
use crate::nfs40::locking::{bumped, lock_begun, new_lock, LockAttempt};
use crate::nfs40::mount::{name_owner, owner_name, plain_context, text_bytes, Mount40, MountView};
use crate::nfs40::names::empty_request;
use crate::nfs40::state::{
    lane_ids, LockLane, LockLaneView, LockView, OpenView, OwnerLane, OwnerLaneView,
};
use crate::random::random_number;
use crate::text::{hex_padded, push_hex_padded};
use crate::wire::{holds, number, Fields};
use crate::xdr::{be32, be64, opaque, xdr_u64};

verus! {

/// Who a client is: a verifier that changes when it restarts, and a name.
#[derive(Clone, Debug)]
pub struct ClientIdentity {
    pub verifier: [u8; 8],
    pub owner: String,
}

/// Whether an identity is that of a verifier and a number.
pub open spec fn identity_is(identity: ClientIdentity, verifier: Seq<u8>, number: u64) -> bool {
    &&& identity.verifier@ == verifier
    &&& identity.owner@ == "nfs-rs-v4.0-"@ + hex_padded(number as nat, 16)
}

/// The verifier that holds a number.
fn verifier_of(number: u64) -> (verifier: [u8; 8])
    ensures
        verifier@ == be64(number),
{
    let mut bytes: Vec<u8> = Vec::new();
    xdr_u64(&mut bytes, number);
    assert(bytes@ =~= be64(number));
    let verifier: [u8; 8] = [
        bytes[0],
        bytes[1],
        bytes[2],
        bytes[3],
        bytes[4],
        bytes[5],
        bytes[6],
        bytes[7],
    ];
    assert(verifier@ =~= be64(number));
    verifier
}

impl ClientIdentity {
    /// A new identity. Its verifier and the number in its name are drawn at random.
    pub fn new() -> (identity: Self)
        ensures
            exists|seed: u64, number: u64| #[trigger]
                identity_is(identity, be64(seed), number),
    {
        let seed: u64 = random_number();
        let number: u64 = random_number();
        let identity = Self::of(verifier_of(seed), number);
        assert(identity_is(identity, be64(seed), number));
        identity
    }

    /// The identity of a verifier and a number.
    pub fn of(verifier: [u8; 8], number: u64) -> (identity: Self)
        ensures
            identity_is(identity, verifier@, number),
    {
        let mut owner = String::from_str("nfs-rs-v4.0-");
        push_hex_padded(&mut owner, number, 16);
        ClientIdentity { verifier, owner }
    }
}

/// The request that introduces a client. Without an address there are no callbacks.
pub fn identity_request(
    identity: &ClientIdentity,
    callback_addr: Option<&str>,
) -> (request: CompoundBuilder)
    ensures
        request@ == empty_request("identity"@).with_op(
            OP_SETCLIENTID,
            match callback_addr {
                Some(addr) => setclientid_wire(
                    identity.verifier@,
                    encode_utf8(identity.owner@),
                    CB_PROGRAM,
                    "tcp"@,
                    addr@,
                    1,
                ),
                None => setclientid_wire(
                    identity.verifier@,
                    encode_utf8(identity.owner@),
                    0,
                    ""@,
                    ""@,
                    0,
                ),
            },
        ),
{
    let callback = match callback_addr {
        Some(addr) => CallbackAddress::tcp(addr, 1),
        None => CallbackAddress::disabled(),
    };
    let owner = text_bytes(identity.owner.as_str());
    CompoundBuilder::new("identity").setclientid(
        SetClientIdArgs { verifier: identity.verifier, owner: &owner, callback },
    )
}

/// The request that confirms a client.
pub fn identity_confirm_request(client_id: u64, verifier: [u8; 8]) -> (request: CompoundBuilder)
    ensures
        request@ == empty_request("confirm"@).with_op(
            OP_SETCLIENTID_CONFIRM,
            be64(client_id) + verifier@,
        ),
{
    CompoundBuilder::new("confirm").setclientid_confirm(client_id, verifier)
}

/// The request that reclaims an open file.
pub open spec fn reclaim_open(mount: MountView, lane: OwnerLaneView) -> RawRequest {
    empty_request("reclaim-open"@).with_op(OP_PUTFH, opaque(lane.fh)).with_op(
        OP_OPEN,
        open_reclaim_wire(
            0,
            lane.access,
            mount.client_id,
            encode_utf8(owner_name("nfs-rs-"@, mount.issuer, lane.owner)),
        ),
    ).with_op(OP_GETFH, Seq::empty())
}

/// The mount after the reply to the request that reclaims an open file, and whether the file
/// is open again. The server may neither ask for a confirmation nor name another file.
pub open spec fn open_reclaimed(mount: MountView, owner: u64, reply: Seq<u8>) -> (
    MountView,
    Decoded<()>,
) {
    match open_response(reply) {
        Err(error) => (mount, Err(error)),
        Ok((stateid, confirm, fh)) => {
            let lane = mount.state.lanes[owner];
            if confirm || !mount.state.lanes.contains_key(owner) || fh != lane.fh {
                (
                    mount,
                    Err(ErrorView::Xdr("NFSv4.0 reclaim OPEN returned incompatible state"@)),
                )
            } else {
                (
                    MountView {
                        state: OpenView {
                            lanes: mount.state.lanes.insert(
                                owner,
                                OwnerLaneView { stateid, next_seqid: 1, ..lane },
                            ),
                            ..mount.state
                        },
                        ..mount
                    },
                    Ok(()),
                )
            }
        },
    }
}

/// The request that reclaims a lock.
pub open spec fn reclaim_lock(mount: MountView, lock: LockLaneView, open: OwnerLaneView) -> RawRequest {
    empty_request("reclaim-lock"@).with_op(OP_PUTFH, opaque(lock.fh)).with_op(
        OP_LOCK,
        lock_new_wire(
            LockRange { lock_type: lock.lock_type, offset: lock.offset, length: lock.length },
            true,
            open.next_seqid,
            open.stateid,
            0,
            mount.client_id,
            lock.owner_wire,
        ),
    )
}

/// The mount with a lock whose state is another one now.
pub open spec fn lock_restated(mount: MountView, lane: u64, stateid: Seq<u8>) -> MountView {
    let lock = mount.locks.held[lane];
    MountView {
        locks: LockView {
            held: mount.locks.held.insert(lane, LockLaneView { stateid, next_seqid: 1, ..lock }),
            ..mount.locks
        }.rekeyed(lock.stateid, stateid, lane),
        ..mount
    }
}

/// The mount after the reply to the request that reclaims a lock, and whether the lock is
/// held again. The old state of the lock still leads to it.
pub open spec fn lock_reclaimed(mount: MountView, lane: u64, reply: Seq<u8>) -> (
    MountView,
    Decoded<()>,
) {
    match lock_response(reply, 12, "LOCK"@) {
        Err(error) => (mount, Err(error)),
        Ok(stateid) => (
            lock_restated(bumped(mount, mount.locks.held[lane].open_owner), lane, stateid),
            Ok(()),
        ),
    }
}

/// The error of a recovery that failed.
pub open spec fn recovery_failure(error: ErrorView) -> ErrorView {
    ErrorView::OperationOutcome {
        outcome: OperationOutcome::Uncertain,
        class: OperationClass::ReplaySensitive,
        recovery: RecoveryAction::Reopen,
        context: plain_context("nfs40_lease_recovery"@),
        source: Box::new(error),
    }
}

/// The mount once its state is lost.
pub open spec fn without_state(mount: MountView) -> MountView {
    MountView {
        lease: lost(mount.lease),
        state: OpenView { lanes: Map::empty(), by_fh: Map::empty() },
        locks: LockView { lanes: Map::empty(), aliases: Map::empty(), held: Map::empty() },
        ..mount
    }
}

/// Whether a lock is reclaimed no later than another: by open-owner, then by owner.
pub open spec fn reclaimed_before(locks: LockView, a: u64, b: u64) -> bool {
    let (x, y) = (locks.held[a], locks.held[b]);
    x.open_owner < y.open_owner || (x.open_owner == y.open_owner && x.owner <= y.owner)
}

/// What groups of locks hold, one group after another.
pub open spec fn joined(groups: Seq<Vec<u64>>) -> Seq<u64>
    decreases groups.len(),
{
    if groups.len() == 0 {
        Seq::empty()
    } else {
        joined(groups.drop_last()) + groups.last()@
    }
}

/// Whether groups of locks are those of one open-owner each, by ascending open-owner, and the
/// locks of a group are in the order in which they are reclaimed.
pub open spec fn grouped_by_open_owner(locks: LockView, groups: Seq<Vec<u64>>) -> bool {
    &&& forall|g: int| 0 <= g < groups.len() ==> (#[trigger] groups[g])@.len() > 0
    &&& forall|g: int, i: int|
        0 <= g < groups.len() && 0 <= i < groups[g]@.len() ==> {
            &&& locks.held.contains_key(#[trigger] groups[g]@[i])
            &&& locks.held[groups[g]@[i]].open_owner == locks.held[groups[g]@[0]].open_owner
        }
    &&& forall|g: int, i: int, j: int|
        0 <= g < groups.len() && 0 <= i <= j < groups[g]@.len() ==> reclaimed_before(
            locks,
            #[trigger] groups[g]@[i],
            #[trigger] groups[g]@[j],
        )
    &&& forall|g: int, h: int|
        0 <= g < h < groups.len() ==> locks.held[(#[trigger] groups[g])@[0]].open_owner
            < locks.held[(#[trigger] groups[h])@[0]].open_owner
}

impl Mount40 {
    /// Goes on as another client of the server: what was open and locked is reclaimed.
    pub fn begin_reclaim(&mut self, client_id: u64)
        requires
            old(self).wf(),
        ensures
            final(self).wf(),
            final(self)@ == (MountView {
                client_id,
                lease: LeaseState {
                    lifecycle: MountLifecycleState::Reclaiming,
                    ..old(self)@.lease
                },
                ..old(self)@
            }),
    {
        self.client_id = client_id;
        self.lease.mark_reclaiming();
    }

    /// The request that reclaims what an owner has open.
    pub fn reclaim_open_request(&self, owner: u64) -> (request: Option<CompoundBuilder>)
        requires
            self.wf(),
        ensures
            if self@.state.lanes.contains_key(owner) {
                request is Some && request->Some_0@ == reclaim_open(
                    self@,
                    self@.state.lanes[owner],
                )
            } else {
                request is None
            },
    {
        let lane = self.state.by_owner(owner)?;
        let owner_wire = text_bytes(name_owner("nfs-rs-", self.issuer, lane.owner).as_str());
        Some(
            CompoundBuilder::new("reclaim-open").putfh(as_slice(&lane.fh)).open_reclaim(
                OpenReclaimArgs {
                    seqid: 0,
                    share_access: lane.access,
                    client_id: self.client_id,
                    owner: &owner_wire,
                },
            ).getfh(),
        )
    }

    /// Takes in the reply to the request that reclaims what an owner has open.
    pub fn finish_reclaim_open(&mut self, owner: u64, reply: Bytes) -> (result: Result<()>)
        requires
            old(self).wf(),
        ensures
            final(self).wf(),
            ({
                let (mount, outcome) = open_reclaimed(old(self)@, owner, contents(reply));
                &&& final(self)@ == mount
                &&& match outcome {
                    Ok(_) => result is Ok,
                    Err(error) => result is Err && result->Err_0@ == error,
                }
            }),
    {
        let (reclaimed, fh) = decode_open_response(reply)?;
        let next: Option<OwnerLane> = match self.state.by_owner(owner) {
            None => None,
            Some(open) => if reclaimed.confirm_required || !same_bytes(&fh, &open.fh) {
                None
            } else {
                let mut next = open.copy();
                next.stateid = reclaimed.stateid;
                next.next_seqid = 1;
                Some(next)
            },
        };
        match next {
            None => Err(xdr_error("NFSv4.0 reclaim OPEN returned incompatible state")),
            Some(next) => {
                self.state.update(owner, next);
                Ok(())
            },
        }
    }

    /// The locks in the order in which they are reclaimed. Those of different open-owners do
    /// not depend on one another.
    pub fn reclaim_order(&self) -> (ids: Vec<u64>)
        requires
            self.wf(),
        ensures
            forall|i: int|
                0 <= i < ids@.len() ==> self@.locks.held.contains_key(#[trigger] ids@[i]),
            forall|i: int, j: int|
                0 <= i <= j < ids@.len() ==> reclaimed_before(
                    self@.locks,
                    #[trigger] ids@[i],
                    #[trigger] ids@[j],
                ),
            ids@.to_multiset() == lane_ids(self.locks.lanes).to_multiset(),
    {
        let all = self.locks.snapshot();
        let mut ids: Vec<u64> = Vec::new();
        let mut i: usize = 0;
        assert(all@.take(0) =~= Seq::empty());
        while i < all.len()
            invariant
                self.wf(),
                i <= all@.len(),
                ids@.to_multiset() == all@.take(i as int).to_multiset(),
                forall|k: int|
                    0 <= k < all@.len() ==> self@.locks.held.contains_key(#[trigger] all@[k]),
                forall|k: int|
                    0 <= k < ids@.len() ==> self@.locks.held.contains_key(#[trigger] ids@[k]),
                forall|a: int, b: int|
                    0 <= a <= b < ids@.len() ==> reclaimed_before(
                        self@.locks,
                        #[trigger] ids@[a],
                        #[trigger] ids@[b],
                    ),
            decreases all.len() - i,
        {
            let id: u64 = all[i];
            let ghost before = ids@;
            let mut at: usize = 0;
            while at < ids.len() && self.comes_before(ids[at], id)
                invariant
                    self.wf(),
                    at <= ids@.len(),
                    ids@ == before,
                    self@.locks.held.contains_key(id),
                    forall|k: int|
                        0 <= k < ids@.len() ==> self@.locks.held.contains_key(#[trigger] ids@[k]),
                    forall|k: int|
                        0 <= k < at ==> reclaimed_before(self@.locks, #[trigger] ids@[k], id),
                decreases ids.len() - at,
            {
                at += 1;
            }
            ids.insert(at, id);
            i += 1;
            proof {
                broadcast use vstd::seq_lib::group_to_multiset_ensures;

                assert(all@.take(i as int) =~= all@.take(i - 1).push(id));
                vstd::seq_lib::to_multiset_insert(before, at as int, id);
                assert forall|a: int, b: int| 0 <= a <= b < ids@.len() implies reclaimed_before(
                    self@.locks,
                    #[trigger] ids@[a],
                    #[trigger] ids@[b],
                ) by {
                    let x = if a < at { a } else { a - 1 };
                    let y = if b < at { b } else { b - 1 };
                    if a == at {
                        if b > at {
                            assert(!reclaimed_before(self@.locks, before[at as int], id));
                            assert(reclaimed_before(self@.locks, before[at as int], before[y]));
                        }
                    } else if b == at {
                        assert(reclaimed_before(self@.locks, before[a], id));
                    } else {
                        assert(reclaimed_before(self@.locks, before[x], before[y]));
                    }
                }
            }
        }
        assert(all@.take(all@.len() as int) =~= all@);
        ids
    }

    /// The locks in one group for each open-owner. The locks of a group are reclaimed one after
    /// another; the groups do not depend on one another.
    pub fn reclaim_groups(&self) -> (groups: Vec<Vec<u64>>)
        requires
            self.wf(),
        ensures
            grouped_by_open_owner(self@.locks, groups@),
            joined(groups@).to_multiset() == lane_ids(self.locks.lanes).to_multiset(),
    {
        let ids = self.reclaim_order();
        let ghost held = self@.locks.held;
        let mut groups: Vec<Vec<u64>> = Vec::new();
        let mut i: usize = 0;
        assert(ids@.take(0) =~= Seq::empty());
        while i < ids.len()
            invariant
                self.wf(),
                held == self@.locks.held,
                i <= ids@.len(),
                forall|k: int| 0 <= k < ids@.len() ==> held.contains_key(#[trigger] ids@[k]),
                forall|a: int, b: int|
                    0 <= a <= b < ids@.len() ==> reclaimed_before(
                        self@.locks,
                        #[trigger] ids@[a],
                        #[trigger] ids@[b],
                    ),
                grouped_by_open_owner(self@.locks, groups@),
                joined(groups@) == ids@.take(i as int),
                forall|g: int, k: int|
                    0 <= g < groups@.len() && i <= k < ids@.len()
                        ==> held[(#[trigger] groups@[g])@[0]].open_owner
                        < held[#[trigger] ids@[k]].open_owner,
            decreases ids.len() - i,
        {
            let first: u64 = ids[i];
            let ghost start = i as int;
            let mut group: Vec<u64> = Vec::new();
            group.push(first);
            i += 1;
            assert(group@ =~= ids@.subrange(start, i as int));
            while i < ids.len() && self.same_open_owner(first, ids[i])
                invariant
                    self.wf(),
                    held == self@.locks.held,
                    0 <= start < i <= ids@.len(),
                    first == ids@[start],
                    forall|k: int| 0 <= k < ids@.len() ==> held.contains_key(#[trigger] ids@[k]),
                    group@ == ids@.subrange(start, i as int),
                    forall|k: int|
                        start <= k < i ==> held[#[trigger] ids@[k]].open_owner
                            == held[first].open_owner,
                decreases ids.len() - i,
            {
                group.push(ids[i]);
                i += 1;
                assert(group@ =~= ids@.subrange(start, i as int));
            }
            let ghost before = groups@;
            groups.push(group);
            proof {
                assert(groups@.drop_last() =~= before);
                assert(ids@.take(i as int) =~= ids@.take(start) + group@);
                assert forall|k: int| i <= k < ids@.len() implies held[first].open_owner
                    < held[#[trigger] ids@[k]].open_owner by {
                    assert(reclaimed_before(self@.locks, ids@[start], ids@[i as int]));
                    assert(reclaimed_before(self@.locks, ids@[i as int], ids@[k]));
                }
                assert forall|a: int, b: int| 0 <= a <= b < group@.len() implies reclaimed_before(
                    self@.locks,
                    #[trigger] group@[a],
                    #[trigger] group@[b],
                ) by {
                    assert(reclaimed_before(self@.locks, ids@[start + a], ids@[start + b]));
                }
            }
        }
        assert(ids@.take(ids@.len() as int) =~= ids@);
        groups
    }

    fn same_open_owner(&self, a: u64, b: u64) -> (result: bool)
        requires
            self.wf(),
            self@.locks.held.contains_key(a),
            self@.locks.held.contains_key(b),
        ensures
            result == (self@.locks.held[a].open_owner == self@.locks.held[b].open_owner),
    {
        match (self.locks.lane(a), self.locks.lane(b)) {
            (Some(x), Some(y)) => x.open_owner == y.open_owner,
            _ => false,
        }
    }

    fn comes_before(&self, a: u64, b: u64) -> (result: bool)
        requires
            self.wf(),
            self@.locks.held.contains_key(a),
            self@.locks.held.contains_key(b),
        ensures
            result == reclaimed_before(self@.locks, a, b),
    {
        match (self.locks.lane(a), self.locks.lane(b)) {
            (Some(x), Some(y)) => x.open_owner < y.open_owner || (x.open_owner == y.open_owner
                && x.owner <= y.owner),
            _ => true,
        }
    }

    /// The request that reclaims a lock. The file has to be open.
    pub fn reclaim_lock_request(&self, lane: u64) -> (request: Result<CompoundBuilder>)
        requires
            self.wf(),
        ensures
            if self@.locks.held.contains_key(lane) && self@.state.lanes.contains_key(
                self@.locks.held[lane].open_owner,
            ) {
                &&& request is Ok
                &&& request->Ok_0@ == reclaim_lock(
                    self@,
                    self@.locks.held[lane],
                    self@.state.lanes[self@.locks.held[lane].open_owner],
                )
            } else {
                &&& request is Err
                &&& request->Err_0@ == ErrorView::Xdr(
                    "NFSv4.0 reclaim LOCK lost its open-owner"@,
                )
            },
    {
        if let Some(lock) = self.locks.lane(lane) {
            if let Some(open) = self.state.by_owner(lock.open_owner) {
                return Ok(
                    CompoundBuilder::new("reclaim-lock").putfh(as_slice(&lock.fh)).lock_new(
                        NewLockArgs {
                            lock_type: lock.lock_type,
                            reclaim: true,
                            offset: lock.offset,
                            length: lock.length,
                            open_seqid: open.next_seqid,
                            open_stateid: &open.stateid,
                            lock_seqid: 0,
                            client_id: self.client_id,
                            owner: as_slice(&lock.owner_wire),
                        },
                    ),
                );
            }
        }
        Err(xdr_error("NFSv4.0 reclaim LOCK lost its open-owner"))
    }

    /// Takes in the reply to the request that reclaims a lock.
    pub fn finish_reclaim_lock(&mut self, lane: u64, reply: Bytes) -> (result: Result<()>)
        requires
            old(self).wf(),
            old(self)@.locks.held.contains_key(lane),
        ensures
            final(self).wf(),
            ({
                let (mount, outcome) = lock_reclaimed(old(self)@, lane, contents(reply));
                &&& final(self)@ == mount
                &&& match outcome {
                    Ok(_) => result is Ok,
                    Err(error) => result is Err && result->Err_0@ == error,
                }
            }),
    {
        let stateid: [u8; 16] = decode_lock_response(reply, 12, "LOCK")?;
        let next: Option<(u64, [u8; 16], LockLane)> = match self.locks.lane(lane) {
            Some(lock) => {
                let mut next = lock.copy();
                next.stateid = stateid;
                next.next_seqid = 1;
                Some((lock.open_owner, lock.stateid, next))
            },
            None => None,
        };
        if let Some((open_owner, old_stateid, next)) = next {
            self.bump_open(open_owner);
            self.locks.update(lane, next);
            self.locks.rekey(&old_stateid, &stateid, lane);
        }
        Ok(())
    }

    /// Gives up what was open and locked after a recovery that failed.
    pub fn lose_state(&mut self, error: NfsError) -> (out: NfsError)
        requires
            old(self).wf(),
        ensures
            final(self).wf(),
            final(self)@ == without_state(old(self)@),
            out@ == recovery_failure(error@),
    {
        self.lease.mark_lost();
        self.state.clear();
        self.locks.clear();
        outcome_error(
            OperationOutcome::Uncertain,
            OperationClass::ReplaySensitive,
            RecoveryAction::Reopen,
            RequestContext {
                operation: String::from_str("nfs40_lease_recovery"),
                protocol: NFSVersion::NFSv4p0,
                request_id: None,
            },
            error,
        )
    }
}

/// Why a mount failed whose every address failed: the last failure, if there was an address.
pub fn mount_failure(last_error: Option<NfsError>) -> (error: NfsError)
    ensures
        match last_error {
            Some(last) => error == last,
            None => error@ == ErrorView::Rpc("NFSv4.0 resolved no addresses"@),
        },
{
    match last_error {
        Some(error) => error,
        None => NfsError::Rpc(String::from_str("NFSv4.0 resolved no addresses")),
    }
}

/// A lock that was reclaimed goes by its new state and still by its old one.
pub proof fn law_reclaimed_lock_keeps_its_names(mount: MountView, lane: u64, reply: Seq<u8>)
    requires
        mount.locks.wf(),
        mount.locks.held.contains_key(lane),
        lock_reclaimed(mount, lane, reply).1 is Ok,
    ensures
        ({
            let after = lock_reclaimed(mount, lane, reply).0;
            &&& after.locks.named(after.locks.held[lane].stateid) == Some(lane)
            &&& after.locks.named(mount.locks.held[lane].stateid) == Some(lane)
        }),
{
}

/// Once state is lost nothing is open or locked, and what began before is fenced off.
pub proof fn law_lost_state_is_gone(mount: MountView, owner: u64, stateid: Seq<u8>)
    ensures
        !without_state(mount).state.lanes.contains_key(owner),
        without_state(mount).locks.named(stateid) is None,
        without_state(mount).lease.generation != mount.lease.generation,
        crate::nfs40::lease::fence(
            without_state(mount).lease,
            mount.lease.generation,
            "open"@,
        ) is Err,
{
}

/// The reclaim of a lock asks, as a reclaim, for the type and the range of the lock, by its own
/// owner, on the open file whose number comes next.
pub proof fn law_reclaim_names_the_lock(mount: MountView, lock: LockLaneView, open: OwnerLaneView)
    requires
        lock.fh.len() <= u32::MAX,
        lock.owner_wire.len() <= u32::MAX,
    ensures
        ({
            let request = reclaim_lock(mount, lock, open);
            &&& request.minor == 0
            &&& request.ops.len() == 2
            &&& request.ops[0].opcode == 22
            &&& holds(request.ops[0].args, Fields::Start.counted(lock.fh))
            &&& request.ops[1].opcode == 12
            &&& holds(
                request.ops[1].args,
                Fields::Start.word(lock.lock_type).flag(true).hyper(lock.offset).hyper(
                    lock.length,
                ).flag(true).word(open.next_seqid).bytes(open.stateid).word(0).hyper(
                    mount.client_id,
                ).counted(lock.owner_wire),
            )
            &&& number(request.ops[1].args.take(4)) == lock.lock_type
            &&& number(request.ops[1].args.subrange(8, 16)) == lock.offset
            &&& number(request.ops[1].args.subrange(16, 24)) == lock.length
        }),
{
    broadcast use crate::wire::group_fields;

    let args = reclaim_lock(mount, lock, open).ops[1].args;
    crate::wire::law_word_is_a_number(lock.lock_type);
    crate::wire::law_hyper_is_a_number(lock.offset);
    crate::wire::law_hyper_is_a_number(lock.length);
    assert(args.take(4) =~= be32(lock.lock_type));
    assert(args.subrange(8, 16) =~= be64(lock.offset));
    assert(args.subrange(16, 24) =~= be64(lock.length));
}

/// A lock is reclaimed with the request that took it: the same file, the same type, the same
/// range and the same owner; only that it is a reclaim, and what the open file is now, differ.
pub proof fn law_reclaim_repeats_the_lock(
    before: MountView,
    open_owner: u64,
    fh: Seq<u8>,
    range: LockRange,
    attempt: LockAttempt,
    after: MountView,
    stateid: Seq<u8>,
    mount: MountView,
    open: OwnerLaneView,
)
    requires
        lock_begun(before, open_owner, fh, range, Ok(attempt), after),
        before.state.lanes[open_owner].stateid.len() == 16,
        open.stateid.len() == 16,
    ensures
        ({
            let taken = attempt.request@.ops;
            let again = reclaim_lock(mount, new_lock(attempt, stateid), open).ops;
            &&& again.len() == taken.len()
            &&& again[0] == taken[0]
            &&& again[1].opcode == taken[1].opcode
            &&& again[1].args.take(4) == taken[1].args.take(4)
            &&& again[1].args.subrange(8, 28) == taken[1].args.subrange(8, 28)
            &&& again[1].args.skip(60) == taken[1].args.skip(60)
        }),
{
    let taken = attempt.request@.ops[1].args;
    let again = reclaim_lock(mount, new_lock(attempt, stateid), open).ops[1].args;
    let owner = opaque(crate::nfs40::locking::lock_owner(before));
    assert(crate::nfs40::mount::gate(before, "lock"@) is Ok);
    assert(taken.take(4) =~= be32(range.lock_type));
    assert(again.take(4) =~= be32(range.lock_type));
    let range_bytes = be64(range.offset) + be64(range.length) + be32(1);
    assert(taken.subrange(8, 28) =~= range_bytes);
    assert(again.subrange(8, 28) =~= range_bytes);
    assert(taken.skip(60) =~= owner);
    assert(again.skip(60) =~= owner);
}

/// The reclaim of an open file asks for the access that it had, denies nothing, and is made in
/// the name of its owner, which starts its count anew.
pub proof fn law_reclaim_names_the_open_file(mount: MountView, lane: OwnerLaneView)
    requires
        lane.fh.len() <= u32::MAX,
        encode_utf8(owner_name("nfs-rs-"@, mount.issuer, lane.owner)).len() <= u32::MAX,
    ensures
        ({
            let request = reclaim_open(mount, lane);
            &&& request.minor == 0
            &&& request.ops.len() == 3
            &&& request.ops[0].opcode == 22
            &&& holds(request.ops[0].args, Fields::Start.counted(lane.fh))
            &&& request.ops[1].opcode == 18
            &&& holds(
                request.ops[1].args,
                Fields::Start.word(0).word(lane.access).word(0).hyper(mount.client_id).counted(
                    encode_utf8(owner_name("nfs-rs-"@, mount.issuer, lane.owner)),
                ).word(0).word(1).word(0),
            )
            &&& request.ops[2].opcode == 10
            &&& holds(request.ops[2].args, Fields::Start)
        }),
{
    broadcast use crate::wire::group_fields;

}


/// An open file is reclaimed where the server gave back the same file without asking for a
/// confirmation: it goes on with the stateid that the server gave and the number one, and keeps
/// the rest; other files stay, and where it is not reclaimed nothing changes.
pub proof fn law_reclaimed_file_goes_on(
    mount: MountView,
    owner: u64,
    reply: Seq<u8>,
    stateid: Seq<u8>,
    confirm: bool,
    fh: Seq<u8>,
    other: u64,
)
    requires
        open_response(reply) == Ok::<(Seq<u8>, bool, Seq<u8>), ErrorView>((stateid, confirm, fh)),
        mount.state.lanes.contains_key(owner),
        other != owner,
    ensures
        ({
            let (after, result) = open_reclaimed(mount, owner, reply);
            let (old_lane, lane) = (mount.state.lanes[owner], after.state.lanes[owner]);
            &&& result is Ok <==> !confirm && fh == old_lane.fh
            &&& result is Err ==> after == mount
            &&& result is Ok ==> {
                &&& lane.stateid == stateid
                &&& lane.next_seqid == 1
                &&& lane.fh == old_lane.fh
                &&& lane.access == old_lane.access
                &&& lane.owner == old_lane.owner
                &&& lane.write_verifier == old_lane.write_verifier
            }
            &&& after.state.lanes[other] == mount.state.lanes[other]
            &&& after.state.lanes.contains_key(other) == mount.state.lanes.contains_key(other)
            &&& after.locks == mount.locks
            &&& after.lease == mount.lease
        }),
{
}

/// A lock is reclaimed with the stateid that the server gave: it goes on with the number one and
/// keeps its file, its range, its type and its owner; the open file by which it was reclaimed
/// has used up its number.
pub proof fn law_reclaimed_lock_goes_on(
    mount: MountView,
    lane: u64,
    reply: Seq<u8>,
    stateid: Seq<u8>,
    other: u64,
)
    requires
        lock_response(reply, 12, "LOCK"@) == Ok::<Seq<u8>, ErrorView>(stateid),
        mount.locks.held.contains_key(lane),
        mount.state.lanes.contains_key(mount.locks.held[lane].open_owner),
        mount.state.lanes[mount.locks.held[lane].open_owner].next_seqid < u32::MAX,
        other != lane,
    ensures
        ({
            let (after, result) = lock_reclaimed(mount, lane, reply);
            let (was, is_now) = (mount.locks.held[lane], after.locks.held[lane]);
            &&& result is Ok
            &&& is_now.stateid == stateid
            &&& is_now.next_seqid == 1
            &&& is_now.fh == was.fh
            &&& is_now.lock_type == was.lock_type
            &&& is_now.offset == was.offset
            &&& is_now.length == was.length
            &&& is_now.owner == was.owner
            &&& is_now.owner_wire == was.owner_wire
            &&& is_now.open_owner == was.open_owner
            &&& after.locks.held[other] == mount.locks.held[other]
            &&& after.state.lanes[was.open_owner].next_seqid
                == mount.state.lanes[was.open_owner].next_seqid + 1
            &&& after.lease == mount.lease
        }),
{
}

/// SETCLIENTID names the boot of the client, its owner, and where to call it back: the program,
/// the network, the address and the number under which it will know the callback.
pub proof fn law_identity_names_the_client(
    verifier: Seq<u8>,
    owner: Seq<u8>,
    program: u32,
    netid: Seq<char>,
    addr: Seq<char>,
    ident: u32,
)
    requires
        owner.len() <= u32::MAX,
        encode_utf8(netid).len() <= u32::MAX,
        encode_utf8(addr).len() <= u32::MAX,
    ensures
        holds(
            setclientid_wire(verifier, owner, program, netid, addr, ident),
            Fields::Start.bytes(verifier).counted(owner).word(program).counted(
                encode_utf8(netid),
            ).counted(encode_utf8(addr)).word(ident),
        ),
{
    broadcast use crate::wire::group_fields;

}

/// Clients with different numbers have different names.
pub proof fn law_identities_are_distinct(
    a: ClientIdentity,
    b: ClientIdentity,
    verifier: Seq<u8>,
    other: Seq<u8>,
    m: u64,
    n: u64,
)
    requires
        identity_is(a, verifier, m),
        identity_is(b, other, n),
        m != n,
    ensures
        a.owner@ != b.owner@,
{
    let prefix = "nfs-rs-v4.0-"@;
    let k = prefix.len() as int;
    crate::text::lemma_sixteen_digits_hold_a_hyper(m);
    crate::text::lemma_sixteen_digits_hold_a_hyper(n);
    crate::text::law_padded_hex_is_read_back(m as nat, 16);
    crate::text::law_padded_hex_is_read_back(n as nat, 16);
    assert((prefix + hex_padded(m as nat, 16)).skip(k) =~= hex_padded(m as nat, 16));
    assert((prefix + hex_padded(n as nat, 16)).skip(k) =~= hex_padded(n as nat, 16));
}


} // verus!
