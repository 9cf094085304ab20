//! Locks of an NFSv4.0 mount: LOCK, LOCKT, LOCKU and the release of lock-owners.

use bytes::Bytes;
use vstd::prelude::*;
use vstd::utf8::encode_utf8;

use crate::buffer::{
    as_slice, contents, copy_from_slice, duplicate, from_vec, remaining, same_bytes, take_array,
};
use crate::error::{input_error, ErrorView, Result};
use crate::nfs4::compound::{Decoded, RawRequest, OP_PUTFH};
use crate::nfs40::compound::{
    decode_lock_response, decode_release_lockowner_response, lock_new_wire, lock_response,
    single_response, CompoundBuilder, LockRange, NewLockArgs, OP_LOCK, OP_LOCKT, OP_LOCKU,
    OP_RELEASE_LOCKOWNER,
};
use crate::nfs40::lease::fence;
use crate::nfs40::mount::{
    answered, consumes_owner_seqid, consumes_seqid, failed, gate, in_use, name_owner, owner_name,
    reply_view, sent_failure, settled, text_bytes, Mount40, MountView, OPEN_READ, OPEN_WRITE,
};
use crate::nfs40::state::{
    decode_owner, owner_of_bytes, LockLane, LockLaneView, LockView, OpenView, OwnerLane,
    OwnerLaneView,
};
use crate::wire::{holds, Fields};
use crate::xdr::{be32, be64, opaque};

verus! {

/// A lock as its holder knows it.
#[derive(Debug)]
pub struct LockToken {
    pub fh: Bytes,
    pub stateid: Bytes,
    pub lock_type: u32,
    pub offset: u64,
    pub length: u64,
    pub issuer: u64,
    pub generation: u64,
}

/// A LOCK that is on its way.
#[derive(Debug)]
pub struct LockAttempt {
    /// The generation in which it began.
    pub generation: u64,
    pub owner: u64,
    pub open_owner: u64,
    pub owner_wire: Bytes,
    pub fh: Bytes,
    pub lock_type: u32,
    pub offset: u64,
    pub length: u64,
    pub request: CompoundBuilder,
}

/// A LOCKU that is on its way.
#[derive(Debug)]
pub struct UnlockAttempt {
    /// The generation in which it began.
    pub generation: u64,
    pub client_id: u64,
    /// The lane of the lock.
    pub lane: u64,
    pub stateid: [u8; 16],
    pub owner: u64,
    pub seqid: u32,
    pub owner_wire: Bytes,
    pub request: CompoundBuilder,
}

/// A RELEASE_LOCKOWNER that is on its way.
#[derive(Debug)]
pub struct ReleaseAttempt {
    /// The generation in which the unlocking began.
    pub generation: u64,
    pub owner: u64,
    pub request: CompoundBuilder,
}

/// Whether a lock can be asked for.
pub open spec fn lockable(lock_type: u32, length: u64) -> bool {
    (lock_type == 1 || lock_type == 2) && length != 0
}

/// The access that a lock needs.
pub open spec fn lock_access(lock_type: u32) -> u32 {
    if lock_type == 1 {
        OPEN_READ
    } else {
        OPEN_WRITE
    }
}

/// The name of a lock-owner on the wire.
pub open spec fn lock_owner(mount: MountView) -> Seq<u8> {
    encode_utf8(owner_name("nfs-rs-lock-"@, mount.issuer, mount.next_owner))
}

/// The request for a lock.
pub open spec fn lock_request(mount: MountView, open: OwnerLaneView, fh: Seq<u8>, range: LockRange) -> RawRequest {
    RawRequest { tag: "lock"@, minor: 0, ops: Seq::empty() }.with_op(OP_PUTFH, opaque(fh)).with_op(
        OP_LOCK,
        lock_new_wire(
            range,
            false,
            open.next_seqid,
            open.stateid,
            0,
            mount.client_id,
            lock_owner(mount),
        ),
    )
}

/// Whether a LOCK was begun for an open-owner.
pub open spec fn lock_begun(
    before: MountView,
    open_owner: u64,
    fh: Seq<u8>,
    range: LockRange,
    attempt: Result<LockAttempt>,
    after: MountView,
) -> bool {
    match gate(before, "lock"@) {
        Err(error) => {
            &&& attempt is Err
            &&& attempt->Err_0@ == error
            &&& after == before
        },
        Ok(generation) => {
            &&& attempt is Ok
            &&& attempt->Ok_0.generation == generation
            &&& attempt->Ok_0.owner == before.next_owner
            &&& attempt->Ok_0.open_owner == open_owner
            &&& contents(attempt->Ok_0.owner_wire) == lock_owner(before)
            &&& contents(attempt->Ok_0.fh) == fh
            &&& attempt->Ok_0.lock_type == range.lock_type
            &&& attempt->Ok_0.offset == range.offset
            &&& attempt->Ok_0.length == range.length
            &&& attempt->Ok_0.request@ == lock_request(
                before,
                before.state.lanes[open_owner],
                fh,
                range,
            )
            &&& after == (MountView { next_owner: before.next_owner.wrapping_add(1), ..before })
        },
    }
}

/// Whether an attempt was refused for its input and changed nothing.
pub open spec fn refused<T>(attempt: Result<T>, text: Seq<char>, before: MountView, after: MountView) -> bool {
    &&& attempt is Err
    &&& attempt->Err_0@ == ErrorView::InvalidInput(text)
    &&& after == before
}

/// The open-owner that a range of an open file is locked for, or why there is none.
pub open spec fn locking_owner(
    mount: MountView,
    fh: Seq<u8>,
    lock_type: u32,
    length: u64,
) -> Decoded<u64> {
    if !lockable(lock_type, length) {
        Err(ErrorView::InvalidInput("LOCK requires type 1/2 and non-zero length"@))
    } else {
        match mount.state.chosen(fh, lock_access(lock_type)) {
            Some(open_owner) => Ok(open_owner),
            None => Err(ErrorView::InvalidInput("NFSv4.0 LOCK requires a compatible open file"@)),
        }
    }
}

/// The open-owner that the state of an open file names, or why there is none.
pub open spec fn token_locking_owner(
    mount: MountView,
    protocol_state: Option<Bytes>,
    lock_type: u32,
    length: u64,
) -> Decoded<u64> {
    if !lockable(lock_type, length) {
        Err(ErrorView::InvalidInput("LOCK requires type 1/2 and non-zero length"@))
    } else {
        match open_token(protocol_state) {
            None => Err(ErrorView::InvalidInput("open token has no NFSv4.0 owner state"@)),
            Some((issuer, owner)) => if issuer != mount.issuer {
                Err(ErrorView::InvalidInput("open token belongs to another mount generation"@))
            } else if !mount.state.lanes.contains_key(owner) {
                Err(ErrorView::InvalidInput("open token is stale or already closed"@))
            } else {
                Ok(owner)
            },
        }
    }
}

/// Whether an attempt is the one that gives up the lock of a lane.
pub open spec fn unlock_begun(mount: MountView, lane: u64, attempt: UnlockAttempt) -> bool {
    let lock = mount.locks.held[lane];
    &&& attempt.generation == mount.lease.generation
    &&& attempt.client_id == mount.client_id
    &&& attempt.lane == lane
    &&& attempt.stateid@ == lock.stateid
    &&& attempt.owner == lock.owner
    &&& attempt.seqid == lock.next_seqid
    &&& contents(attempt.owner_wire) == lock.owner_wire
    &&& attempt.request@ == unlock_request(lock)
}

/// The mount after the sequence number of an open-owner was used up.
pub open spec fn bumped(mount: MountView, open_owner: u64) -> MountView {
    if mount.state.lanes.contains_key(open_owner) {
        let lane = mount.state.lanes[open_owner];
        MountView {
            state: OpenView {
                lanes: mount.state.lanes.insert(
                    open_owner,
                    OwnerLaneView { next_seqid: lane.next_seqid.wrapping_add(1), ..lane },
                ),
                ..mount.state
            },
            ..mount
        }
    } else {
        mount
    }
}

/// The lock that a LOCK leads to.
pub open spec fn new_lock(attempt: LockAttempt, stateid: Seq<u8>) -> LockLaneView {
    LockLaneView {
        owner: attempt.owner,
        open_owner: attempt.open_owner,
        owner_wire: contents(attempt.owner_wire),
        next_seqid: 1,
        stateid,
        fh: contents(attempt.fh),
        lock_type: attempt.lock_type,
        offset: attempt.offset,
        length: attempt.length,
    }
}

/// The mount after the reply to a LOCK, up to the lock itself, and the state of the lock.
pub open spec fn lock_replied(
    mount: MountView,
    attempt: LockAttempt,
    reply: Decoded<Seq<u8>>,
    now: u64,
) -> (MountView, Decoded<Seq<u8>>) {
    match answered("lock"@, attempt.owner, 0, reply) {
        Err(error) => (mount, Err(error)),
        Ok(bytes) => {
            let decoded = lock_response(bytes, 12, "LOCK"@);
            let after = if consumes_seqid(decoded) {
                bumped(mount, attempt.open_owner)
            } else {
                mount
            };
            match decoded {
                Err(error) => (after, Err(failed("lock"@, attempt.owner, 0, error))),
                Ok(stateid) => match fence(mount.lease, attempt.generation, "lock"@) {
                    Err(error) => (after, Err(error)),
                    Ok(_) => (in_use(after, now), Ok(stateid)),
                },
            }
        },
    }
}

/// The mount after the sequence number of a lock-owner was used up.
pub open spec fn lock_bumped(mount: MountView, lane: u64) -> MountView {
    if mount.locks.held.contains_key(lane) {
        let lock = mount.locks.held[lane];
        MountView {
            locks: LockView {
                held: mount.locks.held.insert(
                    lane,
                    LockLaneView { next_seqid: lock.next_seqid.wrapping_add(1), ..lock },
                ),
                ..mount.locks
            },
            ..mount
        }
    } else {
        mount
    }
}

/// The request that gives a lock up.
pub open spec fn unlock_request(lock: LockLaneView) -> RawRequest {
    RawRequest { tag: "locku"@, minor: 0, ops: Seq::empty() }.with_op(
        OP_PUTFH,
        opaque(lock.fh),
    ).with_op(
        OP_LOCKU,
        be32(lock.lock_type) + be32(lock.next_seqid) + lock.stateid + be64(lock.offset) + be64(
            lock.length,
        ),
    )
}

/// The request that lets the server forget a lock-owner.
pub open spec fn release_request(client_id: u64, owner_wire: Seq<u8>) -> RawRequest {
    RawRequest { tag: "release-lockowner"@, minor: 0, ops: Seq::empty() }.with_op(
        OP_RELEASE_LOCKOWNER,
        be64(client_id) + opaque(owner_wire),
    )
}

/// Why a lock cannot be given up, if it cannot.
pub open spec fn unlock_refusal(
    mount: MountView,
    fh: Seq<u8>,
    stateid: Seq<u8>,
    lock_type: u32,
    offset: u64,
    length: u64,
) -> Option<ErrorView> {
    match gate(mount, "locku"@) {
        Err(error) => Some(error),
        Ok(_) => if stateid.len() != 16 {
            Some(ErrorView::InvalidInput("lock_stateid must be 16 bytes"@))
        } else {
            match mount.locks.named(stateid) {
                None => Some(
                    ErrorView::InvalidInput(
                        "NFSv4.0 lock state is unknown or already released"@,
                    ),
                ),
                Some(id) => {
                    let lock = mount.locks.held[id];
                    if lock.fh != fh || lock.lock_type != lock_type || lock.offset != offset
                        || lock.length != length {
                        Some(
                            ErrorView::InvalidInput(
                                "LOCKU parameters do not match the acquired lock"@,
                            ),
                        )
                    } else {
                        None
                    }
                },
            }
        },
    }
}

/// The mount after the reply to a LOCKU, and whether it was done.
pub open spec fn unlock_replied(mount: MountView, attempt: UnlockAttempt, reply: Decoded<Seq<u8>>) -> (
    MountView,
    Decoded<()>,
) {
    match answered("locku"@, attempt.owner, attempt.seqid, reply) {
        Err(error) => (mount, Err(error)),
        Ok(bytes) => {
            let decoded = lock_response(bytes, 14, "LOCKU"@);
            let after = if consumes_seqid(decoded) {
                lock_bumped(mount, attempt.lane)
            } else {
                mount
            };
            match decoded {
                Err(error) => (
                    after,
                    Err(failed("locku"@, attempt.owner, attempt.seqid, error)),
                ),
                Ok(_) => (
                    MountView { locks: after.locks.without(attempt.stateid@), ..after },
                    Ok(()),
                ),
            }
        },
    }
}

/// Whether a lock-owner was released.
pub open spec fn released(mount: MountView, attempt: ReleaseAttempt, reply: Decoded<Seq<u8>>) -> Decoded<
    (),
> {
    match answered("release_lockowner"@, attempt.owner, 0, reply) {
        Err(error) => Err(error),
        Ok(bytes) => match single_response(
            bytes,
            OP_RELEASE_LOCKOWNER,
            "RELEASE_LOCKOWNER"@,
        ) {
            Err(error) => Err(failed("release_lockowner"@, attempt.owner, 0, error)),
            Ok(_) => fence(mount.lease, attempt.generation, "locku"@),
        },
    }
}

impl Mount40 {
    /// Begins to lock a range for an open-owner.
    fn start_lock(&mut self, open_owner: u64, fh: &Bytes, lock_type: u32, offset: u64, length: u64) -> (attempt:
        Result<LockAttempt>)
        requires
            old(self).wf(),
            old(self)@.state.lanes.contains_key(open_owner),
        ensures
            final(self).wf(),
            lock_begun(
                old(self)@,
                open_owner,
                contents(*fh),
                (LockRange { lock_type, offset, length }),
                attempt,
                final(self)@,
            ),
    {
        let generation: u64 = self.lease.begin_stateful("lock")?;
        let owner: u64 = self.take_owner();
        let owner_wire = text_bytes(name_owner("nfs-rs-lock-", self.issuer, owner).as_str());
        let (open_seqid, open_stateid): (u32, [u8; 16]) = match self.state.by_owner(open_owner) {
            Some(open) => (open.next_seqid, open.stateid),
            None => (0, [0u8; 16]),
        };
        let request = CompoundBuilder::new("lock").putfh(as_slice(fh)).lock_new(
            NewLockArgs {
                lock_type,
                reclaim: false,
                offset,
                length,
                open_seqid,
                open_stateid: &open_stateid,
                lock_seqid: 0,
                client_id: self.client_id,
                owner: &owner_wire,
            },
        );
        Ok(
            LockAttempt {
                generation,
                owner,
                open_owner,
                owner_wire: from_vec(owner_wire),
                fh: duplicate(fh),
                lock_type,
                offset,
                length,
                request,
            },
        )
    }

    /// The open-owner whose turn a LOCK of an open file has to wait for.
    pub fn choose_lock_owner(&self, fh: &Bytes, lock_type: u32, length: u64) -> (owner: Result<u64>)
        requires
            self.wf(),
        ensures
            match locking_owner(self@, contents(*fh), lock_type, length) {
                Ok(expected) => owner is Ok && owner->Ok_0 == expected
                    && self@.state.lanes.contains_key(expected),
                Err(error) => owner is Err && owner->Err_0@ == error,
            },
    {
        if !(lock_type == 1 || lock_type == 2) || length == 0 {
            return Err(input_error("LOCK requires type 1/2 and non-zero length"));
        }
        let access: u32 = if lock_type == 1 { OPEN_READ } else { OPEN_WRITE };
        match self.state.for_fh(fh, access) {
            Some(owner) => {
                proof {
                    lemma_chosen_is_open(self@.state, contents(*fh), access);
                }
                Ok(owner)
            },
            None => Err(input_error("NFSv4.0 LOCK requires a compatible open file")),
        }
    }

    /// The open-owner whose turn a LOCK by the state of an open file has to wait for.
    pub fn choose_token_lock_owner(
        &self,
        protocol_state: &Option<Bytes>,
        lock_type: u32,
        length: u64,
    ) -> (owner: Result<u64>)
        requires
            self.wf(),
        ensures
            match token_locking_owner(self@, *protocol_state, lock_type, length) {
                Ok(expected) => owner is Ok && owner->Ok_0 == expected,
                Err(error) => owner is Err && owner->Err_0@ == error,
            },
    {
        if !(lock_type == 1 || lock_type == 2) || length == 0 {
            return Err(input_error("LOCK requires type 1/2 and non-zero length"));
        }
        let named: Option<(u64, u64)> = match protocol_state {
            Some(state) => decode_owner(state),
            None => None,
        };
        let (issuer, owner): (u64, u64) = match named {
            Some(named) => named,
            None => {
                return Err(input_error("open token has no NFSv4.0 owner state"));
            },
        };
        if issuer != self.issuer {
            return Err(input_error("open token belongs to another mount generation"));
        }
        if self.state.by_owner(owner).is_none() {
            return Err(input_error("open token is stale or already closed"));
        }
        Ok(owner)
    }

    /// Begins to lock a range of a file that is open.
    pub fn begin_lock(&mut self, fh: &Bytes, lock_type: u32, offset: u64, length: u64) -> (attempt: Result<
        LockAttempt,
    >)
        requires
            old(self).wf(),
        ensures
            final(self).wf(),
            match locking_owner(old(self)@, contents(*fh), lock_type, length) {
                Err(error) => attempt is Err && attempt->Err_0@ == error && final(self)@
                    == old(self)@,
                Ok(open_owner) => lock_begun(
                    old(self)@,
                    open_owner,
                    contents(*fh),
                    (LockRange { lock_type, offset, length }),
                    attempt,
                    final(self)@,
                ),
            },
    {
        let open_owner: u64 = self.choose_lock_owner(fh, lock_type, length)?;
        self.start_lock(open_owner, fh, lock_type, offset, length)
    }

    /// Begins to lock a range of a file by the state that opening it left behind.
    pub fn begin_lock_open(
        &mut self,
        fh: &Bytes,
        protocol_state: &Option<Bytes>,
        lock_type: u32,
        offset: u64,
        length: u64,
    ) -> (attempt: Result<LockAttempt>)
        requires
            old(self).wf(),
        ensures
            final(self).wf(),
            match token_locking_owner(old(self)@, *protocol_state, lock_type, length) {
                Err(error) => attempt is Err && attempt->Err_0@ == error && final(self)@
                    == old(self)@,
                Ok(open_owner) => lock_begun(
                    old(self)@,
                    open_owner,
                    contents(*fh),
                    (LockRange { lock_type, offset, length }),
                    attempt,
                    final(self)@,
                ),
            },
    {
        let open_owner: u64 = self.choose_token_lock_owner(protocol_state, lock_type, length)?;
        self.start_lock(open_owner, fh, lock_type, offset, length)
    }

    /// Uses up the sequence number of an open-owner.
    pub(crate) fn bump_open(&mut self, open_owner: u64)
        requires
            old(self).wf(),
        ensures
            final(self).wf(),
            final(self)@ == bumped(old(self)@, open_owner),
    {
        let lane: Option<OwnerLane> = match self.state.by_owner(open_owner) {
            Some(open) => {
                let mut lane = open.copy();
                lane.next_seqid = lane.next_seqid.wrapping_add(1);
                Some(lane)
            },
            None => None,
        };
        if let Some(lane) = lane {
            self.state.update(open_owner, lane);
        }
    }

    /// Takes in the reply to a LOCK and enters the lock, unless the mount lost its state
    /// meanwhile.
    pub fn finish_lock(&mut self, attempt: LockAttempt, reply: Result<Bytes>, now: u64) -> (token:
        Result<LockToken>)
        requires
            old(self).wf(),
        ensures
            final(self).wf(),
            ({
                let (mount, outcome) = lock_replied(old(self)@, attempt, reply_view(reply), now);
                match outcome {
                    Err(error) => token is Err && token->Err_0@ == error && final(self)@ == mount,
                    Ok(stateid) => {
                        &&& token is Ok
                        &&& contents(token->Ok_0.fh) == contents(attempt.fh)
                        &&& contents(token->Ok_0.stateid) == stateid
                        &&& token->Ok_0.lock_type == attempt.lock_type
                        &&& token->Ok_0.offset == attempt.offset
                        &&& token->Ok_0.length == attempt.length
                        &&& token->Ok_0.issuer == old(self)@.issuer
                        &&& token->Ok_0.generation == attempt.generation
                        &&& exists|id: u64|
                            !old(self)@.locks.held.contains_key(id) && final(self)@ == (MountView {
                                locks: #[trigger] mount.locks.with_lane(
                                    id,
                                    new_lock(attempt, stateid),
                                ),
                                ..mount
                            })
                    },
                }
            }),
    {
        let response = settled("lock", attempt.owner, 0, reply)?;
        let decoded = decode_lock_response(response, 12, "LOCK");
        if consumes_owner_seqid(&decoded) {
            self.bump_open(attempt.open_owner);
        }
        let stateid: [u8; 16] = match decoded {
            Ok(stateid) => stateid,
            Err(error) => {
                return Err(sent_failure("lock", attempt.owner, 0, error));
            },
        };
        self.lease.finish_stateful(attempt.generation, "lock", now)?;
        let token = LockToken {
            fh: duplicate(&attempt.fh),
            stateid: copy_from_slice(&stateid),
            lock_type: attempt.lock_type,
            offset: attempt.offset,
            length: attempt.length,
            issuer: self.issuer,
            generation: attempt.generation,
        };
        let ghost view = new_lock(attempt, stateid@);
        let lane = LockLane {
            owner: attempt.owner,
            open_owner: attempt.open_owner,
            owner_wire: attempt.owner_wire,
            next_seqid: 1,
            stateid,
            fh: attempt.fh,
            lock_type: attempt.lock_type,
            offset: attempt.offset,
            length: attempt.length,
        };
        assert(lane@ == view);
        let ghost before = self@;
        let id: u64 = self.locks.register(lane);
        assert(self@.locks == before.locks.with_lane(id, view));
        Ok(token)
    }

    /// The request that asks whether a range could be locked.
    pub fn begin_lock_test(&mut self, fh: &Bytes, lock_type: u32, offset: u64, length: u64) -> (request:
        Result<CompoundBuilder>)
        requires
            old(self).wf(),
        ensures
            final(self).wf(),
            if !lockable(lock_type, length) {
                refused(
                    request,
                    "LOCKT requires type 1/2 and non-zero length"@,
                    old(self)@,
                    final(self)@,
                )
            } else {
                &&& request is Ok
                &&& request->Ok_0@ == (RawRequest {
                    tag: "lockt"@,
                    minor: 0,
                    ops: Seq::empty(),
                }).with_op(OP_PUTFH, opaque(contents(*fh))).with_op(
                    OP_LOCKT,
                    be32(lock_type) + be64(offset) + be64(length) + be64(old(self)@.client_id)
                        + opaque(
                        encode_utf8(
                            owner_name(
                                "nfs-rs-lockt-"@,
                                old(self)@.issuer,
                                old(self)@.next_owner,
                            ),
                        ),
                    ),
                )
                &&& final(self)@ == (MountView {
                    next_owner: old(self)@.next_owner.wrapping_add(1),
                    ..old(self)@
                })
            },
    {
        if !(lock_type == 1 || lock_type == 2) || length == 0 {
            return Err(input_error("LOCKT requires type 1/2 and non-zero length"));
        }
        let owner: u64 = self.take_owner();
        let owner_wire = text_bytes(name_owner("nfs-rs-lockt-", self.issuer, owner).as_str());
        Ok(
            CompoundBuilder::new("lockt").putfh(as_slice(fh)).lockt(
                lock_type,
                offset,
                length,
                self.client_id,
                &owner_wire,
            ),
        )
    }

    /// Begins to give a lock up.
    pub fn begin_unlock(
        &self,
        fh: &Bytes,
        lock_stateid: &Bytes,
        lock_type: u32,
        offset: u64,
        length: u64,
    ) -> (attempt: Result<UnlockAttempt>)
        requires
            self.wf(),
        ensures
            match unlock_refusal(
                self@,
                contents(*fh),
                contents(*lock_stateid),
                lock_type,
                offset,
                length,
            ) {
                Some(error) => attempt is Err && attempt->Err_0@ == error,
                None => attempt is Ok && unlock_begun(
                    self@,
                    self@.locks.named(contents(*lock_stateid))->Some_0,
                    attempt->Ok_0,
                ),
            },
    {
        let generation: u64 = self.lease.begin_stateful("locku")?;
        if remaining(lock_stateid) != 16 {
            return Err(input_error("lock_stateid must be 16 bytes"));
        }
        let mut bytes = duplicate(lock_stateid);
        let stateid: [u8; 16] = take_array(&mut bytes);
        assert(contents(*lock_stateid).take(16) =~= contents(*lock_stateid));
        let id: u64 = match self.locks.by_stateid(&stateid) {
            Some(id) => id,
            None => {
                return Err(input_error("NFSv4.0 lock state is unknown or already released"));
            },
        };
        match self.locks.lane(id) {
            None => Err(input_error("NFSv4.0 lock state is unknown or already released")),
            Some(lock) => {
                if !same_bytes(&lock.fh, fh) || lock.lock_type != lock_type || lock.offset != offset
                    || lock.length != length {
                    return Err(input_error("LOCKU parameters do not match the acquired lock"));
                }
                let request = CompoundBuilder::new("locku").putfh(as_slice(fh)).locku(
                    lock_type,
                    lock.next_seqid,
                    &lock.stateid,
                    offset,
                    length,
                );
                Ok(
                    UnlockAttempt {
                        generation,
                        client_id: self.client_id,
                        lane: id,
                        stateid: lock.stateid,
                        owner: lock.owner,
                        seqid: lock.next_seqid,
                        owner_wire: duplicate(&lock.owner_wire),
                        request,
                    },
                )
            },
        }
    }

    /// Begins to give up the lock that a token stands for.
    pub fn begin_unlock_token(&self, token: &LockToken) -> (attempt: Result<UnlockAttempt>)
        requires
            self.wf(),
        ensures
            if token.issuer != self@.issuer || token.generation != self@.lease.generation {
                &&& attempt is Err
                &&& attempt->Err_0@ == ErrorView::InvalidInput(
                    "lock token belongs to another mount generation"@,
                )
            } else {
                match unlock_refusal(
                    self@,
                    contents(token.fh),
                    contents(token.stateid),
                    token.lock_type,
                    token.offset,
                    token.length,
                ) {
                    Some(error) => attempt is Err && attempt->Err_0@ == error,
                    None => attempt is Ok && unlock_begun(
                        self@,
                        self@.locks.named(contents(token.stateid))->Some_0,
                        attempt->Ok_0,
                    ),
                }
            },
    {
        if token.issuer != self.issuer || token.generation != self.lease.generation() {
            return Err(input_error("lock token belongs to another mount generation"));
        }
        self.begin_unlock(&token.fh, &token.stateid, token.lock_type, token.offset, token.length)
    }

    /// Uses up the sequence number of a lock-owner.
    fn bump_lock(&mut self, lane: u64)
        requires
            old(self).wf(),
        ensures
            final(self).wf(),
            final(self)@ == lock_bumped(old(self)@, lane),
    {
        let next: Option<LockLane> = match self.locks.lane(lane) {
            Some(lock) => {
                let mut next = lock.copy();
                next.next_seqid = next.next_seqid.wrapping_add(1);
                Some(next)
            },
            None => None,
        };
        if let Some(next) = next {
            self.locks.update(lane, next);
        }
    }

    /// Takes in the reply to a LOCKU. The lock is gone once the server says so; its owner is
    /// released next.
    pub fn unlock_replied(&mut self, attempt: UnlockAttempt, reply: Result<Bytes>) -> (release: Result<
        ReleaseAttempt,
    >)
        requires
            old(self).wf(),
        ensures
            final(self).wf(),
            ({
                let (mount, outcome) = unlock_replied(old(self)@, attempt, reply_view(reply));
                &&& final(self)@ == mount
                &&& match outcome {
                    Err(error) => release is Err && release->Err_0@ == error,
                    Ok(_) => {
                        &&& release is Ok
                        &&& release->Ok_0.generation == attempt.generation
                        &&& release->Ok_0.owner == attempt.owner
                        &&& release->Ok_0.request@ == release_request(
                            attempt.client_id,
                            contents(attempt.owner_wire),
                        )
                    },
                }
            }),
    {
        let response = settled("locku", attempt.owner, attempt.seqid, reply)?;
        let decoded = decode_lock_response(response, 14, "LOCKU");
        if consumes_owner_seqid(&decoded) {
            self.bump_lock(attempt.lane);
        }
        if let Err(error) = decoded {
            return Err(sent_failure("locku", attempt.owner, attempt.seqid, error));
        }
        self.locks.remove(&attempt.stateid);
        let request = CompoundBuilder::new("release-lockowner").release_lockowner(
            attempt.client_id,
            as_slice(&attempt.owner_wire),
        );
        Ok(ReleaseAttempt { generation: attempt.generation, owner: attempt.owner, request })
    }

    /// Takes in the reply to a RELEASE_LOCKOWNER.
    pub fn finish_unlock(&mut self, attempt: ReleaseAttempt, reply: Result<Bytes>, now: u64) -> (result:
        Result<()>)
        requires
            old(self).wf(),
        ensures
            final(self).wf(),
            match released(old(self)@, attempt, reply_view(reply)) {
                Ok(_) => result is Ok && final(self)@ == in_use(old(self)@, now),
                Err(error) => result is Err && result->Err_0@ == error && final(self)@ == old(
                    self,
                )@,
            },
    {
        let response = settled("release_lockowner", attempt.owner, 0, reply)?;
        if let Err(error) = decode_release_lockowner_response(response) {
            return Err(sent_failure("release_lockowner", attempt.owner, 0, error));
        }
        self.lease.finish_stateful(attempt.generation, "locku", now)
    }
}

/// The issuer and the owner that the state of an open file names.
pub open spec fn open_token(protocol_state: Option<Bytes>) -> Option<(u64, u64)> {
    match protocol_state {
        Some(state) => owner_of_bytes(contents(state)),
        None => None,
    }
}

/// An owner that is chosen for a file is open.
pub proof fn lemma_chosen_is_open(state: OpenView, fh: Seq<u8>, required: u32)
    ensures
        state.chosen(fh, required) is Some ==> state.lanes.contains_key(
            state.chosen(fh, required)->Some_0,
        ),
{
    lemma_youngest_is_open(state.owners(fh), state, required);
}

proof fn lemma_youngest_is_open(owners: Seq<u64>, state: OpenView, required: u32)
    ensures
        ({
            let found = crate::nfs40::state::youngest(owners, state.lanes, required);
            found is Some ==> state.lanes.contains_key(found->Some_0)
        }),
    decreases owners.len(),
{
    if owners.len() > 0 {
        lemma_youngest_is_open(owners.drop_last(), state, required);
    }
}

/// A lock that was given up is not held any more, and no state leads to it.
pub proof fn law_unlocked_lock_is_gone(
    mount: MountView,
    attempt: UnlockAttempt,
    reply: Decoded<Seq<u8>>,
)
    requires
        mount.locks.named(attempt.stateid@) == Some(attempt.lane),
        unlock_replied(mount, attempt, reply).1 is Ok,
    ensures
        forall|stateid: Seq<u8>|
            #[trigger] unlock_replied(mount, attempt, reply).0.locks.named(stateid) != Some(
                attempt.lane,
            ),
        !unlock_replied(mount, attempt, reply).0.locks.held.contains_key(attempt.lane),
{
}

/// Once the server has given up the lock that a state leads to, the file can be closed, unless
/// other locks are held on it.
pub proof fn law_unlocking_frees_the_file(
    mount: MountView,
    stateid: Seq<u8>,
    attempt: UnlockAttempt,
    reply: Decoded<Seq<u8>>,
)
    requires
        mount.locks.lanes.contains_key(stateid),
        mount.locks.held.contains_key(mount.locks.lanes[stateid]),
        mount.locks.held[mount.locks.lanes[stateid]].stateid == stateid,
        unlock_begun(mount, mount.locks.lanes[stateid], attempt),
        unlock_replied(mount, attempt, reply).1 is Ok,
    ensures
        ({
            let lane = mount.locks.lanes[stateid];
            let fh = mount.locks.held[lane].fh;
            let after = unlock_replied(mount, attempt, reply).0.locks;
            &&& !after.held.contains_key(lane)
            &&& after.named(stateid) != Some(lane)
            &&& after.locked(fh) <==> exists|other: Seq<u8>| #[trigger]
                mount.locks.lanes.contains_key(other) && mount.locks.lanes[other] != lane
                    && mount.locks.held[mount.locks.lanes[other]].fh == fh
        }),
{
    let lane = mount.locks.lanes[stateid];
    let fh = mount.locks.held[lane].fh;
    let after = unlock_replied(mount, attempt, reply).0.locks;
    law_unlocked_lock_is_gone(mount, attempt, reply);
    if after.locked(fh) {
        let other = choose|s: Seq<u8>| #[trigger]
            after.lanes.contains_key(s) && after.held[after.lanes[s]].fh == fh;
        assert(mount.locks.lanes.contains_key(other));
    }
    if exists|other: Seq<u8>| #[trigger]
        mount.locks.lanes.contains_key(other) && mount.locks.lanes[other] != lane
            && mount.locks.held[mount.locks.lanes[other]].fh == fh {
        let other = choose|other: Seq<u8>| #[trigger]
            mount.locks.lanes.contains_key(other) && mount.locks.lanes[other] != lane
                && mount.locks.held[mount.locks.lanes[other]].fh == fh;
        assert(after.lanes.contains_key(other));
    }
}

/// A lock that was refused or whose fate is unknown is not entered, and neither is one whose
/// state was lost meanwhile.
pub proof fn law_failed_lock_is_not_entered(
    mount: MountView,
    attempt: LockAttempt,
    reply: Decoded<Seq<u8>>,
    now: u64,
)
    ensures
        lock_replied(mount, attempt, reply, now).0.locks == mount.locks,
        mount.lease.generation != attempt.generation ==> lock_replied(
            mount,
            attempt,
            reply,
            now,
        ).1 is Err,
{
}

/// The sequence number of an open-owner moves on by one exactly if the server has used it up,
/// and that of every other owner stays as it is.
pub proof fn law_open_seqid_is_used_once(
    mount: MountView,
    attempt: LockAttempt,
    reply: Decoded<Seq<u8>>,
    now: u64,
    owner: u64,
)
    requires
        mount.state.lanes.contains_key(owner),
    ensures
        ({
            let after = lock_replied(mount, attempt, reply, now).0;
            &&& after.state.lanes.contains_key(owner)
            &&& after.state.lanes[owner].next_seqid == (if owner == attempt.open_owner
                && reply is Ok && consumes_seqid(lock_response(reply->Ok_0, 12, "LOCK"@)) {
                mount.state.lanes[owner].next_seqid.wrapping_add(1)
            } else {
                mount.state.lanes[owner].next_seqid
            })
        }),
{
}

/// A LOCKU whose fate is unknown leaves the lock in force and its sequence number as it is.
pub proof fn law_unanswered_unlock_keeps_the_lock(
    mount: MountView,
    attempt: UnlockAttempt,
    error: ErrorView,
)
    ensures
        unlock_replied(mount, attempt, Err(error)).0 == mount,
        unlock_replied(mount, attempt, Err(error)).1 is Err,
{
}

/// LOCK asks for the range that the caller names, as a new request and not as a reclaim, by a
/// lock-owner that starts its own count, on the open file whose number comes next.
pub proof fn law_lock_names_its_range(
    mount: MountView,
    open: OwnerLaneView,
    fh: Seq<u8>,
    range: LockRange,
)
    requires
        fh.len() <= u32::MAX,
        lock_owner(mount).len() <= u32::MAX,
    ensures
        ({
            let request = lock_request(mount, open, fh, range);
            &&& request.minor == 0
            &&& request.ops.len() == 2
            &&& request.ops[0].opcode == 22
            &&& holds(request.ops[0].args, Fields::Start.counted(fh))
            &&& request.ops[1].opcode == 12
            &&& holds(
                request.ops[1].args,
                Fields::Start.word(range.lock_type).flag(false).hyper(range.offset).hyper(
                    range.length,
                ).flag(true).word(open.next_seqid).bytes(open.stateid).word(0).hyper(
                    mount.client_id,
                ).counted(lock_owner(mount)),
            )
        }),
{
    broadcast use crate::wire::group_fields;

}

/// LOCKU names the lock: its handle, its type, the next number of its owner, its stateid and
/// its range.
pub proof fn law_unlock_names_the_lock(lock: LockLaneView)
    requires
        lock.fh.len() <= u32::MAX,
    ensures
        ({
            let request = unlock_request(lock);
            &&& request.minor == 0
            &&& request.ops.len() == 2
            &&& request.ops[0].opcode == 22
            &&& holds(request.ops[0].args, Fields::Start.counted(lock.fh))
            &&& request.ops[1].opcode == 14
            &&& holds(
                request.ops[1].args,
                Fields::Start.word(lock.lock_type).word(lock.next_seqid).bytes(lock.stateid).hyper(
                    lock.offset,
                ).hyper(lock.length),
            )
        }),
{
    broadcast use crate::wire::group_fields;

}

/// RELEASE_LOCKOWNER names the client and the lock-owner.
pub proof fn law_release_names_the_owner(client_id: u64, owner_wire: Seq<u8>)
    requires
        owner_wire.len() <= u32::MAX,
    ensures
        ({
            let request = release_request(client_id, owner_wire);
            &&& request.minor == 0
            &&& request.ops.len() == 1
            &&& request.ops[0].opcode == 39
            &&& holds(request.ops[0].args, Fields::Start.hyper(client_id).counted(owner_wire))
        }),
{
    broadcast use crate::wire::group_fields;

}

/// A lock is given back with the range, the type, the handle and the owner with which it was
/// taken.
pub proof fn law_unlock_undoes_the_lock(
    mount: MountView,
    open_owner: u64,
    fh: Seq<u8>,
    range: LockRange,
    attempt: LockAttempt,
    after: MountView,
    stateid: Seq<u8>,
)
    requires
        lock_begun(mount, open_owner, fh, range, Ok(attempt), after),
        stateid.len() == mount.state.lanes[open_owner].stateid.len(),
    ensures
        ({
            let taken = attempt.request@.ops;
            let given = unlock_request(new_lock(attempt, stateid)).ops;
            let n = stateid.len() as int;
            &&& given[0] == taken[0]
            &&& given[1].args.take(4) == taken[1].args.take(4)
            &&& given[1].args.subrange(8 + n, 24 + n) == taken[1].args.subrange(8, 24)
        }),
{
    let lock = new_lock(attempt, stateid);
    let n = stateid.len() as int;
    let taken = attempt.request@.ops[1].args;
    let given = unlock_request(lock).ops[1].args;
    assert(gate(mount, "lock"@) is Ok);
    assert(given.take(4) =~= be32(range.lock_type));
    assert(taken.take(4) =~= be32(range.lock_type));
    assert(given.subrange(8 + n, 24 + n) =~= be64(range.offset) + be64(range.length));
    assert(taken.subrange(8, 24) =~= be64(range.offset) + be64(range.length));
}

/// A lock that was granted is entered for the file, the range, the type and the owner that the
/// request named, and its own count goes on from one.
pub proof fn law_granted_lock_is_the_one_asked_for(
    mount: MountView,
    open_owner: u64,
    fh: Seq<u8>,
    range: LockRange,
    attempt: LockAttempt,
    after: MountView,
    stateid: Seq<u8>,
)
    requires
        lock_begun(mount, open_owner, fh, range, Ok(attempt), after),
    ensures
        ({
            let lock = new_lock(attempt, stateid);
            &&& lock.fh == fh
            &&& lock.lock_type == range.lock_type
            &&& lock.offset == range.offset
            &&& lock.length == range.length
            &&& lock.owner == mount.next_owner
            &&& lock.open_owner == open_owner
            &&& lock.owner_wire == lock_owner(mount)
            &&& lock.stateid == stateid
            &&& lock.next_seqid == 1
        }),
{
}

/// A lock can be asked for just where it is for reading or for writing and covers at least one
/// byte; one for reading needs a file open for reading, one for writing needs one open for
/// writing.
pub proof fn law_locks_need_matching_access(lock_type: u32, length: u64)
    ensures
        lockable(lock_type, length) <==> length > 0 && 1 <= lock_type <= 2,
        lock_access(1) == 1,
        lock_access(2) == 2,
{
}


/// A lock that the server granted is handed out with the stateid that the server gave, and keeps
/// the lease in use.
pub proof fn law_granted_lock_is_handed_out(
    mount: MountView,
    attempt: LockAttempt,
    bytes: Seq<u8>,
    now: u64,
    stateid: Seq<u8>,
)
    requires
        lock_response(bytes, 12, "LOCK"@) == Ok::<Seq<u8>, ErrorView>(stateid),
        mount.lease.lifecycle is Ready,
        mount.lease.generation == attempt.generation,
    ensures
        ({
            let (after, result) = lock_replied(mount, attempt, Ok(bytes), now);
            &&& result == Ok::<Seq<u8>, ErrorView>(stateid)
            &&& after.lease == in_use(mount, now).lease
            &&& after.client_id == mount.client_id
            &&& after.next_owner == mount.next_owner
        }),
{
}

/// The number of an open owner goes up by one, and nothing else of it changes; other owners keep
/// theirs.
pub proof fn law_numbers_go_up_by_one(mount: MountView, owner: u64, lane: u64, other: u64)
    requires
        mount.state.lanes.contains_key(owner),
        mount.state.lanes[owner].next_seqid < u32::MAX,
        mount.locks.held.contains_key(lane),
        mount.locks.held[lane].next_seqid < u32::MAX,
    ensures
        ({
            let after = bumped(mount, owner);
            &&& after.state.lanes[owner].next_seqid == mount.state.lanes[owner].next_seqid + 1
            &&& after.state.lanes[owner].stateid == mount.state.lanes[owner].stateid
            &&& after.state.lanes[owner].fh == mount.state.lanes[owner].fh
            &&& other != owner ==> after.state.lanes[other] == mount.state.lanes[other]
            &&& after.locks == mount.locks
        }),
        ({
            let after = lock_bumped(mount, lane);
            &&& after.locks.held[lane].next_seqid == mount.locks.held[lane].next_seqid + 1
            &&& after.locks.held[lane].stateid == mount.locks.held[lane].stateid
            &&& after.locks.held[lane].offset == mount.locks.held[lane].offset
            &&& after.locks.held[lane].length == mount.locks.held[lane].length
            &&& other != lane ==> after.locks.held[other] == mount.locks.held[other]
            &&& after.locks.lanes == mount.locks.lanes
            &&& after.state == mount.state
        }),
{
}

/// A lock is given back just where the mount is ready, the stateid names a lock, and the file,
/// the type and the range are those with which it was taken.
pub proof fn law_unlock_needs_the_lock_itself(
    mount: MountView,
    fh: Seq<u8>,
    stateid: Seq<u8>,
    lock_type: u32,
    offset: u64,
    length: u64,
)
    ensures
        unlock_refusal(mount, fh, stateid, lock_type, offset, length) is None <==> {
            &&& mount.lease.lifecycle is Ready
            &&& stateid.len() == 16
            &&& mount.locks.named(stateid) is Some
            &&& ({
                let lock = mount.locks.held[mount.locks.named(stateid)->Some_0];
                &&& lock.fh == fh
                &&& lock.lock_type == lock_type
                &&& lock.offset == offset
                &&& lock.length == length
            })
        },
{
}

/// A lock is made by an open of the file that has the access it needs, or by the open that its
/// token names on the mount that made it; where there is none, it is refused.
pub proof fn law_locks_are_made_by_an_open(
    mount: MountView,
    fh: Seq<u8>,
    token: Option<Bytes>,
    lock_type: u32,
    length: u64,
)
    ensures
        ({
            let made = locking_owner(mount, fh, lock_type, length);
            let asked = length > 0 && (lock_type == 1 || lock_type == 2);
            &&& made is Ok <==> asked && mount.state.chosen(fh, lock_type) is Some
            &&& made is Ok ==> Some(made->Ok_0) == mount.state.chosen(fh, lock_type)
        }),
        ({
            let made = token_locking_owner(mount, token, lock_type, length);
            let asked = length > 0 && (lock_type == 1 || lock_type == 2);
            let named = open_token(token);
            &&& made is Ok <==> asked && named is Some && named->Some_0.0 == mount.issuer
                && mount.state.lanes.contains_key(named->Some_0.1)
            &&& made is Ok ==> made->Ok_0 == named->Some_0.1
        }),
{
}


} // verus!
