//! Open files of an NFSv4.0 mount: READ, WRITE, COMMIT, SETATTR and CLOSE.

use bytes::Bytes;
use vstd::prelude::*;
use vstd::string::StringExecFns;

use crate::buffer::{as_slice, contents, duplicate, same_bytes};
use crate::error::{
    input_error, outcome_error, rpc_error, xdr_error, ErrorView, NFSVersion, NfsError,
    OperationClass, OperationOutcome, RecoveryAction, RequestContext, Result,
};
use crate::nfs4::compound::{Decoded, RawRequest, OP_PUTFH};
use crate::nfs40::compound::{
    commit_response, decode_commit_response, decode_read_response, decode_setattr_response,
    decode_stateid_response, decode_write_response, read_response, setattr_response,
    stateid_response, write_response, CompoundBuilder, OP_CLOSE, OP_COMMIT, OP_READ, OP_SETATTR,
    OP_WRITE,
};
use crate::nfs40::lease::fence;
use crate::nfs40::locking::{lemma_chosen_is_open, open_token};
use crate::nfs40::mount::{
    answered, failed, gate, in_use, plain_context, reply_view, sent_failure, settled, Mount40, MountView,
    OPEN_BOTH, OPEN_READ, OPEN_WRITE,
};
use crate::nfs40::state::{decode_owner, OpenView, OwnerLane, OwnerLaneView};
use crate::table::equal_bytes;
use crate::wire::{holds, number, Fields};
use crate::xdr::{be32, be64, bitmap4, opaque};

verus! {

/// The state that stands for no open file.
pub open spec fn anonymous() -> Seq<u8> {
    Seq::new(16, |i: int| 0u8)
}

/// The generation and the state that an operation on a file uses: those of an owner that has
/// the file open, or none.
pub open spec fn optional_state(mount: MountView, fh: Seq<u8>, access: u32, operation: Seq<char>) -> Decoded<
    (Option<u64>, Seq<u8>),
> {
    match mount.state.chosen(fh, access) {
        None => Ok((None, anonymous())),
        Some(owner) => match gate(mount, operation) {
            Err(error) => Err(error),
            Ok(generation) => Ok((Some(generation), mount.state.lanes[owner].stateid)),
        },
    }
}

/// Whether an operation may still take effect, if it depends on state.
pub open spec fn optional_fence(mount: MountView, generation: Option<u64>, operation: Seq<char>) -> Decoded<
    (),
> {
    match generation {
        None => Ok(()),
        Some(generation) => fence(mount.lease, generation, operation),
    }
}

/// The mount after an operation succeeded, which extends the lease if it depends on state.
pub open spec fn optionally_in_use(mount: MountView, generation: Option<u64>, now: u64) -> MountView {
    match generation {
        None => mount,
        Some(_) => in_use(mount, now),
    }
}

/// A READ that is on its way.
#[derive(Debug)]
pub struct ReadAttempt {
    /// The generation in which it began, if it depends on state.
    pub generation: Option<u64>,
    pub request: CompoundBuilder,
}

/// The request for bytes of a file.
pub open spec fn read_request(fh: Seq<u8>, stateid: Seq<u8>, offset: u64, count: u32) -> RawRequest {
    RawRequest { tag: "read"@, minor: 0, ops: Seq::empty() }.with_op(OP_PUTFH, opaque(fh)).with_op(
        OP_READ,
        stateid + be64(offset) + be32(count),
    )
}

/// A SETATTR that is on its way.
#[derive(Debug)]
pub struct SetattrAttempt {
    /// The generation in which it began, if it depends on state.
    pub generation: Option<u64>,
    pub bitmap: Vec<u32>,
    pub request: CompoundBuilder,
}

/// The request that sets attributes.
pub open spec fn setattr_request(fh: Seq<u8>, stateid: Seq<u8>, bitmap: Seq<u32>, values: Seq<u8>) -> RawRequest {
    RawRequest { tag: "setattr"@, minor: 0, ops: Seq::empty() }.with_op(
        OP_PUTFH,
        opaque(fh),
    ).with_op(OP_SETATTR, stateid + bitmap4(bitmap) + opaque(values))
}

/// Whether attributes were set, by the reply to SETATTR.
pub open spec fn setattr_replied(mount: MountView, attempt: SetattrAttempt, reply: Decoded<Seq<u8>>) -> Decoded<
    (),
> {
    match answered("setattr"@, 0, 0, reply) {
        Err(error) => Err(error),
        Ok(bytes) => match setattr_response(bytes, attempt.bitmap@) {
            Err(error) => Err(failed("setattr"@, 0, 0, error)),
            Ok(_) => optional_fence(mount, attempt.generation, "setattr"@),
        },
    }
}

/// A WRITE that is on its way.
#[derive(Debug)]
pub struct WriteAttempt {
    /// The generation in which it began.
    pub generation: u64,
    pub owner: u64,
    pub seqid: u32,
    pub fh: Bytes,
    pub offset: u64,
    pub len: u32,
    /// The request up to the data.
    pub request: CompoundBuilder,
}

/// Bytes that were written and are stable.
#[derive(Debug)]
pub struct PendingWrite {
    pub generation: u64,
    pub len: u32,
    pub count: u32,
}

/// A COMMIT that follows a WRITE whose bytes are not stable yet.
#[derive(Debug)]
pub struct WriteCommit {
    pub generation: u64,
    pub owner: u64,
    pub len: u32,
    pub count: u32,
    pub verifier: [u8; 8],
}

/// What to do once the reply to WRITE was taken in.
#[derive(Debug)]
pub enum WriteStep {
    /// Commit the bytes by a request.
    Commit(WriteCommit, CompoundBuilder),
    Finish(PendingWrite),
}

/// The request that writes, up to the data.
pub open spec fn write_request(fh: Seq<u8>, stateid: Seq<u8>, offset: u64, len: u32) -> RawRequest {
    RawRequest { tag: "write"@, minor: 0, ops: Seq::empty() }.with_op(OP_PUTFH, opaque(fh)).with_op(
        OP_WRITE,
        stateid + be64(offset) + be32(2) + be32(len),
    )
}

/// The request that makes bytes stable.
pub open spec fn commit_request(fh: Seq<u8>, offset: u64, count: u32) -> RawRequest {
    RawRequest { tag: "commit"@, minor: 0, ops: Seq::empty() }.with_op(OP_PUTFH, opaque(fh)).with_op(
        OP_COMMIT,
        be64(offset) + be32(count),
    )
}

/// The error for bytes that the server may have lost before they were stable.
pub open spec fn verifier_changed() -> ErrorView {
    ErrorView::OperationOutcome {
        outcome: OperationOutcome::Uncertain,
        class: OperationClass::ReplaySensitive,
        recovery: RecoveryAction::VerifyThenResume,
        context: plain_context("write_verifier"@),
        source: Box::new(ErrorView::Rpc("NFSv4.0 WRITE verifier changed before COMMIT"@)),
    }
}

pub fn verifier_changed_error() -> (error: NfsError)
    ensures
        error@ == verifier_changed(),
{
    outcome_error(
        OperationOutcome::Uncertain,
        OperationClass::ReplaySensitive,
        RecoveryAction::VerifyThenResume,
        RequestContext {
            operation: String::from_str("write_verifier"),
            protocol: NFSVersion::NFSv4p0,
            request_id: None,
        },
        rpc_error("NFSv4.0 WRITE verifier changed before COMMIT"),
    )
}

/// What the reply to a WRITE means: how many bytes were written, how stable they are, and
/// the verifier.
pub open spec fn write_replied(owner: u64, seqid: u32, reply: Decoded<Seq<u8>>) -> Decoded<
    (u32, u32, Seq<u8>),
> {
    match answered("write"@, owner, seqid, reply) {
        Err(error) => Err(error),
        Ok(bytes) => match write_response(bytes) {
            Ok(written) => Ok(written),
            Err(error) => Err(failed("write"@, owner, seqid, error)),
        },
    }
}

/// What the reply to a COMMIT means: the verifier.
pub open spec fn commit_replied(owner: u64, reply: Decoded<Seq<u8>>) -> Decoded<Seq<u8>> {
    match answered("commit"@, owner, 0, reply) {
        Err(error) => Err(error),
        Ok(bytes) => match commit_response(bytes) {
            Ok(verifier) => Ok(verifier),
            Err(error) => Err(failed("commit"@, owner, 0, error)),
        },
    }
}

fn take_commit(owner: u64, reply: Result<Bytes>) -> (verifier: Result<[u8; 8]>)
    ensures
        match commit_replied(owner, reply_view(reply)) {
            Ok(expected) => verifier is Ok && verifier->Ok_0@ == expected,
            Err(error) => verifier is Err && verifier->Err_0@ == error,
        },
{
    let response = settled("commit", owner, 0, reply)?;
    match decode_commit_response(response) {
        Ok(verifier) => Ok(verifier),
        Err(error) => Err(sent_failure("commit", owner, 0, error)),
    }
}

impl WriteAttempt {
    /// Takes in the reply to WRITE. Bytes that are not stable yet are committed at once.
    pub fn replied(self, reply: Result<Bytes>) -> (step: Result<WriteStep>)
        ensures
            match write_replied(self.owner, self.seqid, reply_view(reply)) {
                Err(error) => step is Err && step->Err_0@ == error,
                Ok((count, committed, verifier)) => if committed == 2 {
                    step == Ok::<WriteStep, NfsError>(
                        WriteStep::Finish(
                            PendingWrite { generation: self.generation, len: self.len, count },
                        ),
                    )
                } else {
                    &&& step matches Ok(WriteStep::Commit(commit, request))
                    &&& commit.generation == self.generation
                    &&& commit.owner == self.owner
                    &&& commit.len == self.len
                    &&& commit.count == count
                    &&& commit.verifier@ == verifier
                    &&& request@ == commit_request(contents(self.fh), self.offset, count)
                },
            },
    {
        let response = settled("write", self.owner, self.seqid, reply)?;
        let (count, committed, verifier): (u32, u32, [u8; 8]) = match decode_write_response(
            response,
        ) {
            Ok(written) => written,
            Err(error) => {
                return Err(sent_failure("write", self.owner, self.seqid, error));
            },
        };
        if committed != 2 {
            let request = CompoundBuilder::new("commit").putfh(as_slice(&self.fh)).commit(
                self.offset,
                count,
            );
            return Ok(
                WriteStep::Commit(
                    WriteCommit {
                        generation: self.generation,
                        owner: self.owner,
                        len: self.len,
                        count,
                        verifier,
                    },
                    request,
                ),
            );
        }
        Ok(
            WriteStep::Finish(PendingWrite { generation: self.generation, len: self.len, count }),
        )
    }
}

impl WriteCommit {
    /// Takes in the reply to the COMMIT behind a WRITE. Another verifier means that the
    /// server may have lost the bytes.
    pub fn replied(self, reply: Result<Bytes>) -> (pending: Result<PendingWrite>)
        ensures
            match commit_replied(self.owner, reply_view(reply)) {
                Err(error) => pending is Err && pending->Err_0@ == error,
                Ok(verifier) => if verifier != self.verifier@ {
                    pending is Err && pending->Err_0@ == verifier_changed()
                } else {
                    pending == Ok::<PendingWrite, NfsError>(
                        PendingWrite {
                            generation: self.generation,
                            len: self.len,
                            count: self.count,
                        },
                    )
                },
            },
    {
        let verifier: [u8; 8] = take_commit(self.owner, reply)?;
        if !equal_bytes(&verifier, &self.verifier) {
            return Err(verifier_changed_error());
        }
        Ok(PendingWrite { generation: self.generation, len: self.len, count: self.count })
    }
}

/// A COMMIT that is on its way.
#[derive(Debug)]
pub struct CommitAttempt {
    /// The owner that has the file open for writing.
    pub owner: Option<u64>,
    /// The generation in which it began, if it depends on state.
    pub generation: Option<u64>,
    pub request: CompoundBuilder,
}

/// The mount after a COMMIT whose verifier is the one of the writes before it.
pub open spec fn committed(mount: MountView, owner: u64) -> MountView {
    let lane = mount.state.lanes[owner];
    MountView {
        state: OpenView {
            lanes: mount.state.lanes.insert(owner, OwnerLaneView { write_verifier: None, ..lane }),
            ..mount.state
        },
        ..mount
    }
}

/// The mount after the reply to a COMMIT, and whether the bytes are stable.
pub open spec fn commit_outcome(mount: MountView, attempt: CommitAttempt, reply: Decoded<Seq<u8>>) -> (
    MountView,
    Decoded<()>,
) {
    match commit_replied(0, reply) {
        Err(error) => (mount, Err(error)),
        Ok(verifier) => match optional_fence(mount, attempt.generation, "commit"@) {
            Err(error) => (mount, Err(error)),
            Ok(_) => match attempt.owner {
                Some(owner) if mount.state.lanes.contains_key(owner) => {
                    let expected = mount.state.lanes[owner].write_verifier;
                    if expected is Some && expected->Some_0 != verifier {
                        (mount, Err(verifier_changed()))
                    } else {
                        (committed(mount, owner), Ok(()))
                    }
                },
                _ => (mount, Ok(())),
            },
        },
    }
}

/// A CLOSE that is on its way.
#[derive(Debug)]
pub struct CloseAttempt {
    /// The generation in which it began.
    pub generation: u64,
    pub owner: u64,
    pub seqid: u32,
    pub fh: Bytes,
    pub request: CompoundBuilder,
}

/// The request that closes a file.
pub open spec fn close_request(lane: OwnerLaneView) -> RawRequest {
    RawRequest { tag: "close"@, minor: 0, ops: Seq::empty() }.with_op(
        OP_PUTFH,
        opaque(lane.fh),
    ).with_op(OP_CLOSE, be32(lane.next_seqid) + lane.stateid)
}

/// The mount after the reply to a CLOSE, and whether the file is closed.
pub open spec fn close_outcome(
    mount: MountView,
    attempt: CloseAttempt,
    reply: Decoded<Seq<u8>>,
    now: u64,
) -> (MountView, Decoded<()>) {
    match answered("close"@, attempt.owner, attempt.seqid, reply) {
        Err(error) => (mount, Err(error)),
        Ok(bytes) => match stateid_response(bytes, 4, "CLOSE"@) {
            Err(error) => (mount, Err(failed("close"@, attempt.owner, attempt.seqid, error))),
            Ok(_) => {
                let after = MountView {
                    state: mount.state.without(attempt.owner, contents(attempt.fh)),
                    ..mount
                };
                match fence(mount.lease, attempt.generation, "close"@) {
                    Err(error) => (after, Err(error)),
                    Ok(_) => (in_use(after, now), Ok(())),
                }
            },
        },
    }
}

/// Whether a CLOSE was begun for an owner.
pub open spec fn close_begun(mount: MountView, owner: u64, attempt: Result<CloseAttempt>) -> bool {
    match gate(mount, "close"@) {
        Err(error) => attempt is Err && attempt->Err_0@ == error,
        Ok(generation) => {
            let lane = mount.state.lanes[owner];
            &&& attempt is Ok
            &&& attempt->Ok_0.generation == generation
            &&& attempt->Ok_0.owner == owner
            &&& attempt->Ok_0.seqid == lane.next_seqid
            &&& contents(attempt->Ok_0.fh) == lane.fh
            &&& attempt->Ok_0.request@ == close_request(lane)
        },
    }
}

/// Whether an attempt was refused for its input.
pub open spec fn rejected<T>(attempt: Result<T>, text: Seq<char>) -> bool {
    attempt is Err && attempt->Err_0@ == ErrorView::InvalidInput(text)
}

impl Mount40 {
    fn optional_stateid(&self, fh: &Bytes, access: u32, operation: &str) -> (result: Result<
        (Option<u64>, [u8; 16]),
    >)
        requires
            self.wf(),
        ensures
            match optional_state(self@, contents(*fh), access, operation@) {
                Ok((generation, stateid)) => result is Ok && result->Ok_0.0 == generation
                    && result->Ok_0.1@ == stateid,
                Err(error) => result is Err && result->Err_0@ == error,
            },
    {
        match self.state.for_fh(fh, access) {
            None => {
                let stateid: [u8; 16] = [0u8; 16];
                assert(stateid@ =~= anonymous());
                Ok((None, stateid))
            },
            Some(owner) => {
                let generation: u64 = self.lease.begin_stateful(operation)?;
                proof {
                    lemma_chosen_is_open(self@.state, contents(*fh), access);
                }
                let stateid: [u8; 16] = match self.state.by_owner(owner) {
                    Some(lane) => lane.stateid,
                    None => [0u8; 16],
                };
                Ok((Some(generation), stateid))
            },
        }
    }

    fn check_optional(&self, generation: Option<u64>, operation: &str) -> (result: Result<()>)
        ensures
            match optional_fence(self@, generation, operation@) {
                Ok(_) => result is Ok,
                Err(error) => result is Err && result->Err_0@ == error,
            },
    {
        match generation {
            None => Ok(()),
            Some(generation) => self.lease.validate_stateful(generation, operation),
        }
    }

    /// Begins to read bytes of a file.
    pub fn begin_read(&self, fh: &Bytes, offset: u64, count: u32) -> (attempt: Result<ReadAttempt>)
        requires
            self.wf(),
        ensures
            match optional_state(self@, contents(*fh), OPEN_READ, "read"@) {
                Ok((generation, stateid)) => {
                    &&& attempt is Ok
                    &&& attempt->Ok_0.generation == generation
                    &&& attempt->Ok_0.request@ == read_request(
                        contents(*fh),
                        stateid,
                        offset,
                        count,
                    )
                },
                Err(error) => attempt is Err && attempt->Err_0@ == error,
            },
    {
        let (generation, stateid): (Option<u64>, [u8; 16]) = self.optional_stateid(
            fh,
            OPEN_READ,
            "read",
        )?;
        let request = CompoundBuilder::new("read").putfh(as_slice(fh)).read(
            &stateid,
            offset,
            count,
        );
        Ok(ReadAttempt { generation, request })
    }

    fn finish_optional(&mut self, generation: Option<u64>, operation: &str, now: u64) -> (result: Result<
        (),
    >)
        requires
            old(self).wf(),
        ensures
            final(self).wf(),
            match optional_fence(old(self)@, generation, operation@) {
                Ok(_) => result is Ok && final(self)@ == optionally_in_use(
                    old(self)@,
                    generation,
                    now,
                ),
                Err(error) => result is Err && result->Err_0@ == error && final(self)@ == old(
                    self,
                )@,
            },
    {
        match generation {
            None => Ok(()),
            Some(generation) => self.lease.finish_stateful(generation, operation, now),
        }
    }

    /// Takes in the reply to READ.
    pub fn finish_read(&mut self, attempt: ReadAttempt, reply: Bytes, now: u64) -> (data: Result<Bytes>)
        requires
            old(self).wf(),
        ensures
            final(self).wf(),
            match read_response(contents(reply)) {
                Err(error) => data is Err && data->Err_0@ == error && final(self)@ == old(self)@,
                Ok((bytes, rest)) => match optional_fence(
                    old(self)@,
                    attempt.generation,
                    "read"@,
                ) {
                    Err(error) => data is Err && data->Err_0@ == error && final(self)@ == old(
                        self,
                    )@,
                    Ok(_) => data is Ok && contents(data->Ok_0) == bytes && final(self)@
                        == optionally_in_use(old(self)@, attempt.generation, now),
                },
            },
    {
        let data = decode_read_response(reply)?;
        self.finish_optional(attempt.generation, "read", now)?;
        Ok(data)
    }

    /// Begins to set attributes, which are given as they go over the wire. Nothing is sent if
    /// there are none; a guard cannot be expressed.
    pub fn begin_setattr(&self, fh: &Bytes, guarded: bool, bitmap: Vec<u32>, values: &[u8]) -> (attempt:
        Result<Option<SetattrAttempt>>)
        requires
            self.wf(),
        ensures
            if guarded {
                &&& attempt is Err
                &&& attempt->Err_0@ == ErrorView::Unsupported(
                    "NFSv4.0 guarded SETATTR is not representable by RFC 7530 SETATTR"@,
                )
            } else if bitmap@.len() == 0 {
                attempt is Ok && attempt->Ok_0 is None
            } else {
                match optional_state(self@, contents(*fh), OPEN_WRITE, "setattr"@) {
                    Err(error) => attempt is Err && attempt->Err_0@ == error,
                    Ok((generation, stateid)) => {
                        &&& attempt is Ok
                        &&& attempt->Ok_0 is Some
                        &&& attempt->Ok_0->Some_0.generation == generation
                        &&& attempt->Ok_0->Some_0.bitmap@ == bitmap@
                        &&& attempt->Ok_0->Some_0.request@ == setattr_request(
                            contents(*fh),
                            stateid,
                            bitmap@,
                            values@,
                        )
                    },
                }
            },
    {
        if guarded {
            return Err(
                NfsError::Unsupported(
                    String::from_str(
                        "NFSv4.0 guarded SETATTR is not representable by RFC 7530 SETATTR",
                    ),
                ),
            );
        }
        if bitmap.len() == 0 {
            return Ok(None);
        }
        let (generation, stateid): (Option<u64>, [u8; 16]) = self.optional_stateid(
            fh,
            OPEN_WRITE,
            "setattr",
        )?;
        let request = CompoundBuilder::new("setattr").putfh(as_slice(fh)).setattr(
            &stateid,
            &bitmap,
            values,
        );
        Ok(Some(SetattrAttempt { generation, bitmap, request }))
    }

    /// Takes in the reply to SETATTR.
    pub fn finish_setattr(&mut self, attempt: SetattrAttempt, reply: Result<Bytes>, now: u64) -> (result:
        Result<()>)
        requires
            old(self).wf(),
        ensures
            final(self).wf(),
            match setattr_replied(old(self)@, attempt, reply_view(reply)) {
                Err(error) => result is Err && result->Err_0@ == error && final(self)@ == old(
                    self,
                )@,
                Ok(_) => result is Ok && final(self)@ == optionally_in_use(
                    old(self)@,
                    attempt.generation,
                    now,
                ),
            },
    {
        let response = settled("setattr", 0, 0, reply)?;
        if let Err(error) = decode_setattr_response(response, &attempt.bitmap) {
            return Err(sent_failure("setattr", 0, 0, error));
        }
        self.finish_optional(attempt.generation, "setattr", now)
    }

    /// Begins to write bytes to a file that is open for writing.
    pub fn begin_write(&self, fh: &Bytes, offset: u64, len: usize) -> (attempt: Result<WriteAttempt>)
        requires
            self.wf(),
        ensures
            match gate(self@, "write"@) {
                Err(error) => attempt is Err && attempt->Err_0@ == error,
                Ok(generation) => if len > u32::MAX {
                    rejected(attempt, "WRITE data exceeds u32::MAX"@)
                } else {
                    match self@.state.chosen(contents(*fh), OPEN_WRITE) {
                        None => rejected(attempt, "NFSv4.0 WRITE requires an open file"@),
                        Some(owner) => {
                            let lane = self@.state.lanes[owner];
                            &&& attempt is Ok
                            &&& attempt->Ok_0.generation == generation
                            &&& attempt->Ok_0.owner == lane.owner
                            &&& attempt->Ok_0.seqid == lane.next_seqid
                            &&& contents(attempt->Ok_0.fh) == contents(*fh)
                            &&& attempt->Ok_0.offset == offset
                            &&& attempt->Ok_0.len == len
                            &&& attempt->Ok_0.request@ == write_request(
                                contents(*fh),
                                lane.stateid,
                                offset,
                                len as u32,
                            )
                        },
                    }
                },
            },
    {
        let generation: u64 = self.lease.begin_stateful("write")?;
        if len as u64 > u32::MAX as u64 {
            return Err(input_error("WRITE data exceeds u32::MAX"));
        }
        let chosen: Option<u64> = self.state.for_fh(fh, OPEN_WRITE);
        proof {
            lemma_chosen_is_open(self@.state, contents(*fh), OPEN_WRITE);
        }
        let lane = match chosen {
            Some(owner) => self.state.by_owner(owner),
            None => None,
        };
        match lane {
            None => Err(input_error("NFSv4.0 WRITE requires an open file")),
            Some(lane) => {
                let request = CompoundBuilder::new("write").putfh(as_slice(fh)).write_header(
                    &lane.stateid,
                    offset,
                    2,
                    len as u32,
                );
                Ok(
                    WriteAttempt {
                        generation,
                        owner: lane.owner,
                        seqid: lane.next_seqid,
                        fh: duplicate(fh),
                        offset,
                        len: len as u32,
                        request,
                    },
                )
            },
        }
    }

    /// Ends a WRITE whose bytes are stable: how many were written.
    pub fn finish_write(&mut self, pending: PendingWrite, now: u64) -> (count: Result<u32>)
        requires
            old(self).wf(),
        ensures
            final(self).wf(),
            if pending.count > pending.len {
                &&& count is Err
                &&& count->Err_0@ == ErrorView::Xdr("WRITE count exceeds request length"@)
                &&& final(self)@ == old(self)@
            } else {
                match fence(old(self)@.lease, pending.generation, "write"@) {
                    Err(error) => count is Err && count->Err_0@ == error && final(self)@ == old(
                        self,
                    )@,
                    Ok(_) => count is Ok && count->Ok_0 == pending.count && final(self)@ == in_use(
                        old(self)@,
                        now,
                    ),
                }
            },
    {
        if pending.count > pending.len {
            return Err(xdr_error("WRITE count exceeds request length"));
        }
        self.lease.finish_stateful(pending.generation, "write", now)?;
        Ok(pending.count)
    }

    /// Begins to make bytes of a file stable.
    pub fn begin_commit(&self, fh: &Bytes, offset: u64, count: u32) -> (attempt: Result<
        CommitAttempt,
    >)
        requires
            self.wf(),
        ensures
            match optional_state(self@, contents(*fh), OPEN_WRITE, "commit"@) {
                Err(error) => attempt is Err && attempt->Err_0@ == error,
                Ok((generation, _)) => {
                    &&& attempt is Ok
                    &&& attempt->Ok_0.owner == self@.state.chosen(contents(*fh), OPEN_WRITE)
                    &&& attempt->Ok_0.generation == generation
                    &&& attempt->Ok_0.request@ == commit_request(contents(*fh), offset, count)
                },
            },
    {
        let owner: Option<u64> = self.state.for_fh(fh, OPEN_WRITE);
        let generation: Option<u64> = match owner {
            Some(_) => Some(self.lease.begin_stateful("commit")?),
            None => None,
        };
        let request = CompoundBuilder::new("commit").putfh(as_slice(fh)).commit(offset, count);
        Ok(CommitAttempt { owner, generation, request })
    }

    /// Takes in the reply to COMMIT. Another verifier than that of the writes before means
    /// that the server may have lost them.
    pub fn finish_commit(&mut self, attempt: CommitAttempt, reply: Result<Bytes>) -> (result: Result<
        (),
    >)
        requires
            old(self).wf(),
        ensures
            final(self).wf(),
            ({
                let (mount, outcome) = commit_outcome(old(self)@, attempt, reply_view(reply));
                &&& final(self)@ == mount
                &&& match outcome {
                    Ok(_) => result is Ok,
                    Err(error) => result is Err && result->Err_0@ == error,
                }
            }),
    {
        let verifier: [u8; 8] = take_commit(0, reply)?;
        self.check_optional(attempt.generation, "commit")?;
        let owner: u64 = match attempt.owner {
            Some(owner) => owner,
            None => {
                return Ok(());
            },
        };
        let next: Option<OwnerLane> = match self.state.by_owner(owner) {
            None => None,
            Some(lane) => {
                if let Some(expected) = &lane.write_verifier {
                    if !equal_bytes(expected, &verifier) {
                        return Err(verifier_changed_error());
                    }
                }
                let mut next = lane.copy();
                next.write_verifier = None;
                Some(next)
            },
        };
        if let Some(next) = next {
            self.state.update(owner, next);
        }
        Ok(())
    }

    fn close_owner(&self, owner: u64) -> (attempt: Result<CloseAttempt>)
        requires
            self.wf(),
            self@.state.lanes.contains_key(owner),
        ensures
            close_begun(self@, owner, attempt),
    {
        let generation: u64 = self.lease.begin_stateful("close")?;
        match self.state.by_owner(owner) {
            Some(lane) => {
                let request = CompoundBuilder::new("close").putfh(as_slice(&lane.fh)).close(
                    lane.next_seqid,
                    &lane.stateid,
                );
                Ok(
                    CloseAttempt {
                        generation,
                        owner,
                        seqid: lane.next_seqid,
                        fh: duplicate(&lane.fh),
                        request,
                    },
                )
            },
            None => Err(input_error("NFSv4.0 CLOSE requires an open file")),
        }
    }

    /// Begins to close the file that was opened last under a filehandle.
    pub fn begin_close(&self, fh: &Bytes) -> (attempt: Result<CloseAttempt>)
        requires
            self.wf(),
        ensures
            if self@.locks.locked(contents(*fh)) {
                rejected(attempt, "NFSv4.0 CLOSE requires outstanding locks to be released"@)
            } else {
                match self@.state.chosen(contents(*fh), OPEN_BOTH) {
                    None => rejected(attempt, "NFSv4.0 CLOSE requires an open file"@),
                    Some(owner) => close_begun(self@, owner, attempt),
                }
            },
    {
        if self.locks.has_fh(fh) {
            return Err(input_error("NFSv4.0 CLOSE requires outstanding locks to be released"));
        }
        match self.state.for_fh(fh, OPEN_BOTH) {
            None => Err(input_error("NFSv4.0 CLOSE requires an open file")),
            Some(owner) => {
                proof {
                    lemma_chosen_is_open(self@.state, contents(*fh), OPEN_BOTH);
                }
                self.close_owner(owner)
            },
        }
    }

    /// Begins to close a file by the state that opening it left behind.
    pub fn begin_close_stateful(&self, fh: &Bytes, protocol_state: &Option<Bytes>) -> (attempt: Result<
        CloseAttempt,
    >)
        requires
            self.wf(),
        ensures
            if self@.locks.locked(contents(*fh)) {
                rejected(attempt, "NFSv4.0 CLOSE requires outstanding locks to be released"@)
            } else if protocol_state is None {
                rejected(attempt, "open file has no NFSv4.0 owner state"@)
            } else {
                match open_token(*protocol_state) {
                    None => rejected(attempt, "invalid NFSv4.0 open state"@),
                    Some((issuer, owner)) => if issuer != self@.issuer {
                        rejected(attempt, "open file belongs to another mount generation"@)
                    } else if !self@.state.lanes.contains_key(owner) {
                        rejected(attempt, "NFSv4.0 open state is closed or stale"@)
                    } else if self@.state.lanes[owner].fh != contents(*fh) {
                        rejected(attempt, "NFSv4.0 open state filehandle mismatch"@)
                    } else {
                        close_begun(self@, owner, attempt)
                    },
                }
            },
    {
        if self.locks.has_fh(fh) {
            return Err(input_error("NFSv4.0 CLOSE requires outstanding locks to be released"));
        }
        let named: Option<(u64, u64)> = match protocol_state {
            None => {
                return Err(input_error("open file has no NFSv4.0 owner state"));
            },
            Some(state) => decode_owner(state),
        };
        let (issuer, owner): (u64, u64) = match named {
            None => {
                return Err(input_error("invalid NFSv4.0 open state"));
            },
            Some(named) => named,
        };
        if issuer != self.issuer {
            return Err(input_error("open file belongs to another mount generation"));
        }
        match self.state.by_owner(owner) {
            None => {
                return Err(input_error("NFSv4.0 open state is closed or stale"));
            },
            Some(lane) => {
                if !same_bytes(&lane.fh, fh) {
                    return Err(input_error("NFSv4.0 open state filehandle mismatch"));
                }
            },
        }
        self.close_owner(owner)
    }

    /// Takes in the reply to CLOSE. The file is not open any more once the server says so.
    pub fn finish_close(&mut self, attempt: CloseAttempt, reply: Result<Bytes>, now: u64) -> (result:
        Result<()>)
        requires
            old(self).wf(),
        ensures
            final(self).wf(),
            ({
                let (mount, outcome) = close_outcome(old(self)@, attempt, reply_view(reply), now);
                &&& final(self)@ == mount
                &&& match outcome {
                    Ok(_) => result is Ok,
                    Err(error) => result is Err && result->Err_0@ == error,
                }
            }),
    {
        let response = settled("close", attempt.owner, attempt.seqid, reply)?;
        if let Err(error) = decode_stateid_response(response, 4, "CLOSE") {
            return Err(sent_failure("close", attempt.owner, attempt.seqid, error));
        }
        self.state.remove(attempt.owner, &attempt.fh);
        self.lease.finish_stateful(attempt.generation, "close", now)
    }
}

/// A file that the server has closed is not open any more, and other files stay open.
pub proof fn law_closed_file_is_gone(
    mount: MountView,
    attempt: CloseAttempt,
    reply: Decoded<Seq<u8>>,
    now: u64,
    other: u64,
)
    requires
        answered("close"@, attempt.owner, attempt.seqid, reply) is Ok,
        stateid_response(
            answered("close"@, attempt.owner, attempt.seqid, reply)->Ok_0,
            4,
            "CLOSE"@,
        ) is Ok,
        other != attempt.owner,
    ensures
        ({
            let after = close_outcome(mount, attempt, reply, now).0;
            &&& !after.state.lanes.contains_key(attempt.owner)
            &&& after.state.lanes.contains_key(other) == mount.state.lanes.contains_key(other)
            &&& after.state.lanes[other] == mount.state.lanes[other]
        }),
{
}

/// A file stays open until the server says that it is closed.
pub proof fn law_unanswered_close_keeps_the_file(
    mount: MountView,
    attempt: CloseAttempt,
    error: ErrorView,
    now: u64,
)
    ensures
        close_outcome(mount, attempt, Err(error), now).0 == mount,
{
}

/// Bytes whose verifier changed are never reported as stable.
pub proof fn law_changed_verifier_is_not_stable(
    mount: MountView,
    attempt: CommitAttempt,
    reply: Decoded<Seq<u8>>,
)
    requires
        attempt.owner is Some,
        mount.state.lanes.contains_key(attempt.owner->Some_0),
        mount.state.lanes[attempt.owner->Some_0].write_verifier is Some,
        commit_replied(0, reply) is Ok,
        commit_replied(0, reply)->Ok_0
            != mount.state.lanes[attempt.owner->Some_0].write_verifier->Some_0,
    ensures
        commit_outcome(mount, attempt, reply).1 is Err,
        commit_outcome(mount, attempt, reply).0 == mount,
{
}

/// READ is asked at the offset and for the count that the caller names.
pub proof fn law_read_names_its_range(fh: Seq<u8>, stateid: Seq<u8>, offset: u64, count: u32)
    requires
        fh.len() <= u32::MAX,
    ensures
        ({
            let request = read_request(fh, stateid, offset, count);
            &&& request.minor == 0
            &&& request.ops.len() == 2
            &&& request.ops[0].opcode == 22
            &&& holds(request.ops[0].args, Fields::Start.counted(fh))
            &&& request.ops[1].opcode == 25
            &&& holds(request.ops[1].args, Fields::Start.bytes(stateid).hyper(offset).word(count))
        }),
{
    broadcast use crate::wire::group_fields;

}

/// WRITE is asked at the offset that the caller names, for the length that follows, and to
/// stable storage.
pub proof fn law_write_names_its_range(fh: Seq<u8>, stateid: Seq<u8>, offset: u64, len: u32)
    requires
        fh.len() <= u32::MAX,
    ensures
        ({
            let request = write_request(fh, stateid, offset, len);
            &&& request.minor == 0
            &&& request.ops.len() == 2
            &&& request.ops[0].opcode == 22
            &&& holds(request.ops[0].args, Fields::Start.counted(fh))
            &&& request.ops[1].opcode == 38
            &&& holds(
                request.ops[1].args,
                Fields::Start.bytes(stateid).hyper(offset).word(2).word(len),
            )
            &&& number(request.ops[1].args.subrange(stateid.len() as int, stateid.len() + 8int))
                == offset
        }),
{
    broadcast use crate::wire::group_fields;

    let args = write_request(fh, stateid, offset, len).ops[1].args;
    crate::wire::law_hyper_is_a_number(offset);
    assert(args.subrange(stateid.len() as int, stateid.len() + 8int) =~= be64(offset));
}

/// COMMIT is asked for the range that the caller names.
pub proof fn law_commit_names_its_range(fh: Seq<u8>, offset: u64, count: u32)
    requires
        fh.len() <= u32::MAX,
    ensures
        ({
            let request = commit_request(fh, offset, count);
            &&& request.minor == 0
            &&& request.ops.len() == 2
            &&& request.ops[0].opcode == 22
            &&& holds(request.ops[0].args, Fields::Start.counted(fh))
            &&& request.ops[1].opcode == 5
            &&& holds(request.ops[1].args, Fields::Start.hyper(offset).word(count))
        }),
{
    broadcast use crate::wire::group_fields;

}

/// What WRITE and COMMIT are asked for one offset starts at the same byte of the file, and
/// two writes or two reads at different offsets are different requests.
pub proof fn law_write_and_commit_meet(
    fh: Seq<u8>,
    stateid: Seq<u8>,
    offset: u64,
    other: u64,
    len: u32,
)
    ensures
        write_request(fh, stateid, offset, len).ops[1].args.subrange(
            stateid.len() as int,
            stateid.len() + 8int,
        ) == commit_request(fh, offset, len).ops[1].args.take(8),
        write_request(fh, stateid, offset, len).ops[1].args.subrange(
            stateid.len() as int,
            stateid.len() + 8int,
        ) == read_request(fh, stateid, offset, len).ops[1].args.subrange(
            stateid.len() as int,
            stateid.len() + 8int,
        ),
        offset != other ==> write_request(fh, stateid, offset, len) != write_request(
            fh,
            stateid,
            other,
            len,
        ),
        offset != other ==> read_request(fh, stateid, offset, len) != read_request(
            fh,
            stateid,
            other,
            len,
        ),
        offset != other ==> commit_request(fh, offset, len) != commit_request(fh, other, len),
{
    let from = stateid.len() as int;
    crate::wire::law_hyper_is_a_number(offset);
    crate::wire::law_hyper_is_a_number(other);
    assert(write_request(fh, stateid, offset, len).ops[1].args.subrange(from, from + 8) =~= be64(
        offset,
    ));
    assert(write_request(fh, stateid, other, len).ops[1].args.subrange(from, from + 8) =~= be64(
        other,
    ));
    assert(read_request(fh, stateid, offset, len).ops[1].args.subrange(from, from + 8) =~= be64(
        offset,
    ));
    assert(read_request(fh, stateid, other, len).ops[1].args.subrange(from, from + 8) =~= be64(
        other,
    ));
    assert(commit_request(fh, offset, len).ops[1].args.take(8) =~= be64(offset));
    assert(commit_request(fh, other, len).ops[1].args.take(8) =~= be64(other));
}

/// SETATTR carries the file, the stateid, and the attributes with their bitmap.
pub proof fn law_setattr_carries_its_attributes(
    fh: Seq<u8>,
    stateid: Seq<u8>,
    bitmap: Seq<u32>,
    values: Seq<u8>,
)
    requires
        fh.len() <= u32::MAX,
        values.len() <= u32::MAX,
    ensures
        ({
            let request = setattr_request(fh, stateid, bitmap, values);
            &&& request.minor == 0
            &&& request.ops.len() == 2
            &&& request.ops[0].opcode == 22
            &&& holds(request.ops[0].args, Fields::Start.counted(fh))
            &&& request.ops[1].opcode == 34
            &&& holds(
                request.ops[1].args,
                Fields::Start.bytes(stateid).list(bitmap).counted(values),
            )
        }),
{
    broadcast use crate::wire::group_fields;

}

/// CLOSE names the open file: its handle, the next number of its owner and its stateid.
pub proof fn law_close_names_the_open_file(lane: OwnerLaneView)
    requires
        lane.fh.len() <= u32::MAX,
    ensures
        ({
            let request = close_request(lane);
            &&& request.minor == 0
            &&& request.ops.len() == 2
            &&& request.ops[0].opcode == 22
            &&& holds(request.ops[0].args, Fields::Start.counted(lane.fh))
            &&& request.ops[1].opcode == 4
            &&& holds(
                request.ops[1].args,
                Fields::Start.word(lane.next_seqid).bytes(lane.stateid),
            )
        }),
{
    broadcast use crate::wire::group_fields;

}

/// A file that is not open with the access asked for is used with the anonymous stateid, sixteen
/// zeros, on any mount; one that is open is used with its own stateid, on a mount that is ready,
/// whose generation goes with it.
pub proof fn law_open_file_is_used_with_its_stateid(
    mount: MountView,
    fh: Seq<u8>,
    access: u32,
    operation: Seq<char>,
    i: int,
)
    ensures
        anonymous().len() == 16,
        0 <= i < 16 ==> anonymous()[i] == 0,
        ({
            let used = optional_state(mount, fh, access, operation);
            match mount.state.chosen(fh, access) {
                None => used == Ok::<(Option<u64>, Seq<u8>), ErrorView>((None, anonymous())),
                Some(owner) => {
                    &&& used is Ok <==> mount.lease.lifecycle is Ready
                    &&& used is Ok ==> used->Ok_0.0 == Some(mount.lease.generation)
                        && used->Ok_0.1 == mount.state.lanes[owner].stateid
                },
            }
        }),
{
}

/// A use without state passes any fence and touches no lease; one with state passes just in its
/// generation on a mount that is ready, and keeps the lease in use.
pub proof fn law_stateless_use_is_not_fenced(
    mount: MountView,
    generation: u64,
    operation: Seq<char>,
    now: u64,
)
    ensures
        optional_fence(mount, None, operation) is Ok,
        optional_fence(mount, Some(generation), operation) is Ok <==> mount.lease.generation
            == generation && mount.lease.lifecycle is Ready,
        optionally_in_use(mount, None, now) == mount,
        optionally_in_use(mount, Some(generation), now) == in_use(mount, now),
{
}

/// A commit that the server answered with the verifier of the writes makes them stable: the
/// verifier is forgotten, and nothing else changes.
pub proof fn law_matching_verifier_is_stable(
    mount: MountView,
    attempt: CommitAttempt,
    reply: Decoded<Seq<u8>>,
    other: u64,
)
    requires
        attempt.owner is Some,
        attempt.generation is None,
        mount.state.lanes.contains_key(attempt.owner->Some_0),
        commit_replied(0, reply) is Ok,
        mount.state.lanes[attempt.owner->Some_0].write_verifier is Some ==> mount.state.lanes[
            attempt.owner->Some_0
        ].write_verifier->Some_0 == commit_replied(0, reply)->Ok_0,
        other != attempt.owner->Some_0,
    ensures
        ({
            let (after, result) = commit_outcome(mount, attempt, reply);
            let owner = attempt.owner->Some_0;
            &&& result is Ok
            &&& after.state.lanes[owner].write_verifier is None
            &&& after.state.lanes[owner].stateid == mount.state.lanes[owner].stateid
            &&& after.state.lanes[owner].fh == mount.state.lanes[owner].fh
            &&& after.state.lanes[owner].next_seqid == mount.state.lanes[owner].next_seqid
            &&& after.state.lanes[owner].access == mount.state.lanes[owner].access
            &&& after.state.lanes[other] == mount.state.lanes[other]
            &&& after.state.by_fh == mount.state.by_fh
            &&& after.locks == mount.locks
            &&& after.lease == mount.lease
        }),
{
}

/// A write, a commit and a change of attributes that the server answered give what it answered;
/// without an answer they fail.
pub proof fn law_answers_are_handed_on(
    owner: u64,
    seqid: u32,
    bytes: Seq<u8>,
    error: ErrorView,
    mount: MountView,
    attempt: SetattrAttempt,
)
    ensures
        write_response(bytes) is Ok ==> write_replied(owner, seqid, Ok(bytes)) == write_response(
            bytes,
        ),
        commit_response(bytes) is Ok ==> commit_replied(owner, Ok(bytes)) == commit_response(bytes),
        write_replied(owner, seqid, Err(error)) is Err,
        commit_replied(owner, Err(error)) is Err,
        setattr_replied(mount, attempt, Err(error)) is Err,
        setattr_response(bytes, attempt.bitmap@) is Err ==> setattr_replied(
            mount,
            attempt,
            Ok(bytes),
        ) is Err,
        setattr_response(bytes, attempt.bitmap@) is Ok && attempt.generation is None
            ==> setattr_replied(mount, attempt, Ok(bytes)) is Ok,
{
}


} // verus!
