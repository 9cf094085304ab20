//! An NFSv4.0 mount: which requests its operations send, and what the replies do to its open
//! files, its locks and its lease.
//!
//! An operation that depends on state begins with a function that returns its request and
//! ends with one that takes in the reply. What becomes of a request whose state was lost
//! meanwhile is decided by the generation in which it began.

use bytes::Bytes;
use vstd::prelude::*;
use vstd::string::StringExecFns;
use vstd::utf8::encode_utf8;

use crate::buffer::{as_slice, contents, duplicate};
use crate::error::{
    classify_sent_nfs40_error, outcome_error, sent_error, ContextView, ErrorView, NFSVersion,
    NfsError, OperationClass, OperationOutcome, RecoveryAction, RequestContext, RequestId, Result,
};
use crate::nfs4::compound::{Decoded, RawRequest, OP_GETFH, OP_PUTFH};
use crate::nfs4::status::{status_code, Nfs4ErrorCode};
use crate::nfs40::compound::{
    decode_open_response, decode_stateid_response, open_response,
    open_succeeded_before_compound_failure, open_wire, stateid_response, succeeded_before_failure,
    CompoundBuilder, OpenArgs, OP_OPEN, OP_OPEN_CONFIRM,
};
use crate::nfs40::lease::{active, deadline, fence, gated, LeaseState, MountLifecycleState};
use crate::nfs40::state::{
    encode_owner, owner_bytes, LockState, LockView, OpenState, OpenView, OwnerLane, OwnerLaneView,
};
use crate::random::random_number;
use crate::text::{decimal, hex_padded, push_hex_padded, with_number};
use crate::wire::{holds, Fields};
use crate::xdr::{be32, be64, opaque};

verus! {

pub const OPEN_READ: u32 = 1;

pub const OPEN_WRITE: u32 = 2;

pub const OPEN_BOTH: u32 = 3;

/// A mount: what is open, what is locked, and the lease that both hang on.
pub struct Mount40 {
    pub root_fh: Bytes,
    pub client_id: u64,
    /// What owners of this mount are told apart by from those of others.
    pub issuer: u64,
    pub next_owner: u64,
    pub state: OpenState,
    pub locks: LockState,
    pub lease: LeaseState,
    pub dircount: u32,
    pub maxcount: u32,
    pub rsize: u32,
    pub wsize: u32,
}

/// A mount as specifications see it.
#[verifier::ext_equal]
pub struct MountView {
    pub root_fh: Seq<u8>,
    pub client_id: u64,
    pub issuer: u64,
    pub next_owner: u64,
    pub state: OpenView,
    pub locks: LockView,
    pub lease: LeaseState,
    pub dircount: u32,
    pub maxcount: u32,
    pub rsize: u32,
    pub wsize: u32,
}

impl View for Mount40 {
    type V = MountView;

    open spec fn view(&self) -> MountView {
        MountView {
            root_fh: contents(self.root_fh),
            client_id: self.client_id,
            issuer: self.issuer,
            next_owner: self.next_owner,
            state: self.state@,
            locks: self.locks@,
            lease: self.lease,
            dircount: self.dircount,
            maxcount: self.maxcount,
            rsize: self.rsize,
            wsize: self.wsize,
        }
    }
}

/// What a request is reported as if it fails.
pub open spec fn request_context(operation: Seq<char>, owner: u64, seqid: u32) -> ContextView {
    ContextView {
        operation,
        protocol: NFSVersion::NFSv4p0,
        request_id: Some(RequestId { owner, seqid }),
    }
}

/// A request without an owner as it is reported if it fails.
pub open spec fn plain_context(operation: Seq<char>) -> ContextView {
    ContextView { operation, protocol: NFSVersion::NFSv4p0, request_id: None }
}

pub fn context(operation: &str, owner: u64, seqid: u32, class: OperationClass) -> (result: (
    OperationClass,
    RequestContext,
))
    ensures
        result.0 == class,
        result.1@ == request_context(operation@, owner, seqid),
{
    (
        class,
        RequestContext {
            operation: String::from_str(operation),
            protocol: NFSVersion::NFSv4p0,
            request_id: Some(RequestId::nfs40(owner, seqid)),
        },
    )
}

/// The error of a request that was sent, or of its reply.
pub open spec fn failed(operation: Seq<char>, owner: u64, seqid: u32, error: ErrorView) -> ErrorView {
    sent_error(OperationClass::ReplaySensitive, request_context(operation, owner, seqid), error)
}

pub(crate) fn sent_failure(operation: &str, owner: u64, seqid: u32, error: NfsError) -> (out: NfsError)
    ensures
        out@ == failed(operation@, owner, seqid, error@),
{
    let (class, ctx) = context(operation, owner, seqid, OperationClass::ReplaySensitive);
    classify_sent_nfs40_error(class, ctx, error)
}

/// A reply, or why there is none.
pub open spec fn reply_view(reply: Result<Bytes>) -> Decoded<Seq<u8>> {
    match reply {
        Ok(reply) => Ok(contents(reply)),
        Err(error) => Err(error@),
    }
}

/// A reply, or why there is none, as a request of an owner reports it.
pub open spec fn answered(operation: Seq<char>, owner: u64, seqid: u32, reply: Decoded<Seq<u8>>) -> Decoded<
    Seq<u8>,
> {
    match reply {
        Ok(reply) => Ok(reply),
        Err(error) => Err(failed(operation, owner, seqid, error)),
    }
}

pub(crate) fn settled(operation: &str, owner: u64, seqid: u32, reply: Result<Bytes>) -> (result: Result<Bytes>)
    ensures
        match answered(operation@, owner, seqid, reply_view(reply)) {
            Ok(expected) => result is Ok && contents(result->Ok_0) == expected,
            Err(error) => result is Err && result->Err_0@ == error,
        },
{
    match reply {
        Ok(reply) => Ok(reply),
        Err(error) => Err(sent_failure(operation, owner, seqid, error)),
    }
}

/// Whether a status leaves the sequence number of an owner as it was.
pub open spec fn keeps_seqid(status: u32) -> bool {
    ||| status == 10022
    ||| status == 10023
    ||| status == 10025
    ||| status == 10026
    ||| status == 10036
    ||| status == 10018
    ||| status == 10020
    ||| status == 10019
}

/// Whether a reply used up the sequence number of an owner.
pub open spec fn consumes_seqid<T>(result: Decoded<T>) -> bool {
    match result {
        Ok(_) => true,
        Err(ErrorView::LockDenied { .. }) => true,
        Err(ErrorView::Nfs4(status)) => !keeps_seqid(status_code(status)),
        Err(_) => false,
    }
}

pub fn consumes_owner_seqid(result: &Result<[u8; 16]>) -> (consumed: bool)
    ensures
        consumed == consumes_seqid(
            match *result {
                Ok(stateid) => Ok(stateid@),
                Err(error) => Err(error@),
            },
        ),
{
    match result {
        Ok(_) => true,
        Err(NfsError::LockDenied { .. }) => true,
        Err(NfsError::Nfs4(status)) => {
            let code: u32 = status.code();
            !(code == 10022 || code == 10023 || code == 10025 || code == 10026 || code == 10036
                || code == 10018 || code == 10020 || code == 10019)
        },
        Err(_) => false,
    }
}

/// The name of an owner: a prefix, the issuer and the owner in base sixteen.
pub open spec fn owner_name(prefix: Seq<char>, issuer: u64, owner: u64) -> Seq<char> {
    prefix + hex_padded(issuer as nat, 16) + "-"@ + hex_padded(owner as nat, 16)
}

pub(crate) fn name_owner(prefix: &str, issuer: u64, owner: u64) -> (name: String)
    ensures
        name@ == owner_name(prefix@, issuer, owner),
{
    let mut name = String::from_str(prefix);
    push_hex_padded(&mut name, issuer, 16);
    name.append("-");
    push_hex_padded(&mut name, owner, 16);
    name
}

/// The bytes of a text.
pub(crate) fn text_bytes(text: &str) -> (bytes: Vec<u8>)
    ensures
        bytes@ == encode_utf8(text@),
{
    vstd::slice::slice_to_vec(text.as_bytes())
}

/// An OPEN that is on its way.
#[derive(Debug)]
pub struct OpenAttempt {
    /// The generation in which it began.
    pub generation: u64,
    pub owner: u64,
    pub access: u32,
    pub create: bool,
    pub request: CompoundBuilder,
}

/// A file that the server has opened and that the mount does not know of yet.
#[derive(Debug)]
pub struct PendingOpen {
    pub generation: u64,
    pub owner: u64,
    pub access: u32,
    pub stateid: [u8; 16],
    pub fh: Bytes,
    pub next_seqid: u32,
}

/// What to do once the reply to OPEN was taken in.
#[derive(Debug)]
pub enum OpenStep {
    /// Confirm the new open-owner by a request.
    Confirm(PendingOpen, CompoundBuilder),
    /// Enter the file.
    Enter(PendingOpen),
}

/// An open file.
#[derive(Debug)]
pub struct OpenFile {
    pub fh: Bytes,
    /// What names the open-owner.
    pub protocol_state: Option<Bytes>,
}

/// The operation that an OPEN is reported as.
pub open spec fn open_operation(create: bool) -> Seq<char> {
    if create {
        "create"@
    } else {
        "open"@
    }
}

/// The request that opens a file.
pub open spec fn open_request(
    mount: MountView,
    dir_fh: Seq<u8>,
    filename: Seq<char>,
    access: u32,
    create: bool,
) -> RawRequest {
    let owner = encode_utf8(owner_name("nfs-rs-"@, mount.issuer, mount.next_owner));
    RawRequest { tag: open_operation(create), minor: 0, ops: Seq::empty() }.with_op(
        OP_PUTFH,
        opaque(dir_fh),
    ).with_op(
        OP_OPEN,
        open_wire(0, access, mount.client_id, owner, filename, create),
    ).with_op(OP_GETFH, Seq::empty())
}

/// What the reply to an OPEN means: the state, whether it has to be confirmed, and the
/// filehandle.
pub open spec fn open_replied(create: bool, owner: u64, reply: Decoded<Seq<u8>>) -> Decoded<
    (Seq<u8>, bool, Seq<u8>),
> {
    match answered(open_operation(create), owner, 0, reply) {
        Err(error) => Err(error),
        Ok(bytes) => match open_response(bytes) {
            Ok(opened) => Ok(opened),
            Err(error) => Err(
                if succeeded_before_failure(bytes, OP_OPEN) {
                    unsettled(open_operation(create), owner, error)
                } else {
                    failed(open_operation(create), owner, 0, error)
                },
            ),
        },
    }
}

/// The error of a request whose first part took effect.
pub open spec fn unsettled(operation: Seq<char>, owner: u64, error: ErrorView) -> ErrorView {
    ErrorView::OperationOutcome {
        outcome: OperationOutcome::Uncertain,
        class: OperationClass::ReplaySensitive,
        recovery: RecoveryAction::VerifyThenResume,
        context: request_context(operation, owner, 0),
        source: Box::new(error),
    }
}

/// The request that confirms an open-owner.
pub open spec fn confirm_request(fh: Seq<u8>, stateid: Seq<u8>, seqid: u32) -> RawRequest {
    RawRequest { tag: "open_confirm"@, minor: 0, ops: Seq::empty() }.with_op(
        OP_PUTFH,
        opaque(fh),
    ).with_op(OP_OPEN_CONFIRM, stateid + be32(seqid))
}

impl OpenAttempt {
    /// Takes in the reply to OPEN.
    pub fn replied(self, reply: Result<Bytes>) -> (step: Result<OpenStep>)
        ensures
            match open_replied(self.create, self.owner, reply_view(reply)) {
                Err(error) => step is Err && step->Err_0@ == error,
                Ok((stateid, confirm, fh)) => {
                    &&& step is Ok
                    &&& confirm == (step->Ok_0 is Confirm)
                    &&& ({
                        let pending = match step->Ok_0 {
                            OpenStep::Confirm(pending, _) => pending,
                            OpenStep::Enter(pending) => pending,
                        };
                        &&& pending.generation == self.generation
                        &&& pending.owner == self.owner
                        &&& pending.access == self.access
                        &&& pending.stateid@ == stateid
                        &&& contents(pending.fh) == fh
                        &&& pending.next_seqid == 1
                    })
                    &&& step->Ok_0 matches OpenStep::Confirm(_, request) ==> request@
                        == confirm_request(fh, stateid, 1)
                },
            },
    {
        let operation = if self.create { "create" } else { "open" };
        let response = settled(operation, self.owner, 0, reply)?;
        let partial_success = open_succeeded_before_compound_failure(duplicate(&response));
        let (opened, fh) = match decode_open_response(response) {
            Ok(opened) => opened,
            Err(error) => {
                if partial_success {
                    let (class, ctx) = context(
                        operation,
                        self.owner,
                        0,
                        OperationClass::ReplaySensitive,
                    );
                    return Err(
                        outcome_error(
                            OperationOutcome::Uncertain,
                            class,
                            RecoveryAction::VerifyThenResume,
                            ctx,
                            error,
                        ),
                    );
                }
                return Err(sent_failure(operation, self.owner, 0, error));
            },
        };
        let pending = PendingOpen {
            generation: self.generation,
            owner: self.owner,
            access: self.access,
            stateid: opened.stateid,
            fh,
            next_seqid: 1,
        };
        if opened.confirm_required {
            let request = CompoundBuilder::new("open_confirm").putfh(
                as_slice(&pending.fh),
            ).open_confirm(&pending.stateid, 1);
            Ok(OpenStep::Confirm(pending, request))
        } else {
            Ok(OpenStep::Enter(pending))
        }
    }
}

/// What the reply to OPEN_CONFIRM means: the state that is confirmed.
pub open spec fn confirm_replied(owner: u64, seqid: u32, reply: Decoded<Seq<u8>>) -> Decoded<Seq<u8>> {
    match answered("open_confirm"@, owner, seqid, reply) {
        Err(error) => Err(error),
        Ok(bytes) => match stateid_response(bytes, 20, "OPEN_CONFIRM"@) {
            Ok(stateid) => Ok(stateid),
            Err(error) => Err(failed("open_confirm"@, owner, seqid, error)),
        },
    }
}

impl PendingOpen {
    /// Takes in the reply to OPEN_CONFIRM.
    pub fn confirmed(self, reply: Result<Bytes>) -> (pending: Result<PendingOpen>)
        ensures
            match confirm_replied(self.owner, self.next_seqid, reply_view(reply)) {
                Err(error) => pending is Err && pending->Err_0@ == error,
                Ok(stateid) => {
                    &&& pending is Ok
                    &&& pending->Ok_0.stateid@ == stateid
                    &&& pending->Ok_0.next_seqid == self.next_seqid.wrapping_add(1)
                    &&& pending->Ok_0.generation == self.generation
                    &&& pending->Ok_0.owner == self.owner
                    &&& pending->Ok_0.access == self.access
                    &&& pending->Ok_0.fh == self.fh
                },
            },
    {
        let response = settled("open_confirm", self.owner, self.next_seqid, reply)?;
        match decode_stateid_response(response, 20, "OPEN_CONFIRM") {
            Ok(stateid) => Ok(
                PendingOpen { stateid, next_seqid: self.next_seqid.wrapping_add(1), ..self },
            ),
            Err(error) => Err(
                sent_failure("open_confirm", self.owner, self.next_seqid, error),
            ),
        }
    }
}

/// Whether an operation that depends on state may begin.
pub open spec fn gate(mount: MountView, operation: Seq<char>) -> Decoded<u64> {
    if mount.lease.lifecycle == MountLifecycleState::Ready {
        Ok(mount.lease.generation)
    } else {
        Err(gated(operation, mount.lease.lifecycle))
    }
}

/// The mount after an operation that depends on state succeeded.
pub open spec fn in_use(mount: MountView, now: u64) -> MountView {
    MountView { lease: active(mount.lease, now), ..mount }
}

/// The mount with a file that was opened.
pub open spec fn entered(mount: MountView, pending: PendingOpen) -> MountView {
    MountView {
        state: mount.state.with_lane(
            OwnerLaneView {
                owner: pending.owner,
                next_seqid: pending.next_seqid,
                stateid: pending.stateid@,
                fh: contents(pending.fh),
                access: pending.access,
                write_verifier: None,
            },
        ),
        ..mount
    }
}

/// The lease of a mount that was made just now.
pub open spec fn fresh_lease(lease_seconds: u32, now: u64) -> LeaseState {
    LeaseState {
        lifecycle: MountLifecycleState::Ready,
        generation: 1,
        healthy: true,
        lease_seconds,
        renewals: 0,
        expires_at: deadline(lease_seconds, now),
    }
}

/// A mount without open files. `page` holds the dircount and the maxcount of a directory page,
/// and `transfer` the largest read and the largest write.
pub open spec fn fresh_mount(
    root_fh: Seq<u8>,
    client_id: u64,
    issuer: u64,
    lease: LeaseState,
    page: (u32, u32),
    transfer: (u32, u32),
) -> MountView {
    MountView {
        root_fh,
        client_id,
        issuer,
        next_owner: 1,
        state: OpenView { lanes: Map::empty(), by_fh: Map::empty() },
        locks: LockView { lanes: Map::empty(), aliases: Map::empty(), held: Map::empty() },
        lease,
        dircount: page.0,
        maxcount: page.1,
        rsize: transfer.0,
        wsize: transfer.1,
    }
}

impl Mount40 {
    pub open spec fn wf(self) -> bool {
        self.state.wf() && self.locks.wf()
    }

    /// A mount without open files.
    pub fn new(
        root_fh: Bytes,
        client_id: u64,
        issuer: u64,
        lease_seconds: u32,
        now: u64,
        dircount: u32,
        maxcount: u32,
        rsize: u32,
        wsize: u32,
    ) -> (mount: Self)
        ensures
            mount.wf(),
            mount@ == fresh_mount(
                contents(root_fh),
                client_id,
                issuer,
                fresh_lease(lease_seconds, now),
                (dircount, maxcount),
                (rsize, wsize),
            ),
    {
        Mount40 {
            root_fh,
            client_id,
            issuer,
            next_owner: 1,
            state: OpenState::new(),
            locks: LockState::new(),
            lease: LeaseState::ready(1, lease_seconds, now),
            dircount,
            maxcount,
            rsize,
            wsize,
        }
    }

    /// A mount without open files whose issuer is drawn at random.
    pub fn establish(
        root_fh: Bytes,
        client_id: u64,
        lease_seconds: u32,
        now: u64,
        dircount: u32,
        maxcount: u32,
        rsize: u32,
        wsize: u32,
    ) -> (mount: Self)
        ensures
            mount.wf(),
            exists|issuer: u64|
                mount@ == #[trigger] fresh_mount(
                    contents(root_fh),
                    client_id,
                    issuer,
                    fresh_lease(lease_seconds, now),
                    (dircount, maxcount),
                    (rsize, wsize),
                ),
    {
        let issuer: u64 = random_number();
        Self::new(
            root_fh,
            client_id,
            issuer,
            lease_seconds,
            now,
            dircount,
            maxcount,
            rsize,
            wsize,
        )
    }

    /// Takes the number of a new owner.
    pub(crate) fn take_owner(&mut self) -> (owner: u64)
        requires
            old(self).wf(),
        ensures
            final(self).wf(),
            owner == old(self)@.next_owner,
            final(self)@ == (MountView {
                next_owner: old(self)@.next_owner.wrapping_add(1),
                ..old(self)@
            }),
    {
        let owner: u64 = self.next_owner;
        self.next_owner = self.next_owner.wrapping_add(1);
        owner
    }

    /// Begins to open a file of a directory, or to create one.
    pub fn begin_open(&mut self, dir_fh: &Bytes, filename: &str, access: u32, create: bool) -> (attempt:
        Result<OpenAttempt>)
        requires
            old(self).wf(),
        ensures
            final(self).wf(),
            match gate(old(self)@, "open"@) {
                Err(error) => {
                    &&& attempt is Err
                    &&& attempt->Err_0@ == error
                    &&& final(self)@ == old(self)@
                },
                Ok(generation) => if access != OPEN_READ && access != OPEN_WRITE && access
                    != OPEN_BOTH {
                    &&& attempt is Err
                    &&& attempt->Err_0@ == ErrorView::InvalidInput(
                        "invalid OPEN access "@ + decimal(access as nat),
                    )
                    &&& final(self)@ == old(self)@
                } else {
                    &&& attempt is Ok
                    &&& attempt->Ok_0.generation == generation
                    &&& attempt->Ok_0.owner == old(self)@.next_owner
                    &&& attempt->Ok_0.access == access
                    &&& attempt->Ok_0.create == create
                    &&& attempt->Ok_0.request@ == open_request(
                        old(self)@,
                        contents(*dir_fh),
                        filename@,
                        access,
                        create,
                    )
                    &&& final(self)@ == (MountView {
                        next_owner: old(self)@.next_owner.wrapping_add(1),
                        ..old(self)@
                    })
                },
            },
    {
        let generation: u64 = self.lease.begin_stateful("open")?;
        if access != OPEN_READ && access != OPEN_WRITE && access != OPEN_BOTH {
            return Err(
                NfsError::InvalidInput(with_number("invalid OPEN access ", access as u64)),
            );
        }
        let owner: u64 = self.take_owner();
        let owner_wire = text_bytes(name_owner("nfs-rs-", self.issuer, owner).as_str());
        let request = CompoundBuilder::new(if create { "create" } else { "open" }).putfh(
            as_slice(dir_fh),
        ).open(
            OpenArgs {
                seqid: 0,
                share_access: access,
                client_id: self.client_id,
                owner: &owner_wire,
                filename,
                create,
            },
        ).getfh();
        Ok(OpenAttempt { generation, owner, access, create, request })
    }

    /// Enters a file that the server has opened, unless the mount lost its state meanwhile.
    pub fn finish_open(&mut self, pending: PendingOpen, now: u64) -> (opened: Result<OpenFile>)
        requires
            old(self).wf(),
        ensures
            final(self).wf(),
            match fence(old(self)@.lease, pending.generation, "open"@) {
                Err(error) => {
                    &&& opened is Err
                    &&& opened->Err_0@ == error
                    &&& final(self)@ == old(self)@
                },
                Ok(_) => {
                    &&& opened is Ok
                    &&& contents(opened->Ok_0.fh) == contents(pending.fh)
                    &&& opened->Ok_0.protocol_state is Some
                    &&& contents(opened->Ok_0.protocol_state->Some_0) == owner_bytes(
                        old(self)@.issuer,
                        pending.owner,
                    )
                    &&& final(self)@ == entered(in_use(old(self)@, now), pending)
                },
            },
    {
        self.lease.finish_stateful(pending.generation, "open", now)?;
        let fh = duplicate(&pending.fh);
        let lane = OwnerLane {
            owner: pending.owner,
            next_seqid: pending.next_seqid,
            stateid: pending.stateid,
            fh: pending.fh,
            access: pending.access,
            write_verifier: None,
        };
        self.state.register(lane);
        Ok(
            OpenFile { fh, protocol_state: Some(encode_owner(self.issuer, pending.owner)) },
        )
    }
}

/// OPEN is asked in the directory, for the name and the access that the caller names, denies
/// nothing, and is made by a new owner that starts its count; to create a file it asks for an
/// unchecked creation that sets no attribute.
pub proof fn law_open_names_the_file(
    mount: MountView,
    dir_fh: Seq<u8>,
    filename: Seq<char>,
    access: u32,
    create: bool,
)
    requires
        dir_fh.len() <= u32::MAX,
        encode_utf8(filename).len() <= u32::MAX,
        encode_utf8(owner_name("nfs-rs-"@, mount.issuer, mount.next_owner)).len() <= u32::MAX,
    ensures
        ({
            let request = open_request(mount, dir_fh, filename, access, create);
            let owner = encode_utf8(owner_name("nfs-rs-"@, mount.issuer, mount.next_owner));
            let head = Fields::Start.word(0).word(access).word(0).hyper(mount.client_id).counted(
                owner,
            );
            &&& request.minor == 0
            &&& request.ops.len() == 3
            &&& request.ops[0].opcode == 22
            &&& holds(request.ops[0].args, Fields::Start.counted(dir_fh))
            &&& request.ops[1].opcode == 18
            &&& holds(
                request.ops[1].args,
                (if create {
                    head.word(1).word(0).word(0).counted(Seq::empty())
                } else {
                    head.word(0)
                }).word(0).counted(encode_utf8(filename)),
            )
            &&& request.ops[2].opcode == 10
            &&& holds(request.ops[2].args, Fields::Start)
        }),
{
    broadcast use crate::wire::group_fields;

    let owner = encode_utf8(owner_name("nfs-rs-"@, mount.issuer, mount.next_owner));
    let head = be32(0) + be32(access) + be32(0) + be64(mount.client_id) + opaque(owner);
    let fields = Fields::Start.word(0).word(access).word(0).hyper(mount.client_id).counted(owner);
    assert(holds(head, fields));
    if create {
        let how = be32(1) + be32(0) + be32(0) + opaque(Seq::empty());
        assert(head + how =~= head + be32(1) + be32(0) + be32(0) + opaque(Seq::empty()));
    }
}

/// OPEN_CONFIRM names the file, its stateid and the number that comes next.
pub proof fn law_confirm_names_the_open_file(fh: Seq<u8>, stateid: Seq<u8>, seqid: u32)
    requires
        fh.len() <= u32::MAX,
    ensures
        ({
            let request = confirm_request(fh, stateid, seqid);
            &&& request.minor == 0
            &&& request.ops.len() == 2
            &&& request.ops[0].opcode == 22
            &&& holds(request.ops[0].args, Fields::Start.counted(fh))
            &&& request.ops[1].opcode == 20
            &&& holds(request.ops[1].args, Fields::Start.bytes(stateid).word(seqid))
        }),
{
    broadcast use crate::wire::group_fields;

}

/// Owners of different mounts, and different owners of one mount, have different names.
pub proof fn law_owner_names_are_distinct(
    prefix: Seq<char>,
    issuer: u64,
    owner: u64,
    other_issuer: u64,
    other: u64,
)
    requires
        issuer != other_issuer || owner != other,
    ensures
        owner_name(prefix, issuer, owner) != owner_name(prefix, other_issuer, other),
{
    let a = owner_name(prefix, issuer, owner);
    let b = owner_name(prefix, other_issuer, other);
    let n = prefix.len() as int;
    crate::text::lemma_sixteen_digits_hold_a_hyper(issuer);
    crate::text::lemma_sixteen_digits_hold_a_hyper(owner);
    crate::text::lemma_sixteen_digits_hold_a_hyper(other_issuer);
    crate::text::lemma_sixteen_digits_hold_a_hyper(other);
    crate::text::law_padded_hex_is_read_back(issuer as nat, 16);
    crate::text::law_padded_hex_is_read_back(owner as nat, 16);
    crate::text::law_padded_hex_is_read_back(other_issuer as nat, 16);
    crate::text::law_padded_hex_is_read_back(other as nat, 16);
    reveal_strlit("-");
    assert(a.subrange(n, n + 16) =~= hex_padded(issuer as nat, 16));
    assert(b.subrange(n, n + 16) =~= hex_padded(other_issuer as nat, 16));
    assert(a.skip(n + 17) =~= hex_padded(owner as nat, 16));
    assert(b.skip(n + 17) =~= hex_padded(other as nat, 16));
}

/// The number of an owner is used up by every answer but those with which the server says that
/// it did not take the request up: the client or the stateid is not known or stale, the number
/// is out of order, the request could not be read, resources are short, there is no current
/// handle, or the file system moved. Without an answer from the server it is not used up.
pub proof fn law_answers_use_up_the_number<T>(value: T, status: Nfs4ErrorCode, text: Seq<char>)
    ensures
        consumes_seqid(Ok::<T, ErrorView>(value)),
        consumes_seqid::<T>(Err(ErrorView::Nfs4(status))) <==> !(status
            == Nfs4ErrorCode::NFS4ERR_STALE_CLIENTID || status
            == Nfs4ErrorCode::NFS4ERR_STALE_STATEID || status == Nfs4ErrorCode::NFS4ERR_BAD_STATEID
            || status == Nfs4ErrorCode::NFS4ERR_BAD_SEQID || status
            == Nfs4ErrorCode::NFS4ERR_BADXDR || status == Nfs4ErrorCode::NFS4ERR_RESOURCE || status
            == Nfs4ErrorCode::NFS4ERR_NOFILEHANDLE || status == Nfs4ErrorCode::NFS4ERR_MOVED),
        !consumes_seqid::<T>(Err(ErrorView::Xdr(text))),
        !consumes_seqid::<T>(Err(ErrorView::Rpc(text))),
{
}

/// Operations are let through on a mount that is ready, and held back on any other; what is let
/// through carries the generation of the mount, with which the fence lets it pass as long as
/// the mount stays ready and keeps its generation.
pub proof fn law_gate_and_fence_agree(mount: MountView, operation: Seq<char>)
    ensures
        gate(mount, operation) is Ok <==> mount.lease.lifecycle is Ready,
        gate(mount, operation) is Ok ==> fence(
            mount.lease,
            gate(mount, operation)->Ok_0,
            operation,
        ) is Ok,
        gate(mount, operation) is Err ==> forall|generation: u64|
            (#[trigger] fence(mount.lease, generation, operation)) is Err,
{
}

/// A file that was opened is found by its owner, with the handle, the stateid, the access and
/// the next number that the server and the request gave it; what other owners hold stays.
pub proof fn law_opened_file_is_entered(mount: MountView, pending: PendingOpen, other: u64)
    requires
        other != pending.owner,
    ensures
        ({
            let after = entered(mount, pending);
            let lane = after.state.lanes[pending.owner];
            &&& after.state.lanes.contains_key(pending.owner)
            &&& lane.owner == pending.owner
            &&& lane.fh == contents(pending.fh)
            &&& lane.stateid == pending.stateid@
            &&& lane.access == pending.access
            &&& lane.next_seqid == pending.next_seqid
            &&& lane.write_verifier is None
            &&& after.state.lanes.contains_key(other) == mount.state.lanes.contains_key(other)
            &&& after.state.lanes[other] == mount.state.lanes[other]
            &&& after.locks == mount.locks
            &&& after.lease == mount.lease
            &&& after.client_id == mount.client_id
            &&& after.next_owner == mount.next_owner
        }),
{
}

/// A new mount is ready in its first generation, holds nothing, and keeps what it was made
/// with.
pub proof fn law_new_mount_holds_nothing(
    root_fh: Seq<u8>,
    client_id: u64,
    issuer: u64,
    lease_seconds: u32,
    now: u64,
    page: (u32, u32),
    transfer: (u32, u32),
    owner: u64,
    operation: Seq<char>,
)
    ensures
        ({
            let mount = fresh_mount(
                root_fh,
                client_id,
                issuer,
                fresh_lease(lease_seconds, now),
                page,
                transfer,
            );
            &&& mount.locks.wf()
            &&& mount.root_fh == root_fh
            &&& mount.client_id == client_id
            &&& mount.issuer == issuer
            &&& mount.dircount == page.0
            &&& mount.maxcount == page.1
            &&& mount.rsize == transfer.0
            &&& mount.wsize == transfer.1
            &&& mount.next_owner == 1
            &&& !mount.state.lanes.contains_key(owner)
            &&& !mount.locks.held.contains_key(owner)
            &&& gate(mount, operation) == Ok::<u64, ErrorView>(1)
            &&& mount.lease.healthy
            &&& mount.lease.renewals == 0
            &&& mount.lease.lease_seconds == lease_seconds
            &&& now + lease_seconds * 1000 <= u64::MAX ==> mount.lease.expires_at - now
                == lease_seconds * 1000
        }),
{
}


/// An open and its confirmation hand out what the server answered. Where the server had opened
/// the file before the request failed, the failure is uncertain; a status is reported as it is.
pub proof fn law_open_hands_out_the_answer(
    create: bool,
    owner: u64,
    seqid: u32,
    bytes: Seq<u8>,
    error: ErrorView,
)
    ensures
        open_response(bytes) is Ok ==> open_replied(create, owner, Ok(bytes)) == open_response(
            bytes,
        ),
        open_response(bytes) is Err && succeeded_before_failure(bytes, 18) ==> {
            let failure = open_replied(create, owner, Ok(bytes));
            &&& failure is Err
            &&& failure->Err_0 is OperationOutcome
            &&& failure->Err_0->OperationOutcome_outcome is Uncertain
            &&& *failure->Err_0->OperationOutcome_source == open_response(bytes)->Err_0
        },
        open_response(bytes) is Err && open_response(bytes)->Err_0 is Nfs4
            && !succeeded_before_failure(bytes, 18) ==> open_replied(create, owner, Ok(bytes))
            == open_response(bytes),
        open_replied(create, owner, Err(error)) is Err,
        stateid_response(bytes, 20, "OPEN_CONFIRM"@) is Ok ==> confirm_replied(
            owner,
            seqid,
            Ok(bytes),
        ) == stateid_response(bytes, 20, "OPEN_CONFIRM"@),
        confirm_replied(owner, seqid, Err(error)) is Err,
{
}


} // verus!
