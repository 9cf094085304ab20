//! The errors of the library.

use bytes::Bytes;
use vstd::prelude::*;
use vstd::string::StringExecFns;

use crate::buffer::contents;
use crate::nfs4::status::{status_text, Nfs4ErrorCode};
use crate::text::{around_number, concat2, decimal};

verus! {

/// What a transport reports when it fails.
#[derive(Clone, Copy, Debug, PartialEq, Eq, Structural)]
pub enum IoErrorKind {
    ConnectionRefused,
    ConnectionReset,
    ConnectionAborted,
    NotConnected,
    AddrNotAvailable,
    NetworkUnreachable,
    HostUnreachable,
    TimedOut,
    BrokenPipe,
    UnexpectedEof,
    Interrupted,
    WouldBlock,
    PermissionDenied,
    InvalidData,
    Other,
}

/// The protocol of a mount.
#[derive(Clone, Copy, Debug, PartialEq, Eq, Structural)]
pub enum NFSVersion {
    NFSv3,
    NFSv4p0,
    NFSv4p1,
}

/// What sending a request twice would do.
#[derive(Clone, Copy, Debug, PartialEq, Eq, Structural)]
pub enum OperationClass {
    ReadOnly,
    SessionControl,
    ReplaySensitive,
}

/// What is known of a request that did not complete.
#[derive(Clone, Copy, Debug, PartialEq, Eq, Structural)]
pub enum OperationOutcome {
    NotApplied,
    Applied,
    Uncertain,
}

/// What a caller can do about a request that did not complete.
#[derive(Clone, Copy, Debug, PartialEq, Eq, Structural)]
pub enum RecoveryAction {
    Retry,
    VerifyThenResume,
    Reopen,
}

/// The owner and the sequence number that name an NFSv4.0 request.
#[derive(Clone, Copy, Debug, PartialEq, Eq, Structural)]
pub struct RequestId {
    pub owner: u64,
    pub seqid: u32,
}

impl RequestId {
    pub fn nfs40(owner: u64, seqid: u32) -> (id: Self)
        ensures
            id == (RequestId { owner, seqid }),
    {
        RequestId { owner, seqid }
    }
}

/// The request that an error is about.
#[derive(Clone, Debug)]
pub struct RequestContext {
    pub operation: String,
    pub protocol: NFSVersion,
    pub request_id: Option<RequestId>,
}

/// A [`RequestContext`] as specifications see it.
pub struct ContextView {
    pub operation: Seq<char>,
    pub protocol: NFSVersion,
    pub request_id: Option<RequestId>,
}

impl View for RequestContext {
    type V = ContextView;

    open spec fn view(&self) -> ContextView {
        ContextView {
            operation: self.operation@,
            protocol: self.protocol,
            request_id: self.request_id,
        }
    }
}

/// A request whose outcome the caller has to settle.
#[derive(Debug)]
pub struct OperationOutcomeError {
    pub outcome: OperationOutcome,
    pub class: OperationClass,
    pub recovery: RecoveryAction,
    pub context: RequestContext,
    pub source: NfsError,
}

impl OperationOutcomeError {
    pub fn new(
        outcome: OperationOutcome,
        class: OperationClass,
        recovery: RecoveryAction,
        context: RequestContext,
        source: NfsError,
    ) -> (error: Self)
        ensures
            error == (OperationOutcomeError { outcome, class, recovery, context, source }),
    {
        OperationOutcomeError { outcome, class, recovery, context, source }
    }
}

/// Everything that can go wrong.
#[derive(Debug)]
pub enum NfsError {
    Io(IoErrorKind),
    Rpc(String),
    Xdr(String),
    Nfs4(Nfs4ErrorCode),
    Unsupported(String),
    InvalidInput(String),
    LockDenied { lock_type: u32, offset: u64, length: u64, owner: Bytes },
    OperationOutcome(Box<OperationOutcomeError>),
}

/// An [`NfsError`] as specifications see it: text as its characters, buffers as their
/// bytes.
pub enum ErrorView {
    Io(IoErrorKind),
    Rpc(Seq<char>),
    Xdr(Seq<char>),
    Nfs4(Nfs4ErrorCode),
    Unsupported(Seq<char>),
    InvalidInput(Seq<char>),
    LockDenied { lock_type: u32, offset: u64, length: u64, owner: Seq<u8> },
    OperationOutcome {
        outcome: OperationOutcome,
        class: OperationClass,
        recovery: RecoveryAction,
        context: ContextView,
        source: Box<ErrorView>,
    },
}

/// What specifications see of an error.
pub open spec fn error_view(error: NfsError) -> ErrorView
    decreases error,
{
    match error {
        NfsError::Io(kind) => ErrorView::Io(kind),
        NfsError::Rpc(text) => ErrorView::Rpc(text@),
        NfsError::Xdr(text) => ErrorView::Xdr(text@),
        NfsError::Nfs4(status) => ErrorView::Nfs4(status),
        NfsError::Unsupported(text) => ErrorView::Unsupported(text@),
        NfsError::InvalidInput(text) => ErrorView::InvalidInput(text@),
        NfsError::LockDenied { lock_type, offset, length, owner } => ErrorView::LockDenied {
            lock_type,
            offset,
            length,
            owner: contents(owner),
        },
        NfsError::OperationOutcome(error) => ErrorView::OperationOutcome {
            outcome: error.outcome,
            class: error.class,
            recovery: error.recovery,
            context: error.context@,
            source: Box::new(error_view(error.source)),
        },
    }
}

impl View for NfsError {
    type V = ErrorView;

    open spec fn view(&self) -> ErrorView {
        error_view(*self)
    }
}

impl NfsError {
    /// What the caller has to settle, if the error is about that.
    pub fn operation_outcome(&self) -> (outcome: Option<&OperationOutcomeError>)
        ensures
            match *self {
                NfsError::OperationOutcome(error) => outcome == Some(&*error),
                _ => outcome is None,
            },
    {
        match self {
            NfsError::OperationOutcome(error) => Some(error),
            _ => None,
        }
    }
}

/// What an error says in words.
pub open spec fn error_text(error: ErrorView) -> Seq<char>
    decreases error,
{
    match error {
        ErrorView::Io(kind) => "transport failed"@,
        ErrorView::Rpc(text) => "RPC error: "@ + text,
        ErrorView::Xdr(text) => "XDR error: "@ + text,
        ErrorView::Nfs4(status) => "NFSv4 error: "@ + status_text(status),
        ErrorView::Unsupported(text) => "unsupported: "@ + text,
        ErrorView::InvalidInput(text) => "invalid input: "@ + text,
        ErrorView::LockDenied { .. } => "a conflicting lock is held"@,
        ErrorView::OperationOutcome { source, .. } => "outcome to be settled: "@ + error_text(*source),
    }
}

impl NfsError {
    /// What the error says in words.
    pub fn to_string(&self) -> (text: String)
        ensures
            text@ == error_text(self@),
        decreases self,
    {
        match self {
            NfsError::Io(_) => String::from_str("transport failed"),
            NfsError::Rpc(text) => concat2("RPC error: ", text.as_str()),
            NfsError::Xdr(text) => concat2("XDR error: ", text.as_str()),
            NfsError::Nfs4(status) => concat2("NFSv4 error: ", status.to_string().as_str()),
            NfsError::Unsupported(text) => concat2("unsupported: ", text.as_str()),
            NfsError::InvalidInput(text) => concat2("invalid input: ", text.as_str()),
            NfsError::LockDenied { .. } => String::from_str("a conflicting lock is held"),
            NfsError::OperationOutcome(error) => concat2(
                "outcome to be settled: ",
                error.source.to_string().as_str(),
            ),
        }
    }
}

/// The result of an operation of the library.
pub type Result<T> = std::result::Result<T, NfsError>;

/// A malformed message.
pub fn xdr_error(text: &str) -> (error: NfsError)
    ensures
        error@ == ErrorView::Xdr(text@),
{
    NfsError::Xdr(String::from_str(text))
}

/// A failed call.
pub fn rpc_error(text: &str) -> (error: NfsError)
    ensures
        error@ == ErrorView::Rpc(text@),
{
    NfsError::Rpc(String::from_str(text))
}

/// An argument that the library rejects.
pub fn input_error(text: &str) -> (error: NfsError)
    ensures
        error@ == ErrorView::InvalidInput(text@),
{
    NfsError::InvalidInput(String::from_str(text))
}

/// A status word that stands for no status.
pub open spec fn bad_status(code: u32) -> ErrorView {
    ErrorView::Xdr("invalid nfsstat4 "@ + decimal(code as nat) + ": unknown status"@)
}

/// The status of a reply, or the error for a word that is none.
pub fn decode_nfsstat4(code: u32) -> (status: Result<Nfs4ErrorCode>)
    ensures
        match crate::nfs4::status::status_word(code) {
            Ok(expected) => status is Ok && status->Ok_0 == expected,
            Err(expected) => status is Err && status->Err_0@ == expected,
        },
{
    match Nfs4ErrorCode::from_code(code) {
        Some(status) => {
            proof {
                crate::nfs4::status::lemma_status_of_code(status);
            }
            Ok(status)
        },
        None => Err(NfsError::Xdr(around_number("invalid nfsstat4 ", code as u64, ": unknown status"))),
    }
}

/// An outcome that the caller has to settle.
pub fn outcome_error(
    outcome: OperationOutcome,
    class: OperationClass,
    recovery: RecoveryAction,
    context: RequestContext,
    source: NfsError,
) -> (error: NfsError)
    ensures
        error@ == (ErrorView::OperationOutcome {
            outcome,
            class,
            recovery,
            context: context@,
            source: Box::new(source@),
        }),
{
    NfsError::OperationOutcome(
        Box::new(OperationOutcomeError::new(outcome, class, recovery, context, source)),
    )
}

/// What a request that was sent and failed is reported as. A server that answered has
/// settled the matter; a request that would do harm twice and got no answer has not been.
pub open spec fn sent_error(class: OperationClass, context: ContextView, error: ErrorView) -> ErrorView {
    match error {
        ErrorView::Io(_) | ErrorView::Rpc(_) | ErrorView::Xdr(_) => if class
            == OperationClass::ReplaySensitive {
            ErrorView::OperationOutcome {
                outcome: OperationOutcome::Uncertain,
                class,
                recovery: RecoveryAction::VerifyThenResume,
                context,
                source: Box::new(error),
            }
        } else {
            error
        },
        _ => error,
    }
}

pub fn classify_sent_nfs40_error(class: OperationClass, context: RequestContext, error: NfsError) -> (out:
    NfsError)
    ensures
        out@ == sent_error(class, context@, error@),
{
    let unanswered = match &error {
        NfsError::Io(_) | NfsError::Rpc(_) | NfsError::Xdr(_) => true,
        _ => false,
    };
    if unanswered {
        if let OperationClass::ReplaySensitive = class {
            return outcome_error(
                OperationOutcome::Uncertain,
                class,
                RecoveryAction::VerifyThenResume,
                context,
                error,
            );
        }
    }
    error
}

/// An error that leaves open whether the server acted is reported as uncertain where the request
/// must not be repeated blindly, with the error itself inside; any other error, and any error of
/// a request that can be repeated, is reported as it is.
pub proof fn law_uncertain_outcomes_are_reported(
    class: OperationClass,
    context: ContextView,
    error: ErrorView,
)
    ensures
        ({
            let sent = sent_error(class, context, error);
            let open = error is Io || error is Rpc || error is Xdr;
            &&& !(class is ReplaySensitive) || !open ==> sent == error
            &&& class is ReplaySensitive && open ==> {
                &&& sent is OperationOutcome
                &&& sent->OperationOutcome_outcome is Uncertain
                &&& sent->OperationOutcome_class == class
                &&& sent->OperationOutcome_recovery is VerifyThenResume
                &&& sent->OperationOutcome_context == context
                &&& *sent->OperationOutcome_source == error
            }
        }),
{
}


} // verus!
