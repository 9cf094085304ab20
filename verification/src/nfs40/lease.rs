//! The lease of an NFSv4.0 client: when it is renewed, and what a mount may do meanwhile.

use vstd::prelude::*;
use vstd::string::StringExecFns;

use crate::error::{
    outcome_error, rpc_error, ContextView, ErrorView, NFSVersion, NfsError, OperationClass,
    OperationOutcome, RecoveryAction, RequestContext, Result,
};
use crate::nfs4::compound::{raw_compound_args, RawRequest};
use crate::nfs4::status::Nfs4ErrorCode;
use crate::nfs40::compound::{CompoundBuilder, OP_RENEW};
use crate::nfs41::{NFS4_COMPOUND_PROC, NFS4_PROGRAM, NFS4_VERSION};
use crate::random::random_number;
use crate::rpc::{call_header, Auth};
use crate::text::concat2;
use crate::time::Duration;
use crate::xdr::be64;

verus! {

/// The longest span that a delay is taken of: as many seconds as a word of 64 bits counts,
/// and the fraction of one more.
pub const MAX_INTERVAL_NANOS: u128 = 18_446_744_073_709_551_615_999_999_999;

/// The share of the interval, in thousandths, that a sample stands for.
pub open spec fn renewal_per_mille(sample: u16) -> int {
    900 + sample % 201
}

/// The delay before the next renewal: the interval with a jitter of at most a tenth, to the
/// nearest nanosecond.
pub fn renewal_delay(interval: Duration, sample: u16) -> (delay: Duration)
    requires
        interval.nanos <= MAX_INTERVAL_NANOS,
    ensures
        delay.nanos == (interval.nanos * renewal_per_mille(sample) + 500) / 1000,
{
    let per_mille: u128 = 900 + sample as u128 % 201;
    assert(interval.nanos * per_mille <= MAX_INTERVAL_NANOS * 1100) by (nonlinear_arith)
        requires
            interval.nanos <= MAX_INTERVAL_NANOS,
            per_mille <= 1100,
    ;
    Duration { nanos: (interval.nanos * per_mille + 500) / 1000 }
}

/// The delay before the next renewal, for a sample that is drawn at random.
pub fn random_renewal_delay(interval: Duration) -> (delay: Duration)
    requires
        interval.nanos <= MAX_INTERVAL_NANOS,
    ensures
        exists|sample: u16|
            delay.nanos == (interval.nanos * #[trigger] renewal_per_mille(sample) + 500) / 1000,
{
    let sample: u16 = (random_number() % 0x1_0000) as u16;
    let delay = renewal_delay(interval, sample);
    assert(delay.nanos == (interval.nanos * renewal_per_mille(sample) + 500) / 1000);
    delay
}

/// A renewal never comes earlier than at nine tenths of its interval, nor later than at
/// eleven, to the nearest nanosecond.
pub proof fn law_renewal_jitter_is_bounded(interval: Duration, sample: u16)
    ensures
        ({
            let delay = (interval.nanos * renewal_per_mille(sample) + 500) / 1000;
            (interval.nanos * 900 + 500) / 1000 <= delay <= (interval.nanos * 1100 + 500) / 1000
        }),
{
    let p = renewal_per_mille(sample);
    let n = interval.nanos as int;
    assert(n * 900 <= n * p <= n * 1100) by (nonlinear_arith)
        requires
            900 <= p <= 1100,
            n >= 0,
    ;
}

/// The interval between renewals: a third of the lease, at least a second.
pub fn renewal_interval(lease_seconds: u32) -> (interval: Duration)
    ensures
        interval.nanos == (if lease_seconds / 3 == 0 {
            1int
        } else {
            (lease_seconds / 3) as int
        }) * 1_000_000_000,
{
    let third: u32 = lease_seconds / 3;
    Duration::from_secs(if third == 0 { 1 } else { third as u64 })
}

/// Where a mount stands.
#[derive(Clone, Copy, Debug, PartialEq, Eq, Structural)]
pub enum MountLifecycleState {
    Ready,
    Suspect,
    Reconnecting,
    Recovering,
    Reclaiming,
    LostState,
    Closing,
    Closed,
}

/// The name of a state.
pub open spec fn lifecycle_name(state: MountLifecycleState) -> Seq<char> {
    match state {
        MountLifecycleState::Ready => "Ready"@,
        MountLifecycleState::Suspect => "Suspect"@,
        MountLifecycleState::Reconnecting => "Reconnecting"@,
        MountLifecycleState::Recovering => "Recovering"@,
        MountLifecycleState::Reclaiming => "Reclaiming"@,
        MountLifecycleState::LostState => "LostState"@,
        MountLifecycleState::Closing => "Closing"@,
        MountLifecycleState::Closed => "Closed"@,
    }
}

impl MountLifecycleState {
    pub fn name(self) -> (name: &'static str)
        ensures
            name@ == lifecycle_name(self),
    {
        match self {
            MountLifecycleState::Ready => "Ready",
            MountLifecycleState::Suspect => "Suspect",
            MountLifecycleState::Reconnecting => "Reconnecting",
            MountLifecycleState::Recovering => "Recovering",
            MountLifecycleState::Reclaiming => "Reclaiming",
            MountLifecycleState::LostState => "LostState",
            MountLifecycleState::Closing => "Closing",
            MountLifecycleState::Closed => "Closed",
        }
    }
}

/// What a mount reports of itself.
#[derive(Clone, Copy, Debug, PartialEq, Eq, Structural)]
pub struct MountHealth {
    pub lifecycle: MountLifecycleState,
    pub generation: u64,
    pub lease_healthy: Option<bool>,
    pub lease_seconds: Option<u32>,
    pub lease_renewals: u64,
    pub callback_healthy: Option<bool>,
}

/// The lease of a client. Points in time are milliseconds on the clock of the caller.
#[derive(Clone, Copy, Debug, PartialEq, Eq, Structural)]
pub struct LeaseState {
    pub lifecycle: MountLifecycleState,
    pub generation: u64,
    pub healthy: bool,
    pub lease_seconds: u32,
    pub renewals: u64,
    /// When the lease runs out.
    pub expires_at: u64,
}

/// When a lease runs out that the server extends at some time.
pub open spec fn deadline(lease_seconds: u32, now: u64) -> u64 {
    if now + lease_seconds * 1000 > u64::MAX {
        u64::MAX
    } else {
        (now + lease_seconds * 1000) as u64
    }
}

fn deadline_after(lease_seconds: u32, now: u64) -> (at: u64)
    ensures
        at == deadline(lease_seconds, now),
{
    match now.checked_add(lease_seconds as u64 * 1000) {
        Some(at) => at,
        None => u64::MAX,
    }
}

/// The lease after an operation that depends on state succeeded, which extends it.
pub open spec fn active(lease: LeaseState, now: u64) -> LeaseState {
    LeaseState { expires_at: deadline(lease.lease_seconds, now), ..lease }
}

/// Whether a lease has run out while it was neither lost, nor recovered, nor given up.
pub open spec fn run_out(lease: LeaseState, now: u64) -> bool {
    &&& now >= lease.expires_at
    &&& lease.lifecycle == MountLifecycleState::Ready || lease.lifecycle
        == MountLifecycleState::Suspect || lease.lifecycle == MountLifecycleState::Reconnecting
}

/// What an operation that depends on state is told while the mount is not ready.
pub open spec fn gated(operation: Seq<char>, lifecycle: MountLifecycleState) -> ErrorView {
    ErrorView::OperationOutcome {
        outcome: OperationOutcome::Uncertain,
        class: OperationClass::ReplaySensitive,
        recovery: if lifecycle == MountLifecycleState::LostState {
            RecoveryAction::Reopen
        } else {
            RecoveryAction::VerifyThenResume
        },
        context: ContextView { operation, protocol: NFSVersion::NFSv4p0, request_id: None },
        source: Box::new(
            ErrorView::Rpc(
                "NFSv4.0 state-dependent operation gated while mount is "@ + lifecycle_name(
                    lifecycle,
                ),
            ),
        ),
    }
}

/// What an operation is told whose state was lost while it was on its way.
pub open spec fn fenced(operation: Seq<char>) -> ErrorView {
    ErrorView::OperationOutcome {
        outcome: OperationOutcome::Uncertain,
        class: OperationClass::ReplaySensitive,
        recovery: RecoveryAction::Reopen,
        context: ContextView { operation, protocol: NFSVersion::NFSv4p0, request_id: None },
        source: Box::new(
            ErrorView::Rpc("NFSv4.0 mount generation changed during the operation"@),
        ),
    }
}

/// Whether an operation that began in a generation may still take effect.
pub open spec fn fence(lease: LeaseState, expected: u64, operation: Seq<char>) -> std::result::Result<
    (),
    ErrorView,
> {
    if lease.generation != expected {
        Err(fenced(operation))
    } else if lease.lifecycle != MountLifecycleState::Ready {
        Err(gated(operation, lease.lifecycle))
    } else {
        Ok(())
    }
}

/// What the task that renews the lease does next.
#[derive(Clone, Copy, Debug, PartialEq, Eq, Structural)]
pub enum RenewalStep {
    /// Establish the client identity again and reclaim its state.
    Recover,
    /// Wait for the next renewal.
    Wait,
    /// End the task.
    Stop,
}

/// Whether an error says that the server has forgotten the client.
pub open spec fn lease_is_gone(error: ErrorView) -> bool {
    error == ErrorView::Nfs4(Nfs4ErrorCode::NFS4ERR_EXPIRED) || error == ErrorView::Nfs4(
        Nfs4ErrorCode::NFS4ERR_STALE_CLIENTID,
    )
}

/// The lease after a successful renewal or recovery.
pub open spec fn renewed(lease: LeaseState, now: u64) -> LeaseState {
    LeaseState {
        lifecycle: MountLifecycleState::Ready,
        healthy: true,
        renewals: lease.renewals.wrapping_add(1),
        expires_at: deadline(lease.lease_seconds, now),
        ..lease
    }
}

/// The lease once its state is lost.
pub open spec fn lost(lease: LeaseState) -> LeaseState {
    LeaseState {
        lifecycle: MountLifecycleState::LostState,
        healthy: false,
        generation: lease.generation.wrapping_add(1),
        ..lease
    }
}

/// The lease in a state in which it is not known to be healthy.
pub open spec fn unhealthy(lease: LeaseState, lifecycle: MountLifecycleState) -> LeaseState {
    LeaseState { lifecycle, healthy: false, ..lease }
}

/// The lease after a renewal, and what to do. A lease that ran out while the request was on
/// its way stays lost. One that was lost before its deadline is ready again in its new
/// generation once a renewal succeeds.
pub open spec fn renewal_outcome(
    lease: LeaseState,
    result: std::result::Result<(), ErrorView>,
    now: u64,
    can_recover: bool,
) -> (LeaseState, RenewalStep) {
    match result {
        Ok(_) => if lost_for_good(lease, now) {
            (lease, RenewalStep::Stop)
        } else {
            (renewed(lease, now), RenewalStep::Wait)
        },
        Err(error) => if lease_is_gone(error) {
            if can_recover {
                (unhealthy(lease, MountLifecycleState::Recovering), RenewalStep::Recover)
            } else {
                (lost(lease), RenewalStep::Wait)
            }
        } else if lost_for_good(lease, now) {
            (lease, RenewalStep::Stop)
        } else if now >= lease.expires_at {
            (lost(lease), RenewalStep::Stop)
        } else {
            (unhealthy(lease, MountLifecycleState::Suspect), RenewalStep::Wait)
        },
    }
}

/// Whether a lease is lost and its deadline has passed.
pub open spec fn lost_for_good(lease: LeaseState, now: u64) -> bool {
    lease.lifecycle == MountLifecycleState::LostState && now >= lease.expires_at
}

/// The lease after a recovery. One that failed leaves the state lost, but the client has a new
/// lease to renew.
pub open spec fn recovery_outcome(lease: LeaseState, recovered: bool, now: u64) -> LeaseState {
    if recovered {
        renewed(lease, now)
    } else {
        LeaseState { expires_at: deadline(lease.lease_seconds, now), ..lease }
    }
}

impl LeaseState {
    pub fn ready(generation: u64, lease_seconds: u32, now: u64) -> (lease: Self)
        ensures
            lease == (LeaseState {
                lifecycle: MountLifecycleState::Ready,
                generation,
                healthy: true,
                lease_seconds,
                renewals: 0,
                expires_at: deadline(lease_seconds, now),
            }),
    {
        LeaseState {
            lifecycle: MountLifecycleState::Ready,
            generation,
            healthy: true,
            lease_seconds,
            renewals: 0,
            expires_at: deadline_after(lease_seconds, now),
        }
    }

    pub fn health(&self) -> (health: MountHealth)
        ensures
            health == (MountHealth {
                lifecycle: self.lifecycle,
                generation: self.generation,
                lease_healthy: Some(self.healthy),
                lease_seconds: Some(self.lease_seconds),
                lease_renewals: self.renewals,
                callback_healthy: None,
            }),
    {
        MountHealth {
            lifecycle: self.lifecycle,
            generation: self.generation,
            lease_healthy: Some(self.healthy),
            lease_seconds: Some(self.lease_seconds),
            lease_renewals: self.renewals,
            callback_healthy: None,
        }
    }

    pub fn generation(&self) -> (generation: u64)
        ensures
            generation == self.generation,
    {
        self.generation
    }

    /// Lets an operation that depends on state pass while the mount is ready.
    pub fn gate_stateful(&self, operation: &str) -> (result: Result<()>)
        ensures
            if self.lifecycle == MountLifecycleState::Ready {
                result is Ok
            } else {
                result is Err && result->Err_0@ == gated(operation@, self.lifecycle)
            },
    {
        let recovery = match self.lifecycle {
            MountLifecycleState::Ready => return Ok(()),
            MountLifecycleState::LostState => RecoveryAction::Reopen,
            _ => RecoveryAction::VerifyThenResume,
        };
        Err(
            outcome_error(
                OperationOutcome::Uncertain,
                OperationClass::ReplaySensitive,
                recovery,
                RequestContext {
                    operation: String::from_str(operation),
                    protocol: NFSVersion::NFSv4p0,
                    request_id: None,
                },
                NfsError::Rpc(
                    concat2(
                        "NFSv4.0 state-dependent operation gated while mount is ",
                        self.lifecycle.name(),
                    ),
                ),
            ),
        )
    }

    /// The generation that an operation begins in, while the mount is ready.
    pub fn begin_stateful(&self, operation: &str) -> (generation: Result<u64>)
        ensures
            if self.lifecycle == MountLifecycleState::Ready {
                generation is Ok && generation->Ok_0 == self.generation
            } else {
                generation is Err && generation->Err_0@ == gated(operation@, self.lifecycle)
            },
    {
        self.gate_stateful(operation)?;
        Ok(self.generation)
    }

    /// Lets the result of an operation take effect if the mount is ready and still in the
    /// generation that the operation began in.
    pub fn validate_stateful(&self, expected: u64, operation: &str) -> (result: Result<()>)
        ensures
            match fence(*self, expected, operation@) {
                Ok(_) => result is Ok,
                Err(error) => result is Err && result->Err_0@ == error,
            },
    {
        if self.generation != expected {
            return Err(
                outcome_error(
                    OperationOutcome::Uncertain,
                    OperationClass::ReplaySensitive,
                    RecoveryAction::Reopen,
                    RequestContext {
                        operation: String::from_str(operation),
                        protocol: NFSVersion::NFSv4p0,
                        request_id: None,
                    },
                    rpc_error("NFSv4.0 mount generation changed during the operation"),
                ),
            );
        }
        self.gate_stateful(operation)
    }

    /// Lets the result of an operation take effect, and extends the lease: an operation that
    /// depends on state renews it.
    pub fn finish_stateful(&mut self, expected: u64, operation: &str, now: u64) -> (result: Result<()>)
        ensures
            match fence(*old(self), expected, operation@) {
                Ok(_) => result is Ok && *final(self) == active(*old(self), now),
                Err(error) => result is Err && result->Err_0@ == error && *final(self) == *old(
                    self,
                ),
            },
    {
        self.validate_stateful(expected, operation)?;
        self.expires_at = deadline_after(self.lease_seconds, now);
        Ok(())
    }

    /// Gives the state up if the lease has run out.
    pub fn expire(&mut self, now: u64) -> (gone: bool)
        ensures
            gone == run_out(*old(self), now),
            *final(self) == (if run_out(*old(self), now) {
                lost(*old(self))
            } else {
                *old(self)
            }),
    {
        let running = match self.lifecycle {
            MountLifecycleState::Ready => true,
            MountLifecycleState::Suspect => true,
            MountLifecycleState::Reconnecting => true,
            _ => false,
        };
        if running && now >= self.expires_at {
            self.mark_lost();
            return true;
        }
        false
    }

    pub fn mark_ready(&mut self, now: u64)
        ensures
            *final(self) == renewed(*old(self), now),
    {
        self.renewals = self.renewals.wrapping_add(1);
        self.healthy = true;
        self.lifecycle = MountLifecycleState::Ready;
        self.expires_at = deadline_after(self.lease_seconds, now);
    }

    pub fn mark_suspect(&mut self)
        ensures
            *final(self) == unhealthy(*old(self), MountLifecycleState::Suspect),
    {
        self.healthy = false;
        self.lifecycle = MountLifecycleState::Suspect;
    }

    pub fn mark_reconnecting(&mut self)
        ensures
            *final(self) == unhealthy(*old(self), MountLifecycleState::Reconnecting),
    {
        self.healthy = false;
        self.lifecycle = MountLifecycleState::Reconnecting;
    }

    pub fn mark_recovering(&mut self)
        ensures
            *final(self) == unhealthy(*old(self), MountLifecycleState::Recovering),
    {
        self.healthy = false;
        self.lifecycle = MountLifecycleState::Recovering;
    }

    pub fn mark_reclaiming(&mut self)
        ensures
            *final(self) == (LeaseState {
                lifecycle: MountLifecycleState::Reclaiming,
                ..*old(self)
            }),
    {
        self.lifecycle = MountLifecycleState::Reclaiming;
    }

    pub fn mark_closing(&mut self)
        ensures
            *final(self) == (LeaseState { lifecycle: MountLifecycleState::Closing, ..*old(self) }),
    {
        self.lifecycle = MountLifecycleState::Closing;
    }

    pub fn mark_closed(&mut self)
        ensures
            *final(self) == unhealthy(*old(self), MountLifecycleState::Closed),
    {
        self.healthy = false;
        self.lifecycle = MountLifecycleState::Closed;
    }

    pub fn mark_lost(&mut self)
        ensures
            *final(self) == lost(*old(self)),
    {
        self.healthy = false;
        self.generation = self.generation.wrapping_add(1);
        self.lifecycle = MountLifecycleState::LostState;
    }

    fn is_lost_for_good(&self, now: u64) -> (result: bool)
        ensures
            result == lost_for_good(*self, now),
    {
        match self.lifecycle {
            MountLifecycleState::LostState => now >= self.expires_at,
            _ => false,
        }
    }

    /// Enters how a renewal went. `can_recover` says whether lost state can be reclaimed.
    pub fn after_renewal(&mut self, result: &Result<()>, now: u64, can_recover: bool) -> (step:
        RenewalStep)
        ensures
            (*final(self), step) == renewal_outcome(
                *old(self),
                match result {
                    Ok(_) => Ok(()),
                    Err(error) => Err(error@),
                },
                now,
                can_recover,
            ),
    {
        match result {
            Ok(_) => {
                if self.is_lost_for_good(now) {
                    return RenewalStep::Stop;
                }
                self.mark_ready(now);
                RenewalStep::Wait
            },
            Err(NfsError::Nfs4(
                Nfs4ErrorCode::NFS4ERR_EXPIRED | Nfs4ErrorCode::NFS4ERR_STALE_CLIENTID,
            )) => if can_recover {
                self.mark_recovering();
                RenewalStep::Recover
            } else {
                self.mark_lost();
                RenewalStep::Wait
            },
            Err(_) => {
                if self.is_lost_for_good(now) {
                    return RenewalStep::Stop;
                }
                if now >= self.expires_at {
                    self.mark_lost();
                    RenewalStep::Stop
                } else {
                    self.mark_suspect();
                    RenewalStep::Wait
                }
            },
        }
    }

    /// Enters how a recovery went.
    pub fn after_recovery(&mut self, recovered: bool, now: u64)
        ensures
            *final(self) == recovery_outcome(*old(self), recovered, now),
    {
        if recovered {
            self.mark_ready(now);
        } else {
            self.expires_at = deadline_after(self.lease_seconds, now);
        }
    }
}

/// The call that renews the lease of a client.
pub fn renew_request(client_id: u64, auth: &Auth) -> (call: Vec<u8>)
    ensures
        call@ == call_header(
            NFS4_PROGRAM,
            NFS4_VERSION,
            NFS4_COMPOUND_PROC,
            auth.flavor,
            auth.body@,
        ) + raw_compound_args(
            (RawRequest { tag: "renew"@, minor: 0, ops: Seq::empty() }).with_op(
                OP_RENEW,
                be64(client_id),
            ),
        ),
{
    CompoundBuilder::new("renew").renew(client_id).encode_with_header(auth)
}

/// State that is lost stays out of reach of operations that began before: no result of the
/// old generation takes effect, and no new operation begins until the mount is ready again.
pub proof fn law_lost_state_fences_operations(lease: LeaseState, operation: Seq<char>, now: u64)
    ensures
        fence(lost(lease), lease.generation, operation) is Err,
        fence(renewed(lost(lease), now), lease.generation, operation) is Err,
        lost(lease).lifecycle != MountLifecycleState::Ready,
{
}

/// A renewal or a recovery that succeeds keeps the generation, so that state survives it.
pub proof fn law_recovery_keeps_the_generation(lease: LeaseState, operation: Seq<char>, now: u64)
    ensures
        renewed(lease, now).generation == lease.generation,
        renewed(unhealthy(lease, MountLifecycleState::Recovering), now).generation
            == lease.generation,
        fence(renewed(lease, now), lease.generation, operation) is Ok,
{
}

/// An operation that depends on state keeps the lease from running out before its full span
/// is over.
pub proof fn law_activity_extends_the_lease(lease: LeaseState, now: u64, later: u64)
    requires
        now + lease.lease_seconds * 1000 <= u64::MAX,
        now <= later < now + lease.lease_seconds * 1000,
    ensures
        !run_out(active(lease, now), later),
{
}

/// A lease that ran out while a renewal was on its way stays lost, even if the renewal
/// succeeds.
pub proof fn law_late_renewal_does_not_revive(
    lease: LeaseState,
    result: std::result::Result<(), ErrorView>,
    now: u64,
    can_recover: bool,
)
    requires
        run_out(lease, now),
        result is Ok,
    ensures
        renewal_outcome(lost(lease), result, now, can_recover) == (lost(lease), RenewalStep::Stop),
{
}

/// After a recovery that failed, a renewal that succeeds in time makes the mount ready again in
/// the generation that the loss began: new operations pass, those from before do not.
pub proof fn law_renewal_readies_the_next_generation(
    lease: LeaseState,
    now: u64,
    later: u64,
    can_recover: bool,
    operation: Seq<char>,
)
    requires
        later < deadline(lease.lease_seconds, now),
    ensures
        ({
            let failed = recovery_outcome(lost(lease), false, now);
            let (after, step) = renewal_outcome(failed, Ok(()), later, can_recover);
            &&& step == RenewalStep::Wait
            &&& after == renewed(failed, later)
            &&& fence(after, lost(lease).generation, operation) is Ok
            &&& fence(after, lease.generation, operation) is Err
        }),
{
}

/// A lease runs out its own seconds after it was last used, and not before; while it is
/// recovered, lost or closed it does not run out again.
pub proof fn law_lease_runs_out_after_its_seconds(lease: LeaseState, now: u64, later: u64)
    requires
        now + lease.lease_seconds * 1000 <= u64::MAX,
    ensures
        active(lease, now).expires_at == now + 1000 * lease.lease_seconds,
        lease.lifecycle is Ready || lease.lifecycle is Suspect || lease.lifecycle is Reconnecting
            ==> (run_out(active(lease, now), later) <==> later - now >= 1000 * lease.lease_seconds),
        lease.lifecycle is Recovering || lease.lifecycle is Reclaiming || lease.lifecycle is LostState
            || lease.lifecycle is Closing || lease.lifecycle is Closed ==> !run_out(
            active(lease, now),
            later,
        ),
        active(lease, now).lifecycle == lease.lifecycle,
        active(lease, now).generation == lease.generation,
        active(lease, now).healthy == lease.healthy,
        active(lease, now).renewals == lease.renewals,
        active(lease, now).lease_seconds == lease.lease_seconds,
{
}

/// A renewal that succeeded makes the mount ready and healthy, counts, and gives the lease its
/// full time again; it changes neither the generation nor the length of the lease.
pub proof fn law_renewal_gives_the_full_time(lease: LeaseState, now: u64, can_recover: bool)
    requires
        now < lease.expires_at,
        now + lease.lease_seconds * 1000 <= u64::MAX,
        lease.renewals < u64::MAX,
    ensures
        ({
            let (after, step) = renewal_outcome(lease, Ok(()), now, can_recover);
            &&& step == RenewalStep::Wait
            &&& after.lifecycle is Ready
            &&& after.healthy
            &&& after.renewals == lease.renewals + 1
            &&& after.expires_at == now + 1000 * lease.lease_seconds
            &&& after.generation == lease.generation
            &&& after.lease_seconds == lease.lease_seconds
        }),
{
}

/// A renewal that failed before the lease ran out leaves the mount under suspicion, in its
/// generation; one that failed after that loses the state, in the next generation. Where the
/// server says that the lease is gone, the mount recovers it if it can.
pub proof fn law_failed_renewal_is_told_apart(
    lease: LeaseState,
    error: ErrorView,
    now: u64,
    can_recover: bool,
)
    requires
        lease.lifecycle is Ready,
        lease.generation < u64::MAX,
    ensures
        ({
            let (after, step) = renewal_outcome(lease, Err(error), now, can_recover);
            let gone = error == ErrorView::Nfs4(Nfs4ErrorCode::NFS4ERR_EXPIRED) || error
                == ErrorView::Nfs4(Nfs4ErrorCode::NFS4ERR_STALE_CLIENTID);
            &&& !after.healthy
            &&& after.renewals == lease.renewals
            &&& after.expires_at == lease.expires_at
            &&& !gone && now < lease.expires_at ==> after.lifecycle is Suspect && after.generation
                == lease.generation && step == RenewalStep::Wait
            &&& !gone && now >= lease.expires_at ==> after.lifecycle is LostState
                && after.generation == lease.generation + 1 && step == RenewalStep::Stop
            &&& gone && can_recover ==> after.lifecycle is Recovering && after.generation
                == lease.generation && step == RenewalStep::Recover
            &&& gone && !can_recover ==> after.lifecycle is LostState && after.generation
                == lease.generation + 1 && step == RenewalStep::Wait
        }),
{
}

/// An operation passes the fence just where the mount is ready in the generation in which the
/// operation began.
pub proof fn law_fence_lets_the_same_generation_pass(
    lease: LeaseState,
    generation: u64,
    operation: Seq<char>,
)
    ensures
        fence(lease, generation, operation) is Ok <==> lease.lifecycle is Ready && lease.generation
            == generation,
{
}

/// The jitter of renewals covers every thousandth from nine tenths to eleven tenths, and no
/// other.
pub proof fn law_renewal_jitter_covers_its_range(sample: u16, per_mille: int)
    ensures
        900 <= renewal_per_mille(sample) <= 1100,
        900 <= per_mille <= 1100 ==> renewal_per_mille((per_mille - 900) as u16) == per_mille,
        renewal_per_mille(sample) == renewal_per_mille((sample % 201) as u16),
{
}


} // verus!
