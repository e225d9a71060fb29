//! The life of a platform session on the WebSocket server, from admission
//! against the tenant's concurrent-session limit to the final call record:
//! what is done at each step, and that a session which took a slot in the
//! tenant's active-session set gives it back exactly once.

use vstd::prelude::*;
use crate::wsserver::{accept_session, active_sessions_key, DEFAULT_MAX_CONCURRENT_SESSIONS};

verus! {

/// Where a platform session stands.
pub enum PlatformStage {
    /// Checking the tenant's concurrent-session limit.
    Admitting,
    /// Admitted and waiting for the client's `session_start`.
    AwaitingStart,
    /// Starting the pipeline.
    StartingPipeline,
    /// Telling the client the session is ready.
    SendingReady,
    /// Carrying audio and events between client and pipeline.
    Bridging,
    /// Turned away at admission.
    Refused,
    /// Over, after admission.
    Closed,
}

/// What the server learned since the last step.
pub enum PlatformEvent {
    /// The tenant holds `active` sessions; its own limit, if it could be read.
    Admission { active: i64, tenant_limit: Option<i64> },
    /// Whether a valid `session_start` arrived in time.
    StartReceived(bool),
    /// Whether the pipeline started.
    PipelineStarted(bool),
    /// Whether `session_ready` reached the client.
    ReadySent(bool),
    /// The client connection ended.
    BridgeEnded,
}

/// What the server does next.
pub enum PlatformAction {
    /// Close the connection without a trace: no slot, no call record.
    Reject,
    /// Add the session to the tenant's active-session set, then wait for the
    /// client's `session_start`.
    Admit,
    /// Create the call record, then start the pipeline.
    CreateRecordAndStart,
    /// Send `session_ready` to the client.
    SendReady,
    /// Bridge the client and the pipeline until the connection ends.
    RunBridge,
    /// Remove the session from the tenant's active-session set and close.
    Release,
    /// Stop the pipeline, then remove the session from the active-session set
    /// and close.
    TerminateAndRelease,
    /// Stop the pipeline, remove the session from the active-session set,
    /// upload the recording if there is one, and finalize the call record
    /// and usage.
    Finalize,
}

/// The next stage and action, for a session at `stage` when `event` comes;
/// an event the session does not wait for changes nothing.
pub open spec fn platform_next(stage: PlatformStage, event: PlatformEvent) -> (PlatformStage, Option<PlatformAction>) {
    match (stage, event) {
        (PlatformStage::Admitting, PlatformEvent::Admission { active, tenant_limit }) => {
            let limit = match tenant_limit {
                Some(l) => l,
                None => DEFAULT_MAX_CONCURRENT_SESSIONS,
            };
            if active < limit {
                (PlatformStage::AwaitingStart, Some(PlatformAction::Admit))
            } else {
                (PlatformStage::Refused, Some(PlatformAction::Reject))
            }
        },
        (PlatformStage::AwaitingStart, PlatformEvent::StartReceived(ok)) => if ok {
            (PlatformStage::StartingPipeline, Some(PlatformAction::CreateRecordAndStart))
        } else {
            (PlatformStage::Closed, Some(PlatformAction::Release))
        },
        (PlatformStage::StartingPipeline, PlatformEvent::PipelineStarted(ok)) => if ok {
            (PlatformStage::SendingReady, Some(PlatformAction::SendReady))
        } else {
            (PlatformStage::Closed, Some(PlatformAction::Release))
        },
        (PlatformStage::SendingReady, PlatformEvent::ReadySent(ok)) => if ok {
            (PlatformStage::Bridging, Some(PlatformAction::RunBridge))
        } else {
            (PlatformStage::Closed, Some(PlatformAction::TerminateAndRelease))
        },
        (PlatformStage::Bridging, PlatformEvent::BridgeEnded) => {
            (PlatformStage::Closed, Some(PlatformAction::Finalize))
        },
        (s, _) => (s, None),
    }
}

/// A platform session of a tenant: its stage and the key of the tenant's
/// active-session set.
pub struct PlatformSession {
    pub stage: PlatformStage,
    pub active_key: String,
}

impl PlatformSession {
    /// A session of tenant `tenant_id`, about to be admitted.
    pub fn new(tenant_id: &str) -> (s: PlatformSession)
        ensures
            s.stage is Admitting,
            s.active_key@ == "tenant:"@ + tenant_id@ + ":active_sessions"@,
    {
        PlatformSession { stage: PlatformStage::Admitting, active_key: active_sessions_key(tenant_id) }
    }

    /// Takes `event` in and says what to do; the set-add and set-remove
    /// actions are on `active_key`.
    pub fn on_event(&mut self, event: PlatformEvent) -> (action: Option<PlatformAction>)
        ensures
            (final(self).stage, action) == platform_next(old(self).stage, event),
            final(self).active_key == old(self).active_key,
    {
        let step = match (&self.stage, event) {
            (PlatformStage::Admitting, PlatformEvent::Admission { active, tenant_limit }) => {
                if accept_session(active, tenant_limit) {
                    Some((PlatformStage::AwaitingStart, PlatformAction::Admit))
                } else {
                    Some((PlatformStage::Refused, PlatformAction::Reject))
                }
            },
            (PlatformStage::AwaitingStart, PlatformEvent::StartReceived(ok)) => if ok {
                Some((PlatformStage::StartingPipeline, PlatformAction::CreateRecordAndStart))
            } else {
                Some((PlatformStage::Closed, PlatformAction::Release))
            },
            (PlatformStage::StartingPipeline, PlatformEvent::PipelineStarted(ok)) => if ok {
                Some((PlatformStage::SendingReady, PlatformAction::SendReady))
            } else {
                Some((PlatformStage::Closed, PlatformAction::Release))
            },
            (PlatformStage::SendingReady, PlatformEvent::ReadySent(ok)) => if ok {
                Some((PlatformStage::Bridging, PlatformAction::RunBridge))
            } else {
                Some((PlatformStage::Closed, PlatformAction::TerminateAndRelease))
            },
            (PlatformStage::Bridging, PlatformEvent::BridgeEnded) => {
                Some((PlatformStage::Closed, PlatformAction::Finalize))
            },
            _ => None,
        };
        match step {
            Some((next, action)) => {
                self.stage = next;
                Some(action)
            },
            None => None,
        }
    }
}

/// The stage reached and the actions taken, in order, when `events` come one
/// after another to a session at `stage`.
pub open spec fn platform_run(stage: PlatformStage, events: Seq<PlatformEvent>) -> (PlatformStage, Seq<PlatformAction>)
    decreases events.len(),
{
    if events.len() == 0 {
        (stage, Seq::empty())
    } else {
        let (s, acts) = platform_run(stage, events.drop_last());
        let (next, a) = platform_next(s, events.last());
        match a {
            Some(x) => (next, acts.push(x)),
            None => (next, acts),
        }
    }
}

/// Whether an action adds the session to the active-session set.
pub open spec fn is_add(a: PlatformAction) -> bool {
    a is Admit
}

/// Whether an action removes the session from the active-session set.
pub open spec fn is_release(a: PlatformAction) -> bool {
    a is Release || a is TerminateAndRelease || a is Finalize
}

/// Whether an action creates a call record or starts a pipeline.
pub open spec fn is_work(a: PlatformAction) -> bool {
    a is CreateRecordAndStart || a is SendReady || a is RunBridge
}

/// How many of `acts` are adds, releases and work.
pub open spec fn tally(acts: Seq<PlatformAction>) -> (nat, nat, nat)
    decreases acts.len(),
{
    if acts.len() == 0 {
        (0, 0, 0)
    } else {
        let (a, r, w) = tally(acts.drop_last());
        let x = acts.last();
        (
            a + if is_add(x) { 1nat } else { 0nat },
            r + if is_release(x) { 1nat } else { 0nat },
            w + if is_work(x) { 1nat } else { 0nat },
        )
    }
}

/// Whether a session at this stage holds a slot in the active-session set.
pub open spec fn holds_slot(stage: PlatformStage) -> bool {
    stage is AwaitingStart || stage is StartingPipeline || stage is SendingReady || stage is Bridging
}

/// Whatever events come, a session adds itself to the tenant's active-session
/// set at most once, holds a slot exactly while it is admitted and not yet
/// over, and so, once over, has removed itself exactly as often as it added
/// itself. A session refused at admission adds nothing, creates no call
/// record and starts no pipeline.
pub proof fn lemma_platform_slot_released_once(events: Seq<PlatformEvent>)
    ensures
        ({
            let (stage, acts) = platform_run(PlatformStage::Admitting, events);
            let (adds, releases, work) = tally(acts);
            &&& adds <= 1
            &&& adds == releases + if holds_slot(stage) { 1nat } else { 0nat }
            &&& stage is Closed ==> adds == 1 && releases == 1
            &&& (stage is Refused || stage is Admitting) ==> adds == 0 && releases == 0 && work == 0
        }),
    decreases events.len(),
{
    if events.len() > 0 {
        lemma_platform_slot_released_once(events.drop_last());
        let (s, acts) = platform_run(PlatformStage::Admitting, events.drop_last());
        let (next, a) = platform_next(s, events.last());
        if let Some(x) = a {
            assert(acts.push(x).drop_last() =~= acts);
        }
    }
}

} // verus!
