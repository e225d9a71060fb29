//! The steps of dialing one contact of a campaign: look the campaign up,
//! check it is running and inside its calling window, count the call against
//! the per-minute limit, originate it, and record what came of it.

use vstd::prelude::*;
use crate::scheduler::{
    call_rate_from_config, campaign_gate, dial_endpoint, dial_rate_key, in_schedule, is_within_schedule,
    limit_as_i64, originate_app_args, rate_limit_exceeded, retry_decision, retry_plan, strip_plus, DialGate,
    RetryDecision, DEFAULT_CALL_RATE_PER_MINUTE,
};

verus! {

/// A job asking for one contact to be called; the ids are in their text form.
pub struct OutboundCallJob {
    pub tenant_id: String,
    pub campaign_id: String,
    pub contact_id: String,
    pub phone_number: String,
    pub attempt: u32,
}

/// What the campaign lookup found.
pub struct CampaignFacts {
    pub status: String,
    pub start_hour: Option<u64>,
    pub end_hour: Option<u64>,
    pub call_rate_per_minute: Option<u64>,
}

/// Why a job failed (and is left to the job queue to run again).
pub enum DialFailure {
    OutsideSchedule,
    RateLimited,
    /// The telephony server answered the originate request with this status.
    AriStatus(u16),
    /// The originate request did not reach the telephony server.
    Unreachable,
}

/// How a job ends.
pub enum JobResult {
    /// Done: the call was placed, or there was nothing to do.
    Done,
    /// Failed for good: the campaign could not be found.
    Abort,
    /// Failed, to be tried again.
    Failed(DialFailure),
}

/// Where a job stands.
pub enum DialStage {
    Start,
    LookingUpCampaign,
    /// Counting the call against a limit of this many calls per minute.
    CountingCall(u64),
    Originating,
    MarkingCalling,
    CountingRemaining,
    CompletingCampaign,
    RecordingFailure(DialFailure),
    Finished,
}

/// What happened since the last step.
pub enum DialEvent {
    Begin,
    /// The campaign was found; `hour` is the hour of day now (UTC).
    CampaignFound(CampaignFacts, u64),
    CampaignLookupFailed,
    /// The per-minute counter after the increment; `None` when it could not
    /// be reached (the call then goes ahead).
    CallCounted(Option<i64>),
    /// The telephony server answered the originate request with this status.
    OriginateAnswered(u16),
    OriginateUnreachable,
    /// A database write ended (its result is not looked at).
    Stored,
    /// Contacts of the campaign still to be called; `None` when the count
    /// failed.
    Remaining(Option<i64>),
}

/// What to do next.
pub enum DialAction {
    LookUpCampaign,
    /// Increment the counter under this key (it expires a minute after its
    /// first increment).
    CountCall(String),
    /// Originate a call to `endpoint` into the Stasis app with `app_args`.
    Originate { endpoint: String, app_args: String },
    /// Set the contact's status to `calling`.
    MarkContactCalling,
    CountRemainingContacts,
    /// Set the campaign's status to `completed`.
    CompleteCampaign,
    /// Record the failed call: give the contact up or schedule a retry.
    RecordFailure(RetryDecision),
    Finish(JobResult),
}

/// Whether the telephony server's status means success.
pub open spec fn is_success_status(status: u16) -> bool {
    200 <= status <= 299
}

/// Whether `event` is one that a job at `stage` waits for.
pub open spec fn awaited(stage: DialStage, event: DialEvent) -> bool {
    match stage {
        DialStage::Start => event is Begin,
        DialStage::LookingUpCampaign => event is CampaignFound || event is CampaignLookupFailed,
        DialStage::CountingCall(_) => event is CallCounted,
        DialStage::Originating => event is OriginateAnswered || event is OriginateUnreachable,
        DialStage::MarkingCalling => event is Stored,
        DialStage::CountingRemaining => event is Remaining,
        DialStage::CompletingCampaign => event is Stored,
        DialStage::RecordingFailure(_) => event is Stored,
        DialStage::Finished => false,
    }
}

/// One step of dialing a contact: from where the job stands and what just
/// happened, where it stands next and what to do. An event the job does not
/// wait for changes nothing and asks for nothing.
pub fn outbound_call_step(stage: DialStage, job: &OutboundCallJob, event: DialEvent) -> (r: (DialStage, Option<DialAction>))
    ensures
        !awaited(stage, event) ==> r.0 == stage && r.1 is None,
        stage is Start && event is Begin ==> r.0 is LookingUpCampaign && r.1 == Some(DialAction::LookUpCampaign),
        stage is LookingUpCampaign && event is CampaignLookupFailed
            ==> r.0 is Finished && r.1 == Some(DialAction::Finish(JobResult::Abort)),
        stage is LookingUpCampaign ==> (event matches DialEvent::CampaignFound(facts, hour) ==> {
            if facts.status@ != "active"@ {
                r.0 is Finished && r.1 == Some(DialAction::Finish(JobResult::Done))
            } else if !in_schedule(facts.start_hour, facts.end_hour, hour) {
                r.0 is Finished && r.1 == Some(DialAction::Finish(JobResult::Failed(DialFailure::OutsideSchedule)))
            } else {
                &&& r.0 == DialStage::CountingCall(match facts.call_rate_per_minute {
                    Some(rate) => rate,
                    None => DEFAULT_CALL_RATE_PER_MINUTE,
                })
                &&& r.1 matches Some(DialAction::CountCall(key))
                &&& key@ == "campaign:"@ + job.campaign_id@ + ":dial_rate_1m"@
            }
        }),
        stage matches DialStage::CountingCall(limit) ==> (event matches DialEvent::CallCounted(count) ==> {
            if count matches Some(c) && c > limit_as_i64(limit) {
                r.0 is Finished && r.1 == Some(DialAction::Finish(JobResult::Failed(DialFailure::RateLimited)))
            } else {
                &&& r.0 is Originating
                &&& r.1 matches Some(DialAction::Originate { endpoint, app_args })
                &&& endpoint@ == "PJSIP/"@ + strip_plus(job.phone_number@)
                &&& app_args@ == "campaign_id="@ + job.campaign_id@ + ",contact_id="@ + job.contact_id@
            }
        }),
        stage is Originating ==> (event matches DialEvent::OriginateAnswered(status) ==> {
            if is_success_status(status) {
                r.0 is MarkingCalling && r.1 == Some(DialAction::MarkContactCalling)
            } else {
                r.0 == DialStage::RecordingFailure(DialFailure::AriStatus(status))
                    && r.1 == Some(DialAction::RecordFailure(retry_plan(job.attempt)))
            }
        }),
        stage is Originating && event is OriginateUnreachable ==> r.0 == DialStage::RecordingFailure(
            DialFailure::Unreachable,
        ) && r.1 == Some(DialAction::RecordFailure(retry_plan(job.attempt))),
        stage is MarkingCalling && event is Stored ==> r.0 is CountingRemaining && r.1 == Some(
            DialAction::CountRemainingContacts,
        ),
        stage is CountingRemaining ==> (event matches DialEvent::Remaining(n) ==> if n == Some(0i64) {
            r.0 is CompletingCampaign && r.1 == Some(DialAction::CompleteCampaign)
        } else {
            r.0 is Finished && r.1 == Some(DialAction::Finish(JobResult::Done))
        }),
        stage is CompletingCampaign && event is Stored ==> r.0 is Finished && r.1 == Some(
            DialAction::Finish(JobResult::Done),
        ),
        stage matches DialStage::RecordingFailure(f) ==> (event is Stored ==> r.0 is Finished && r.1 == Some(
            DialAction::Finish(JobResult::Failed(f)),
        )),
{
    match (stage, event) {
        (DialStage::Start, DialEvent::Begin) => (DialStage::LookingUpCampaign, Some(DialAction::LookUpCampaign)),
        (DialStage::LookingUpCampaign, DialEvent::CampaignLookupFailed) => {
            (DialStage::Finished, Some(DialAction::Finish(JobResult::Abort)))
        },
        (DialStage::LookingUpCampaign, DialEvent::CampaignFound(facts, hour)) => {
            let within = is_within_schedule(facts.start_hour, facts.end_hour, hour);
            match campaign_gate(&facts.status, within) {
                DialGate::Skip => (DialStage::Finished, Some(DialAction::Finish(JobResult::Done))),
                DialGate::OutsideSchedule => (
                    DialStage::Finished,
                    Some(DialAction::Finish(JobResult::Failed(DialFailure::OutsideSchedule))),
                ),
                DialGate::Proceed => {
                    let limit = call_rate_from_config(facts.call_rate_per_minute);
                    (DialStage::CountingCall(limit), Some(DialAction::CountCall(dial_rate_key(job.campaign_id.as_str()))))
                },
            }
        },
        (DialStage::CountingCall(limit), DialEvent::CallCounted(count)) => {
            let over = match count {
                Some(c) => rate_limit_exceeded(c, limit),
                None => false,
            };
            if over {
                (DialStage::Finished, Some(DialAction::Finish(JobResult::Failed(DialFailure::RateLimited))))
            } else {
                let endpoint = dial_endpoint(job.phone_number.as_str());
                let app_args = originate_app_args(job.campaign_id.as_str(), job.contact_id.as_str());
                (DialStage::Originating, Some(DialAction::Originate { endpoint, app_args }))
            }
        },
        (DialStage::Originating, DialEvent::OriginateAnswered(status)) => {
            if 200 <= status && status <= 299 {
                (DialStage::MarkingCalling, Some(DialAction::MarkContactCalling))
            } else {
                (
                    DialStage::RecordingFailure(DialFailure::AriStatus(status)),
                    Some(DialAction::RecordFailure(retry_decision(job.attempt))),
                )
            }
        },
        (DialStage::Originating, DialEvent::OriginateUnreachable) => (
            DialStage::RecordingFailure(DialFailure::Unreachable),
            Some(DialAction::RecordFailure(retry_decision(job.attempt))),
        ),
        (DialStage::MarkingCalling, DialEvent::Stored) => {
            (DialStage::CountingRemaining, Some(DialAction::CountRemainingContacts))
        },
        (DialStage::CountingRemaining, DialEvent::Remaining(n)) => {
            if n == Some(0i64) {
                (DialStage::CompletingCampaign, Some(DialAction::CompleteCampaign))
            } else {
                (DialStage::Finished, Some(DialAction::Finish(JobResult::Done)))
            }
        },
        (DialStage::CompletingCampaign, DialEvent::Stored) => {
            (DialStage::Finished, Some(DialAction::Finish(JobResult::Done)))
        },
        (DialStage::RecordingFailure(f), DialEvent::Stored) => {
            (DialStage::Finished, Some(DialAction::Finish(JobResult::Failed(f))))
        },
        (stage, _) => (stage, None),
    }
}

} // verus!
