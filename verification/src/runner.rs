//! Decisions of the load-test campaign runner: when another call may start,
//! how the first calls are staggered, the order and layout of the results,
//! and the records made of each call.

use vstd::prelude::*;
use crate::analysis::CallAnalysis;
use crate::report::CallResult;
use crate::text::{decimal, decimal_string, push_str};

verus! {

broadcast use vstd::seq_lib::group_to_multiset_ensures;

/// Whether another call may start: the soak deadline, if any, has not
/// passed, and the call count, unless unlimited (zero), is not reached.
pub fn may_start_call(within_deadline: bool, call_index: usize, total_calls: usize) -> (r: bool)
    ensures
        r == (within_deadline && (total_calls == 0 || call_index < total_calls)),
{
    within_deadline && (total_calls == 0 || call_index < total_calls)
}

/// What the runner does next.
pub enum RunnerStep {
    /// Start another call.
    Start,
    /// Every call has started and finished.
    Finish,
    /// Wait for a running call to finish.
    Wait,
}

/// A call starts when one may and the pool has room; the campaign is done
/// when none may start and none is running; else the runner waits.
pub fn runner_step(may_start: bool, running: usize, concurrency: usize) -> (s: RunnerStep)
    ensures
        (s is Start) == (may_start && running < concurrency),
        (s is Finish) == (!(may_start && running < concurrency) && running == 0),
{
    if may_start && running < concurrency {
        RunnerStep::Start
    } else if running == 0 {
        RunnerStep::Finish
    } else {
        RunnerStep::Wait
    }
}

/// Where a campaign run stands: how many calls it has started, how many of
/// them are still running, whether the last poll cleared a call to start, and
/// whether the run is over.
pub struct RunnerState {
    pub started: usize,
    pub running: usize,
    pub ready: bool,
    pub finished: bool,
}

/// What the runner learns before its next step.
pub enum RunnerEvent {
    /// The runner looks at whether it may start a call; `within_deadline`
    /// tells whether the soak deadline, if any, has not passed.
    Poll { within_deadline: bool },
    /// The call the last poll cleared was started (after its ramp-up and
    /// rate delays).
    CallStarted,
    /// A running call finished; the runner polls again before starting one.
    CallDone,
}

/// The state after `event`, for a campaign of `total_calls` calls (zero: no
/// limit) with `concurrency` calls at a time.
pub open spec fn runner_next(s: RunnerState, event: RunnerEvent, total_calls: usize, concurrency: usize) -> RunnerState {
    if s.finished {
        s
    } else {
        match event {
            RunnerEvent::Poll { within_deadline } => {
                let may = within_deadline && (total_calls == 0 || s.started < total_calls);
                if may && s.running < concurrency {
                    RunnerState { ready: true, ..s }
                } else if s.running == 0 {
                    RunnerState { ready: false, finished: true, ..s }
                } else {
                    RunnerState { ready: false, ..s }
                }
            },
            RunnerEvent::CallStarted => if s.ready {
                RunnerState {
                    started: (s.started + 1) as usize,
                    running: (s.running + 1) as usize,
                    ready: false,
                    finished: false,
                }
            } else {
                s
            },
            RunnerEvent::CallDone => RunnerState {
                running: if s.running > 0 { (s.running - 1) as usize } else { 0 },
                ready: false,
                ..s
            },
        }
    }
}

/// The state after `events`, one after another, from `s`.
pub open spec fn runner_run(s: RunnerState, events: Seq<RunnerEvent>, total_calls: usize, concurrency: usize) -> RunnerState
    decreases events.len(),
{
    if events.len() == 0 {
        s
    } else {
        runner_next(runner_run(s, events.drop_last(), total_calls, concurrency), events.last(), total_calls, concurrency)
    }
}

/// The state of a run before anything happened.
pub open spec fn runner_start() -> RunnerState {
    RunnerState { started: 0, running: 0, ready: false, finished: false }
}

impl RunnerState {
    /// A campaign run before its first call.
    pub fn new() -> (s: RunnerState)
        ensures
            s == runner_start(),
    {
        RunnerState { started: 0, running: 0, ready: false, finished: false }
    }

    /// Takes `event` in. For a poll, says what the runner does next: start
    /// call number `started` (then report [`RunnerEvent::CallStarted`] once it
    /// has), finish, or wait for a running call; other events give `Wait`.
    pub fn step(&mut self, event: RunnerEvent, total_calls: usize, concurrency: usize) -> (next: RunnerStep)
        requires
            old(self).started < usize::MAX,
            old(self).running < usize::MAX,
        ensures
            *final(self) == runner_next(*old(self), event, total_calls, concurrency),
            (next is Start) == (!old(self).finished && event is Poll && final(self).ready),
            (next is Finish) == final(self).finished,
    {
        if self.finished {
            return RunnerStep::Finish;
        }
        match event {
            RunnerEvent::Poll { within_deadline } => {
                let may = may_start_call(within_deadline, self.started, total_calls);
                let next = runner_step(may, self.running, concurrency);
                match next {
                    RunnerStep::Start => {
                        self.ready = true;
                    },
                    RunnerStep::Finish => {
                        self.ready = false;
                        self.finished = true;
                    },
                    RunnerStep::Wait => {
                        self.ready = false;
                    },
                }
                next
            },
            RunnerEvent::CallStarted => {
                if self.ready {
                    self.started = self.started + 1;
                    self.running = self.running + 1;
                    self.ready = false;
                }
                RunnerStep::Wait
            },
            RunnerEvent::CallDone => {
                if self.running > 0 {
                    self.running = self.running - 1;
                }
                self.ready = false;
                RunnerStep::Wait
            },
        }
    }
}

/// Whether no poll among `events` found the soak deadline passed.
pub open spec fn no_deadline(events: Seq<RunnerEvent>) -> bool {
    forall|i: int| 0 <= i < events.len() ==> (#[trigger] events[i]) is Poll ==> events[i]->within_deadline
}

/// Over a whole campaign run, whatever happens: never more than
/// `concurrency` calls are in flight, no call finishes that was not started,
/// at most `total_calls` calls start when that limit is set, and a run with a
/// limit and no deadline that is over has started exactly `total_calls`
/// (for runs of fewer than `usize::MAX` steps, so that the counters fit).
pub proof fn lemma_runner_concurrency_bound(events: Seq<RunnerEvent>, total_calls: usize, concurrency: usize)
    requires
        events.len() < usize::MAX,
    ensures
        ({
            let s = runner_run(runner_start(), events, total_calls, concurrency);
            &&& s.running <= concurrency
            &&& s.running <= s.started
            &&& s.started <= events.len()
            &&& total_calls > 0 ==> s.started <= total_calls
            &&& s.ready ==> s.running < concurrency && (total_calls == 0 || s.started < total_calls)
            &&& s.finished ==> s.running == 0 && !s.ready
            &&& (total_calls > 0 && concurrency > 0 && s.finished && no_deadline(events)) ==> s.started == total_calls
        }),
    decreases events.len(),
{
    if events.len() > 0 {
        let p = events.drop_last();
        lemma_runner_concurrency_bound(p, total_calls, concurrency);
        if no_deadline(events) {
            assert forall|i: int| 0 <= i < p.len() && (#[trigger] p[i]) is Poll implies p[i]->within_deadline by {
                assert(p[i] == events[i]);
            }
            assert(events.last() == events[events.len() - 1]);
        }
    }
}

/// How long after the campaign's start the first calls may begin: the first
/// `concurrency` calls are spread evenly over the ramp-up time.
pub fn ramp_up_delay_ms(call_index: usize, ramp_up_ms: u64, concurrency: usize) -> (d: Option<u64>)
    requires
        call_index < concurrency ==> call_index * ramp_up_ms <= u64::MAX,
    ensures
        (ramp_up_ms > 0 && call_index < concurrency) ==> d == Some(((call_index * ramp_up_ms) as nat / (concurrency as nat)) as u64),
        !(ramp_up_ms > 0 && call_index < concurrency) ==> d is None,
{
    if ramp_up_ms > 0 && call_index < concurrency {
        Some((call_index as u64 * ramp_up_ms) / concurrency as u64)
    } else {
        None
    }
}

/// `n` in decimal, padded with leading zeros to at least four digits.
pub open spec fn padded4(n: nat) -> Seq<char> {
    let d = decimal(n);
    if d.len() >= 4 { d } else { Seq::new((4 - d.len()) as nat, |i: int| '0') + d }
}

/// Name of a call's artifact directory: its index in four digits.
pub fn call_dir_name(call_index: usize) -> (name: String)
    ensures
        name@ == padded4(call_index as nat),
{
    let d = decimal_string(call_index as u64);
    let mut name = String::new();
    let pad: usize = if d.as_str().unicode_len() >= 4 { 0 } else { 4 - d.as_str().unicode_len() };
    let mut k: usize = 0;
    while k < pad
        invariant
            k <= pad,
            name@ == Seq::new(k as nat, |i: int| '0'),
        decreases pad - k,
    {
        push_str(&mut name, "0");
        proof {
            reveal_strlit("0");
        }
        assert(name@ =~= Seq::new((k + 1) as nat, |i: int| '0'));
        k += 1;
    }
    push_str(&mut name, d.as_str());
    name
}

/// Puts finished calls back in the order they were started.
pub fn order_by_call_index<T>(results: Vec<(usize, T)>) -> (ordered: Vec<(usize, T)>)
    ensures
        ordered@.to_multiset() == results@.to_multiset(),
        forall|i: int, j: int| 0 <= i < j < ordered@.len() ==> ordered@[i].0 <= ordered@[j].0,
{
    let mut rest = results;
    let mut ordered: Vec<(usize, T)> = Vec::new();
    while rest.len() > 0
        invariant
            ordered@.to_multiset().add(rest@.to_multiset()) == results@.to_multiset(),
            forall|i: int, j: int| 0 <= i < j < ordered@.len() ==> ordered@[i].0 <= ordered@[j].0,
            forall|i: int, k: int| 0 <= i < ordered@.len() && 0 <= k < rest@.len() ==> ordered@[i].0 <= rest@[k].0,
        decreases rest@.len(),
    {
        let mut m: usize = 0;
        let mut j: usize = 1;
        while j < rest.len()
            invariant
                0 < rest@.len(),
                m < rest@.len(),
                1 <= j <= rest@.len(),
                forall|k: int| 0 <= k < j ==> rest@[m as int].0 <= #[trigger] rest@[k].0,
            decreases rest@.len() - j,
        {
            if rest[j].0 < rest[m].0 {
                m = j;
            }
            j += 1;
        }
        let ghost before = rest@;
        let x = rest.remove(m);
        proof {
            assert(before.remove(m as int).to_multiset() =~= before.to_multiset().remove(before[m as int]));
            assert(forall|k: int| 0 <= k < rest@.len() ==> rest@[k] == before[if k < m { k } else { k + 1 }]);
        }
        ordered.push(x);
    }
    ordered
}

/// The record of a call that completed: its outcome and analysis, the
/// backend's timings, and where its audio was written.
pub fn completed_call_result(
    call_index: usize,
    outcome: String,
    connect_ms: u64,
    tx_started_at_ms: u64,
    tx_finished_at_ms: u64,
    recorded_samples: usize,
    hangup_received: bool,
    analysis: CallAnalysis,
    rx_wav_path: String,
) -> (r: CallResult)
    ensures
        r == (CallResult {
            call_index,
            outcome,
            error: None,
            connect_ms,
            tx_started_at_ms,
            tx_finished_at_ms,
            recorded_samples,
            hangup_received,
            analysis: Some(analysis),
            rx_wav_path,
        }),
{
    CallResult {
        call_index,
        outcome,
        error: None,
        connect_ms,
        tx_started_at_ms,
        tx_finished_at_ms,
        recorded_samples,
        hangup_received,
        analysis: Some(analysis),
        rx_wav_path,
    }
}

/// The record of a call that failed: outcome `failed`, the error's text,
/// and nothing measured.
pub fn failed_call_result(call_index: usize, error: String, rx_wav_path: String) -> (r: CallResult)
    ensures
        r.call_index == call_index,
        r.outcome@ == "failed"@,
        r.error == Some(error),
        r.connect_ms == 0 && r.tx_started_at_ms == 0 && r.tx_finished_at_ms == 0,
        r.recorded_samples == 0,
        !r.hangup_received,
        r.analysis is None,
        r.rx_wav_path == rx_wav_path,
{
    CallResult {
        call_index,
        outcome: "failed".to_owned(),
        error: Some(error),
        connect_ms: 0,
        tx_started_at_ms: 0,
        tx_finished_at_ms: 0,
        recorded_samples: 0,
        hangup_received: false,
        analysis: None,
        rx_wav_path,
    }
}

/// The outcome of a single test call: a response was heard; or nothing was
/// received at all; or audio came back without a detected response.
pub fn single_call_outcome(recorded_samples: &[i16], analysis: &CallAnalysis) -> (outcome: &'static str)
    ensures
        analysis.first_response_ms is Some ==> outcome@ == "success"@,
        analysis.first_response_ms is None && recorded_samples@.len() == 0 ==> outcome@ == "no_received_audio"@,
        analysis.first_response_ms is None && recorded_samples@.len() > 0
            ==> outcome@ == "completed_without_detected_response"@,
{
    match analysis.first_response_ms {
        Some(_) => "success",
        None => if recorded_samples.len() == 0 { "no_received_audio" } else { "completed_without_detected_response" },
    }
}

} // verus!
