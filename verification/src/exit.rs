//! Decoding of a termination status into the pair that is delivered on the
//! exit channel, and the watcher that delivers it at most once.

use vstd::prelude::*;

verus! {

/// What the operating system reported of a terminated process: the exit code,
/// where the process exited by itself, and the signal, where one ended it.
#[derive(Clone, Copy, Debug, PartialEq, Eq, Structural)]
pub struct RawStatus {
    pub code: Option<i32>,
    pub signal: Option<i32>,
}

/// The pair delivered on the exit channel.
#[derive(Clone, Copy, Debug, PartialEq, Eq, Structural)]
pub struct ExitOutcome {
    pub exit_code: i32,
    pub terminating_signal: i32,
}

impl ExitOutcome {
    /// The outcome as the pair of exit code and signal.
    pub fn as_pair(&self) -> (pair: (i32, i32))
        ensures
            pair == (self.exit_code, self.terminating_signal),
    {
        (self.exit_code, self.terminating_signal)
    }

    /// The outcome as a list: the exit code, then the signal.
    pub fn as_list(&self) -> (list: Vec<i32>)
        ensures
            list@ == seq![self.exit_code, self.terminating_signal],
    {
        let mut list: Vec<i32> = Vec::new();
        list.push(self.exit_code);
        list.push(self.terminating_signal);
        assert(list@ =~= seq![self.exit_code, self.terminating_signal]);
        list
    }
}

/// What a wait on the child returned.
#[derive(Clone, Copy, Debug, PartialEq, Eq, Structural)]
pub enum WaitResult {
    /// The process terminated with this status.
    Exited(RawStatus),
    /// The wait itself failed.
    Failed,
}

/// The value delivered for a field that the status may lack: the value itself,
/// or 0 where there is none.
pub open spec fn or_zero(value: Option<i32>) -> i32 {
    match value {
        Some(v) => v,
        None => 0,
    }
}

/// The outcome that a status decodes to.
pub open spec fn decoded(raw: RawStatus) -> ExitOutcome {
    ExitOutcome { exit_code: or_zero(raw.code), terminating_signal: or_zero(raw.signal) }
}

/// Decodes a termination status, substituting 0 for an absent exit code and 0
/// for an absent signal.
pub fn decode(raw: RawStatus) -> (outcome: ExitOutcome)
    ensures
        outcome == decoded(raw),
{
    let exit_code: i32 = match raw.code {
        Some(v) => v,
        None => 0,
    };
    let terminating_signal: i32 = match raw.signal {
        Some(v) => v,
        None => 0,
    };
    ExitOutcome { exit_code, terminating_signal }
}

/// The watcher's state: still waiting, or finished (the outcome was delivered,
/// or the wait failed).
#[derive(Clone, Copy, Debug, PartialEq, Eq, Structural)]
pub enum WatchState {
    Waiting,
    Finished,
}

/// What the watcher delivers for one wait result in a given state.
pub open spec fn watch_delivery(state: WatchState, result: WaitResult) -> Option<ExitOutcome> {
    match (state, result) {
        (WatchState::Waiting, WaitResult::Exited(raw)) => Some(decoded(raw)),
        _ => None,
    }
}

/// The outcomes delivered over a whole sequence of wait results, starting in
/// `state`. Every result leaves the watcher finished.
pub open spec fn watch_trace(state: WatchState, results: Seq<WaitResult>) -> Seq<ExitOutcome>
    decreases results.len(),
{
    if results.len() == 0 {
        Seq::empty()
    } else {
        let head = match watch_delivery(state, results[0]) {
            Some(outcome) => seq![outcome],
            None => Seq::empty(),
        };
        head + watch_trace(WatchState::Finished, results.subrange(1, results.len() as int))
    }
}

/// Watches one process for its termination.
#[derive(Debug)]
pub struct ExitWatcher {
    state: WatchState,
}

impl ExitWatcher {
    /// The watcher's state.
    pub closed spec fn state(&self) -> WatchState {
        self.state
    }

    /// A watcher that waits.
    pub fn new() -> (watcher: ExitWatcher)
        ensures
            watcher.state() == WatchState::Waiting,
    {
        ExitWatcher { state: WatchState::Waiting }
    }

    /// Whether the watcher still waits.
    pub fn is_waiting(&self) -> (waiting: bool)
        ensures
            waiting == (self.state() == WatchState::Waiting),
    {
        self.state == WatchState::Waiting
    }

    /// Takes the result of the wait. A waiting watcher answers a termination
    /// with its decoded outcome and a failed wait with nothing; either way it
    /// is finished afterwards, and a finished watcher answers nothing.
    pub fn on_wait(&mut self, result: WaitResult) -> (delivery: Option<ExitOutcome>)
        ensures
            delivery == watch_delivery(old(self).state(), result),
            final(self).state() == WatchState::Finished,
    {
        let delivery = match (self.state, result) {
            (WatchState::Waiting, WaitResult::Exited(raw)) => Some(decode(raw)),
            _ => None,
        };
        self.state = WatchState::Finished;
        delivery
    }
}

/// A finished watcher delivers nothing, whatever it is handed.
pub proof fn lemma_finished_is_silent(results: Seq<WaitResult>)
    ensures
        watch_trace(WatchState::Finished, results) =~= Seq::<ExitOutcome>::empty(),
    decreases results.len(),
{
    if results.len() > 0 {
        lemma_finished_is_silent(results.subrange(1, results.len() as int));
    }
}

/// Over any sequence of wait results a fresh watcher delivers at most one
/// outcome: exactly one where the first wait reports a termination, and then
/// the decoding of that status; none where the first wait fails or none was
/// made.
pub proof fn lemma_exactly_one_outcome(results: Seq<WaitResult>)
    ensures
        watch_trace(WatchState::Waiting, results).len() <= 1,
        results.len() > 0 && results[0] is Exited ==> watch_trace(WatchState::Waiting, results)
            =~= seq![decoded(results[0]->Exited_0)],
        results.len() == 0 || results[0] is Failed ==> watch_trace(WatchState::Waiting, results)
            =~= Seq::<ExitOutcome>::empty(),
{
    if results.len() > 0 {
        lemma_finished_is_silent(results.subrange(1, results.len() as int));
    }
}

} // verus!
