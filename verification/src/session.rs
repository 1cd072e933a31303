//! The coordinator: what follows a launch, and the independence of the
//! streams that it starts.

use vstd::prelude::*;
use crate::exit::{watch_delivery, watch_trace, ExitOutcome, ExitWatcher, WaitResult, WatchState};
use crate::launch::LaunchError;
use crate::pump::{pump_delivery, pump_next, pump_trace, Intake, Pump, PumpState, StreamItem};

verus! {

/// A started process: its identifier and the three consumers, one for each of
/// its handles. Each consumer is a value of its own, to be moved into the task
/// that owns the handle; none shares state with another.
#[derive(Debug)]
pub struct LiveProcess {
    pub id: u32,
    pub stdout: Pump,
    pub stderr: Pump,
    pub exit: ExitWatcher,
}

impl LiveProcess {
    /// Nothing was read or waited for yet.
    pub open spec fn fresh(&self) -> bool {
        &&& self.stdout.state() == PumpState::Reading
        &&& self.stderr.state() == PumpState::Reading
        &&& self.exit.state() == WatchState::Waiting
    }
}

/// Decides what follows a launch. A failed launch is handed on as it is, and
/// no consumer exists, so that nothing can be delivered. A started process
/// gets its three fresh consumers, and its identifier is ready to be returned
/// before any of them has taken a step.
pub fn coordinate(launched: Result<u32, LaunchError>) -> (started: Result<LiveProcess, LaunchError>)
    ensures
        match launched {
            Ok(id) => started is Ok && started->Ok_0.id == id && started->Ok_0.fresh(),
            Err(error) => started == Err::<LiveProcess, LaunchError>(error),
        },
{
    match launched {
        Ok(id) => Ok(
            LiveProcess { id, stdout: Pump::new(), stderr: Pump::new(), exit: ExitWatcher::new() },
        ),
        Err(error) => Err(error),
    }
}

/// One of the two output streams of a process.
#[derive(Clone, Copy, Debug, PartialEq, Eq, Structural)]
pub enum StreamKind {
    Stdout,
    Stderr,
}

/// A stream of a process.
pub struct Source {
    pub process: u32,
    pub stream: StreamKind,
}

/// A read result that arrives from a stream.
pub struct Arrival {
    pub source: Source,
    pub intake: Intake,
}

/// An event delivered to the sink of a stream.
pub struct Delivered {
    pub source: Source,
    pub item: StreamItem,
}

/// The state of a stream's pump; a pump that took no step yet reads.
pub open spec fn state_of(states: Map<Source, PumpState>, source: Source) -> PumpState {
    if states.contains_key(source) {
        states[source]
    } else {
        PumpState::Reading
    }
}

/// What is delivered for one arrival: the answer of its own stream's pump, to
/// its own stream's sink.
pub open spec fn relay_one(states: Map<Source, PumpState>, arrival: Arrival) -> Seq<Delivered> {
    match pump_delivery(state_of(states, arrival.source), arrival.intake) {
        Some(item) => seq![Delivered { source: arrival.source, item }],
        None => Seq::empty(),
    }
}

/// Everything delivered while the reads of any number of streams, of any
/// number of processes, arrive in any interleaving.
pub open spec fn relay_all(states: Map<Source, PumpState>, arrivals: Seq<Arrival>) -> Seq<Delivered>
    decreases arrivals.len(),
{
    if arrivals.len() == 0 {
        Seq::empty()
    } else {
        let first = arrivals[0];
        let next = pump_next(state_of(states, first.source), first.intake);
        relay_one(states, first) + relay_all(
            states.insert(first.source, next),
            arrivals.subrange(1, arrivals.len() as int),
        )
    }
}

/// The read results of one stream, in arrival order.
pub open spec fn arrivals_from(arrivals: Seq<Arrival>, source: Source) -> Seq<Intake>
    decreases arrivals.len(),
{
    if arrivals.len() == 0 {
        Seq::empty()
    } else {
        let head = if arrivals[0].source == source {
            seq![arrivals[0].intake]
        } else {
            Seq::empty()
        };
        head + arrivals_from(arrivals.subrange(1, arrivals.len() as int), source)
    }
}

/// The events delivered to the sink of one stream, in delivery order.
pub open spec fn delivered_to(deliveries: Seq<Delivered>, source: Source) -> Seq<StreamItem>
    decreases deliveries.len(),
{
    if deliveries.len() == 0 {
        Seq::empty()
    } else {
        let head = if deliveries[0].source == source {
            seq![deliveries[0].item]
        } else {
            Seq::empty()
        };
        head + delivered_to(deliveries.subrange(1, deliveries.len() as int), source)
    }
}

/// Streams are isolated: however the reads of different streams and processes
/// interleave, the sink of a stream receives exactly what that stream's pump
/// delivers for that stream's own reads, in order, and nothing of any other.
pub proof fn lemma_streams_isolated(
    states: Map<Source, PumpState>,
    arrivals: Seq<Arrival>,
    source: Source,
)
    ensures
        delivered_to(relay_all(states, arrivals), source) =~= pump_trace(
            state_of(states, source),
            arrivals_from(arrivals, source),
        ),
    decreases arrivals.len(),
{
    if arrivals.len() > 0 {
        let first = arrivals[0];
        let rest = arrivals.subrange(1, arrivals.len() as int);
        let state = state_of(states, first.source);
        let after = states.insert(first.source, pump_next(state, first.intake));
        let head = relay_one(states, first);
        let tail = relay_all(after, rest);
        let all = head + tail;
        lemma_streams_isolated(after, rest, source);
        let mine = arrivals_from(arrivals, source);
        let mine_rest = arrivals_from(rest, source);
        if head.len() == 0 {
            assert(all =~= tail);
        } else {
            assert(all.subrange(1, all.len() as int) =~= tail);
        }
        if first.source == source {
            assert(mine =~= seq![first.intake] + mine_rest);
            assert(mine.subrange(1, mine.len() as int) =~= mine_rest);
            assert(state_of(after, source) == pump_next(state, first.intake));
        } else {
            assert(mine =~= mine_rest);
            assert(state_of(after, source) == state_of(states, source));
        }
    }
}

/// A wait result that arrives for a process.
pub struct Waited {
    pub process: u32,
    pub result: WaitResult,
}

/// An outcome delivered to the exit sink of a process.
pub struct Reported {
    pub process: u32,
    pub outcome: ExitOutcome,
}

/// The state of a process's watcher; one that took no step yet waits.
pub open spec fn watcher_of(states: Map<u32, WatchState>, process: u32) -> WatchState {
    if states.contains_key(process) {
        states[process]
    } else {
        WatchState::Waiting
    }
}

/// What is delivered for one wait result: the answer of its own process's
/// watcher, to its own process's exit sink.
pub open spec fn report_one(states: Map<u32, WatchState>, waited: Waited) -> Seq<Reported> {
    match watch_delivery(watcher_of(states, waited.process), waited.result) {
        Some(outcome) => seq![Reported { process: waited.process, outcome }],
        None => Seq::empty(),
    }
}

/// Everything delivered while the wait results of any number of processes
/// arrive in any order.
pub open spec fn report_all(states: Map<u32, WatchState>, waits: Seq<Waited>) -> Seq<Reported>
    decreases waits.len(),
{
    if waits.len() == 0 {
        Seq::empty()
    } else {
        report_one(states, waits[0]) + report_all(
            states.insert(waits[0].process, WatchState::Finished),
            waits.subrange(1, waits.len() as int),
        )
    }
}

/// The wait results of one process, in arrival order.
pub open spec fn waits_of(waits: Seq<Waited>, process: u32) -> Seq<WaitResult>
    decreases waits.len(),
{
    if waits.len() == 0 {
        Seq::empty()
    } else {
        let head = if waits[0].process == process {
            seq![waits[0].result]
        } else {
            Seq::empty()
        };
        head + waits_of(waits.subrange(1, waits.len() as int), process)
    }
}

/// The outcomes delivered to the exit sink of one process, in delivery order.
pub open spec fn reported_for(reports: Seq<Reported>, process: u32) -> Seq<ExitOutcome>
    decreases reports.len(),
{
    if reports.len() == 0 {
        Seq::empty()
    } else {
        let head = if reports[0].process == process {
            seq![reports[0].outcome]
        } else {
            Seq::empty()
        };
        head + reported_for(reports.subrange(1, reports.len() as int), process)
    }
}

/// Exits are isolated: however the terminations of different processes
/// interleave, the exit sink of a process receives exactly what that
/// process's watcher delivers for that process's own wait, and nothing of any
/// other.
pub proof fn lemma_exits_isolated(states: Map<u32, WatchState>, waits: Seq<Waited>, process: u32)
    ensures
        reported_for(report_all(states, waits), process) =~= watch_trace(
            watcher_of(states, process),
            waits_of(waits, process),
        ),
    decreases waits.len(),
{
    if waits.len() > 0 {
        let first = waits[0];
        let rest = waits.subrange(1, waits.len() as int);
        let after = states.insert(first.process, WatchState::Finished);
        let head = report_one(states, first);
        let tail = report_all(after, rest);
        let all = head + tail;
        lemma_exits_isolated(after, rest, process);
        let mine = waits_of(waits, process);
        let mine_rest = waits_of(rest, process);
        if head.len() == 0 {
            assert(all =~= tail);
        } else {
            assert(all.subrange(1, all.len() as int) =~= tail);
        }
        if first.process == process {
            assert(mine =~= seq![first.result] + mine_rest);
            assert(mine.subrange(1, mine.len() as int) =~= mine_rest);
            assert(watcher_of(after, process) == WatchState::Finished);
        } else {
            assert(mine =~= mine_rest);
            assert(watcher_of(after, process) == watcher_of(states, process));
        }
    }
}

} // verus!
