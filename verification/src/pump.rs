//! The chunk reader: the loop that turns the results of successive reads into
//! chunks and one end marker, as a state machine that the driver steps.

use vstd::prelude::*;

verus! {

/// The size of the read buffer, and so the longest chunk.
pub const CHUNK_SIZE: usize = 8192;

/// What one read into the buffer returned.
#[derive(Clone, Copy, Debug, PartialEq, Eq, Structural)]
pub enum ReadResult {
    /// The read filled this many bytes at the start of the buffer; 0 means the
    /// stream is at its end.
    Bytes(usize),
    /// The read failed.
    Failed,
}

/// An event on a stream's delivery channel.
#[derive(Debug, PartialEq, Eq)]
pub enum StreamEvent {
    /// Bytes of the stream, in read order.
    Chunk(Vec<u8>),
    /// No further chunk will come.
    End,
}

/// A delivered event as a mathematical value.
pub enum StreamItem {
    Chunk(Seq<u8>),
    End,
}

impl View for StreamEvent {
    type V = StreamItem;

    open spec fn view(&self) -> StreamItem {
        match self {
            StreamEvent::Chunk(bytes) => StreamItem::Chunk(bytes@),
            StreamEvent::End => StreamItem::End,
        }
    }
}

impl StreamEvent {
    /// The event as the sink of a stream takes it: the bytes of a chunk, or
    /// nothing for the end marker.
    pub fn into_payload(self) -> (payload: Option<Vec<u8>>)
        ensures
            match payload {
                Some(bytes) => self@ == StreamItem::Chunk(bytes@),
                None => self@ == StreamItem::End,
            },
    {
        match self {
            StreamEvent::Chunk(bytes) => Some(bytes),
            StreamEvent::End => None,
        }
    }

    /// The event as a list of buffers: one buffer for a chunk, none for the
    /// end marker.
    pub fn into_batch(self) -> (batch: Vec<Vec<u8>>)
        ensures
            match self@ {
                StreamItem::Chunk(bytes) => batch@.len() == 1 && batch@[0]@ == bytes,
                StreamItem::End => batch@.len() == 0,
            },
    {
        match self {
            StreamEvent::Chunk(bytes) => {
                let mut batch: Vec<Vec<u8>> = Vec::new();
                batch.push(bytes);
                batch
            },
            StreamEvent::End => Vec::new(),
        }
    }
}

/// What was delivered, if anything, as a mathematical value.
pub open spec fn item_of(delivery: Option<StreamEvent>) -> Option<StreamItem> {
    match delivery {
        Some(event) => Some(event@),
        None => None,
    }
}

/// What one read means to the pump: bytes to forward, or a reason to stop.
pub enum Intake {
    Data(Seq<u8>),
    Stop,
}

/// The meaning of a read result over the buffer it was read into: the bytes
/// that were filled, or a stop where none were, or where the read failed.
pub open spec fn intake_of(buffer: Seq<u8>, result: ReadResult) -> Intake {
    match result {
        ReadResult::Bytes(n) => if 0 < n <= buffer.len() {
            Intake::Data(buffer.subrange(0, n as int))
        } else {
            Intake::Stop
        },
        ReadResult::Failed => Intake::Stop,
    }
}

/// The pump's state: still reading, or ended (the end marker was delivered).
#[derive(Clone, Copy, Debug, PartialEq, Eq, Structural)]
pub enum PumpState {
    Reading,
    Ended,
}

/// What the pump delivers for one intake in a given state.
pub open spec fn pump_delivery(state: PumpState, intake: Intake) -> Option<StreamItem> {
    match (state, intake) {
        (PumpState::Reading, Intake::Data(bytes)) => Some(StreamItem::Chunk(bytes)),
        (PumpState::Reading, Intake::Stop) => Some(StreamItem::End),
        (PumpState::Ended, _) => None,
    }
}

/// The state that follows: the pump goes on reading only after data.
pub open spec fn pump_next(state: PumpState, intake: Intake) -> PumpState {
    match (state, intake) {
        (PumpState::Reading, Intake::Data(_)) => PumpState::Reading,
        _ => PumpState::Ended,
    }
}

/// Everything delivered over a sequence of intakes, in delivery order.
pub open spec fn pump_trace(state: PumpState, intakes: Seq<Intake>) -> Seq<StreamItem>
    decreases intakes.len(),
{
    if intakes.len() == 0 {
        Seq::empty()
    } else {
        let head = match pump_delivery(state, intakes[0]) {
            Some(item) => seq![item],
            None => Seq::empty(),
        };
        head + pump_trace(
            pump_next(state, intakes[0]),
            intakes.subrange(1, intakes.len() as int),
        )
    }
}

/// The state that a pump is in after a sequence of intakes.
pub open spec fn state_after(state: PumpState, intakes: Seq<Intake>) -> PumpState
    decreases intakes.len(),
{
    if intakes.len() == 0 {
        state
    } else {
        state_after(pump_next(state, intakes[0]), intakes.subrange(1, intakes.len() as int))
    }
}

/// The bytes of the delivered chunks, concatenated in delivery order.
pub open spec fn chunk_bytes(items: Seq<StreamItem>) -> Seq<u8>
    decreases items.len(),
{
    if items.len() == 0 {
        Seq::empty()
    } else {
        let head = match items[0] {
            StreamItem::Chunk(bytes) => bytes,
            StreamItem::End => Seq::empty(),
        };
        head + chunk_bytes(items.subrange(1, items.len() as int))
    }
}

/// The bytes that the reads produced up to the first stop: what the stream
/// held, as far as it was read.
pub open spec fn bytes_read(intakes: Seq<Intake>) -> Seq<u8>
    decreases intakes.len(),
{
    if intakes.len() == 0 {
        Seq::empty()
    } else {
        match intakes[0] {
            Intake::Data(bytes) => bytes + bytes_read(intakes.subrange(1, intakes.len() as int)),
            Intake::Stop => Seq::empty(),
        }
    }
}

/// Whether some read of the sequence was a stop.
pub open spec fn has_stop(intakes: Seq<Intake>) -> bool {
    exists|k: int| 0 <= k < intakes.len() && intakes[k] is Stop
}

/// Whether every intake that carries data carries between one byte and a
/// buffer's worth.
pub open spec fn intakes_bounded(intakes: Seq<Intake>) -> bool {
    forall|k: int|
        0 <= k < intakes.len() ==> match #[trigger] intakes[k] {
            Intake::Data(bytes) => 1 <= bytes.len() <= CHUNK_SIZE,
            Intake::Stop => true,
        }
}

/// Copies the first `n` bytes of the buffer, so that the chunk stays what it
/// is when the buffer is read into again.
fn copy_prefix(buffer: &[u8; CHUNK_SIZE], n: usize) -> (bytes: Vec<u8>)
    requires
        n <= CHUNK_SIZE,
    ensures
        bytes@ == buffer@.subrange(0, n as int),
{
    let mut bytes: Vec<u8> = Vec::with_capacity(n);
    let mut i: usize = 0;
    while i < n
        invariant
            i <= n <= CHUNK_SIZE,
            bytes@ == buffer@.subrange(0, i as int),
        decreases n - i,
    {
        bytes.push(buffer[i]);
        i += 1;
        assert(bytes@ =~= buffer@.subrange(0, i as int));
    }
    bytes
}

/// Pumps one stream.
#[derive(Debug)]
pub struct Pump {
    state: PumpState,
}

impl Pump {
    /// The pump's state.
    pub closed spec fn state(&self) -> PumpState {
        self.state
    }

    /// A pump that reads.
    pub fn new() -> (pump: Pump)
        ensures
            pump.state() == PumpState::Reading,
    {
        Pump { state: PumpState::Reading }
    }

    /// Whether the driver is to read again.
    pub fn is_reading(&self) -> (reading: bool)
        ensures
            reading == (self.state() == PumpState::Reading),
    {
        self.state == PumpState::Reading
    }

    /// Takes the result of one read into `buffer`. While reading, the pump
    /// answers filled bytes with a chunk that holds a copy of exactly those
    /// bytes and goes on reading; it answers the end of the stream and a
    /// failed read alike with the end marker, and is ended. An ended pump
    /// answers nothing.
    pub fn on_read(
        &mut self,
        buffer: &[u8; CHUNK_SIZE],
        result: ReadResult,
    ) -> (delivery: Option<StreamEvent>)
        requires
            result matches ReadResult::Bytes(n) ==> n <= CHUNK_SIZE,
        ensures
            item_of(delivery) == pump_delivery(old(self).state(), intake_of(buffer@, result)),
            final(self).state() == pump_next(old(self).state(), intake_of(buffer@, result)),
    {
        match self.state {
            PumpState::Ended => None,
            PumpState::Reading => match result {
                ReadResult::Bytes(n) => {
                    if n == 0 {
                        self.state = PumpState::Ended;
                        Some(StreamEvent::End)
                    } else {
                        Some(StreamEvent::Chunk(copy_prefix(buffer, n)))
                    }
                },
                ReadResult::Failed => {
                    self.state = PumpState::Ended;
                    Some(StreamEvent::End)
                },
            },
        }
    }
}

/// One more read adds to what was delivered exactly the pump's answer to that
/// read, in the state that the earlier reads left: the deliveries of
/// successive steps, put end to end, are the trace of the reads.
pub proof fn lemma_trace_extends(state: PumpState, intakes: Seq<Intake>, intake: Intake)
    ensures
        pump_trace(state, intakes.push(intake)) =~= pump_trace(state, intakes) + (match pump_delivery(
            state_after(state, intakes),
            intake,
        ) {
            Some(item) => seq![item],
            None => Seq::empty(),
        }),
        state_after(state, intakes.push(intake)) == pump_next(state_after(state, intakes), intake),
    decreases intakes.len(),
{
    let longer = intakes.push(intake);
    if intakes.len() == 0 {
        assert(longer.subrange(1, longer.len() as int) =~= Seq::<Intake>::empty());
        assert(state_after(pump_next(state, intake), Seq::<Intake>::empty()) == pump_next(
            state,
            intake,
        ));
        assert(pump_trace(pump_next(state, intake), Seq::<Intake>::empty()) =~= Seq::<
            StreamItem,
        >::empty());
    } else {
        let rest = intakes.subrange(1, intakes.len() as int);
        assert(longer.subrange(1, longer.len() as int) =~= rest.push(intake));
        lemma_trace_extends(pump_next(state, intakes[0]), rest, intake);
    }
}

/// An ended pump delivers nothing, whatever it is handed.
pub proof fn lemma_ended_is_silent(intakes: Seq<Intake>)
    ensures
        pump_trace(PumpState::Ended, intakes) =~= Seq::<StreamItem>::empty(),
    decreases intakes.len(),
{
    if intakes.len() > 0 {
        lemma_ended_is_silent(intakes.subrange(1, intakes.len() as int));
    }
}

/// The delivered chunks, concatenated in delivery order, are the bytes that
/// the reads produced up to the first stop: nothing is lost, added or
/// reordered, and nothing read after a stop is forwarded.
pub proof fn lemma_bytes_preserved(intakes: Seq<Intake>)
    ensures
        chunk_bytes(pump_trace(PumpState::Reading, intakes)) =~= bytes_read(intakes),
    decreases intakes.len(),
{
    if intakes.len() > 0 {
        let rest = intakes.subrange(1, intakes.len() as int);
        let trace = pump_trace(PumpState::Reading, intakes);
        match intakes[0] {
            Intake::Data(bytes) => {
                lemma_bytes_preserved(rest);
                let tail = pump_trace(PumpState::Reading, rest);
                assert(trace =~= seq![StreamItem::Chunk(bytes)] + tail);
                assert(trace.subrange(1, trace.len() as int) =~= tail);
                assert(chunk_bytes(trace) =~= bytes + chunk_bytes(tail));
            },
            Intake::Stop => {
                lemma_ended_is_silent(rest);
                assert(trace =~= seq![StreamItem::End]);
                let after = trace.subrange(1, trace.len() as int);
                assert(after =~= Seq::<StreamItem>::empty());
                assert(chunk_bytes(after) =~= Seq::<u8>::empty());
                assert(chunk_bytes(trace) =~= Seq::<u8>::empty() + chunk_bytes(after));
            },
        }
    }
}

/// The end marker is delivered at most once and nothing follows it: in what a
/// fresh pump delivers, an end marker stands only in the last place. It is
/// delivered exactly when some read was a stop.
pub proof fn lemma_end_exactly_once(intakes: Seq<Intake>)
    ensures
        forall|i: int|
            0 <= i < pump_trace(PumpState::Reading, intakes).len() && #[trigger] pump_trace(
                PumpState::Reading,
                intakes,
            )[i] is End ==> i == pump_trace(PumpState::Reading, intakes).len() - 1,
        has_stop(intakes) <==> pump_trace(PumpState::Reading, intakes).len() > 0 && pump_trace(
            PumpState::Reading,
            intakes,
        ).last() is End,
    decreases intakes.len(),
{
    let trace = pump_trace(PumpState::Reading, intakes);
    if intakes.len() > 0 {
        let rest = intakes.subrange(1, intakes.len() as int);
        match intakes[0] {
            Intake::Data(bytes) => {
                lemma_end_exactly_once(rest);
                let tail = pump_trace(PumpState::Reading, rest);
                assert(trace =~= seq![StreamItem::Chunk(bytes)] + tail);
                assert forall|i: int| 0 <= i < trace.len() && #[trigger] trace[i] is End implies i
                    == trace.len() - 1 by {
                    if i > 0 {
                        assert(trace[i] == tail[i - 1]);
                    }
                }
                if has_stop(intakes) {
                    let k = choose|k: int| 0 <= k < intakes.len() && intakes[k] is Stop;
                    assert(rest[k - 1] == intakes[k]);
                    assert(has_stop(rest));
                    assert(trace.last() == tail.last());
                }
                if trace.len() > 0 && trace.last() is End {
                    assert(tail.len() > 0);
                    assert(trace.last() == tail.last());
                    let k = choose|k: int| 0 <= k < rest.len() && rest[k] is Stop;
                    assert(intakes[k + 1] == rest[k]);
                }
            },
            Intake::Stop => {
                lemma_ended_is_silent(rest);
                assert(trace =~= seq![StreamItem::End]);
                assert(intakes[0] is Stop);
            },
        }
    }
}

/// Every delivered chunk holds between one byte and a buffer's worth, where
/// every read did.
pub proof fn lemma_chunks_bounded(intakes: Seq<Intake>)
    requires
        intakes_bounded(intakes),
    ensures
        forall|i: int|
            0 <= i < pump_trace(PumpState::Reading, intakes).len() ==> match #[trigger] pump_trace(
                PumpState::Reading,
                intakes,
            )[i] {
                StreamItem::Chunk(bytes) => 1 <= bytes.len() <= CHUNK_SIZE,
                StreamItem::End => true,
            },
    decreases intakes.len(),
{
    let trace = pump_trace(PumpState::Reading, intakes);
    if intakes.len() > 0 {
        let rest = intakes.subrange(1, intakes.len() as int);
        match intakes[0] {
            Intake::Data(bytes) => {
                assert forall|k: int| 0 <= k < rest.len() implies match #[trigger] rest[k] {
                    Intake::Data(b) => 1 <= b.len() <= CHUNK_SIZE,
                    Intake::Stop => true,
                } by {
                    assert(rest[k] == intakes[k + 1]);
                }
                lemma_chunks_bounded(rest);
                let tail = pump_trace(PumpState::Reading, rest);
                assert(trace =~= seq![StreamItem::Chunk(bytes)] + tail);
                assert forall|i: int| 0 <= i < trace.len() implies match #[trigger] trace[i] {
                    StreamItem::Chunk(b) => 1 <= b.len() <= CHUNK_SIZE,
                    StreamItem::End => true,
                } by {
                    if i > 0 {
                        assert(trace[i] == tail[i - 1]);
                    }
                }
            },
            Intake::Stop => {
                lemma_ended_is_silent(rest);
                assert(trace =~= seq![StreamItem::End]);
            },
        }
    }
}

} // verus!
