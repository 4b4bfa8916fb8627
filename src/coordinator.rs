use vstd::prelude::*;
use crate::config::{initial_requests, min_count, Config};
use crate::record::{frame_record, optional_bytes, record_bytes, ByteSink};
use crate::slot::{FrameSlot, Stream};

verus! {

/// What went wrong during streaming.
#[derive(Clone, Copy, Debug, PartialEq, Eq, Structural)]
pub enum ErrorKind {
    /// The producer reported an error for the index.
    RequestFailure,
    /// Writing the index's bytes to the sink failed.
    SinkWriteFailure,
}

/// The first failure of a run, with the index it concerns.
#[derive(Clone, Debug)]
pub struct FrameError {
    pub index: usize,
    pub kind: ErrorKind,
    pub message: String,
}

/// Why a run did not succeed.
#[derive(Debug)]
pub enum OutputError {
    /// The first failure latched while streaming.
    Frame(FrameError),
    /// Every frame was written, but flushing the sink failed.
    Flush(String),
}

/// What the caller must do after one completion has been handled.
#[derive(Clone, Copy, Debug, PartialEq, Eq, Structural)]
pub struct Step {
    /// Request this index from every stream in use.
    pub request: Option<usize>,
    /// The run has just finished: release whoever waits for it.
    pub finished: bool,
}

/// Number of slots in `s` that cannot be emitted yet.
pub open spec fn incomplete_count(s: Seq<FrameSlot>, paired: bool) -> nat
    decreases s.len(),
{
    if s.len() == 0 {
        0
    } else {
        incomplete_count(s.drop_last(), paired) + if s.last().complete(paired) {
            0nat
        } else {
            1nat
        }
    }
}

/// One when `slot` cannot be emitted yet, else zero.
pub open spec fn incomplete_one(slot: FrameSlot, paired: bool) -> nat {
    if slot.complete(paired) {
        0
    } else {
        1
    }
}

proof fn lemma_count_push(s: Seq<FrameSlot>, x: FrameSlot, paired: bool)
    ensures
        incomplete_count(s.push(x), paired) == incomplete_count(s, paired) + incomplete_one(
            x,
            paired,
        ),
{
    assert(s.push(x).drop_last() == s);
}

proof fn lemma_count_update(s: Seq<FrameSlot>, j: int, x: FrameSlot, paired: bool)
    requires
        0 <= j < s.len(),
    ensures
        incomplete_count(s.update(j, x), paired) + incomplete_one(s[j], paired) == incomplete_count(
            s,
            paired,
        ) + incomplete_one(x, paired),
    decreases s.len(),
{
    let t = s.update(j, x);
    if j == s.len() - 1 {
        assert(t.drop_last() == s.drop_last());
    } else {
        assert(t.drop_last() == s.drop_last().update(j, x));
        lemma_count_update(s.drop_last(), j, x, paired);
    }
}

proof fn lemma_count_drop_first(s: Seq<FrameSlot>, paired: bool)
    requires
        s.len() > 0,
    ensures
        incomplete_count(s, paired) == incomplete_one(s[0], paired) + incomplete_count(
            s.subrange(1, s.len() as int),
            paired,
        ),
    decreases s.len(),
{
    if s.len() == 1 {
        assert(s.drop_last() =~= Seq::<FrameSlot>::empty());
        assert(s.subrange(1, 1) =~= Seq::<FrameSlot>::empty());
    } else {
        lemma_count_drop_first(s.drop_last(), paired);
        assert(s.subrange(1, s.len() as int).drop_last() =~= s.drop_last().subrange(
            1,
            s.len() - 1,
        ));
    }
}

/// The bytes written for an emitted slot.
pub open spec fn slot_record(slot: FrameSlot, framed: bool) -> Seq<u8> {
    record_bytes(framed, optional_bytes(slot.primary), optional_bytes(slot.auxiliary))
}

/// The bytes written for a run of emitted slots, one after another.
pub open spec fn records(s: Seq<FrameSlot>, framed: bool) -> Seq<u8>
    decreases s.len(),
{
    if s.len() == 0 {
        Seq::<u8>::empty()
    } else {
        records(s.drop_last(), framed) + slot_record(s.last(), framed)
    }
}

/// The bytes written for index `i` of a run, from the payloads that arrived
/// for it.
pub open spec fn frame_bytes(
    framed: bool,
    paired: bool,
    primary: Map<int, Seq<u8>>,
    auxiliary: Map<int, Seq<u8>>,
    i: int,
) -> Seq<u8> {
    record_bytes(
        framed,
        primary[i],
        if paired {
            auxiliary[i]
        } else {
            Seq::<u8>::empty()
        },
    )
}

/// The bytes written for `count` consecutive indices from `lo`, in order.
pub open spec fn run_bytes(
    framed: bool,
    paired: bool,
    primary: Map<int, Seq<u8>>,
    auxiliary: Map<int, Seq<u8>>,
    lo: int,
    count: nat,
) -> Seq<u8>
    decreases count,
{
    if count == 0 {
        Seq::<u8>::empty()
    } else {
        run_bytes(framed, paired, primary, auxiliary, lo, (count - 1) as nat) + frame_bytes(
            framed,
            paired,
            primary,
            auxiliary,
            lo + count - 1,
        )
    }
}

/// `run_bytes` reads the payloads of its own indices only.
pub proof fn lemma_run_bytes_local(
    framed: bool,
    paired: bool,
    p1: Map<int, Seq<u8>>,
    a1: Map<int, Seq<u8>>,
    p2: Map<int, Seq<u8>>,
    a2: Map<int, Seq<u8>>,
    lo: int,
    count: nat,
)
    requires
        forall|i: int| lo <= i < lo + count ==> #[trigger] p1[i] == p2[i] && (paired ==> a1[i] == a2[i]),
    ensures
        run_bytes(framed, paired, p1, a1, lo, count) == run_bytes(framed, paired, p2, a2, lo, count),
    decreases count,
{
    if count > 0 {
        lemma_run_bytes_local(framed, paired, p1, a1, p2, a2, lo, (count - 1) as nat);
        assert(p1[lo + count - 1] == p2[lo + count - 1]);
    }
}

/// The indices from `lo` up to but not including `hi`.
pub open spec fn index_range(lo: int, hi: int) -> Seq<int> {
    Seq::new((hi - lo) as nat, |k: int| lo + k)
}

/// `slot` with the response for `stream` recorded in it.
pub open spec fn with_response(
    slot: FrameSlot,
    stream: Stream,
    outcome: Result<Vec<u8>, String>,
) -> FrameSlot {
    match (stream, outcome) {
        (Stream::Primary, Ok(b)) => FrameSlot { primary: Some(b), ..slot },
        (Stream::Primary, Err(_)) => FrameSlot { primary_failed: true, ..slot },
        (Stream::Auxiliary, Ok(b)) => FrameSlot { auxiliary: Some(b), ..slot },
        (Stream::Auxiliary, Err(_)) => FrameSlot { auxiliary_failed: true, ..slot },
    }
}

/// The engine that reorders completions and decides what to request and
/// what to emit. Every completion event goes through `on_completion`, one at
/// a time.
pub struct Coordinator {
    config: Config,
    next_to_output: usize,
    last_requested: usize,
    /// `slots[j]` belongs to index `next_to_output + j`.
    slots: Vec<FrameSlot>,
    error: Option<FrameError>,
    gate_fired: bool,
    /// Every index handed to the sink, in the order it was handed over.
    emitted: Ghost<Seq<int>>,
    /// Indices whose primary payload has arrived.
    primary_seen: Ghost<Set<int>>,
    /// Indices whose auxiliary payload has arrived.
    auxiliary_seen: Ghost<Set<int>>,
    /// The primary payload that arrived for each index.
    primary_payload: Ghost<Map<int, Seq<u8>>>,
    /// The auxiliary payload that arrived for each index.
    auxiliary_payload: Ghost<Map<int, Seq<u8>>>,
    /// Every byte the sink accepted from this run, in order.
    output: Ghost<Seq<u8>>,
}

impl Coordinator {
    pub closed spec fn spec_config(&self) -> Config {
        self.config
    }

    pub closed spec fn spec_next_to_output(&self) -> int {
        self.next_to_output as int
    }

    pub closed spec fn spec_last_requested(&self) -> int {
        self.last_requested as int
    }

    pub closed spec fn pending(&self) -> Seq<FrameSlot> {
        self.slots@
    }

    pub closed spec fn latched(&self) -> Option<FrameError> {
        self.error
    }

    pub closed spec fn fired(&self) -> bool {
        self.gate_fired
    }

    /// Indices handed to the sink so far, in order.
    pub closed spec fn emitted(&self) -> Seq<int> {
        self.emitted@
    }

    pub closed spec fn primary_arrived(&self) -> Set<int> {
        self.primary_seen@
    }

    pub closed spec fn auxiliary_arrived(&self) -> Set<int> {
        self.auxiliary_seen@
    }

    pub closed spec fn primary_payloads(&self) -> Map<int, Seq<u8>> {
        self.primary_payload@
    }

    pub closed spec fn auxiliary_payloads(&self) -> Map<int, Seq<u8>> {
        self.auxiliary_payload@
    }

    /// Every byte the sink accepted from this run, in order.
    pub closed spec fn output(&self) -> Seq<u8> {
        self.output@
    }

    /// Number of requested indices that have not yet completed.
    pub open spec fn in_flight(&self) -> nat {
        incomplete_count(self.pending(), self.spec_config().paired)
    }

    /// The slot that belongs to index `n`.
    pub open spec fn slot_of(&self, n: int) -> FrameSlot {
        self.pending()[n - self.spec_next_to_output()]
    }

    /// Every index that was requested has been drained, and no more will be
    /// requested.
    pub open spec fn done(&self) -> bool {
        &&& self.spec_next_to_output() == self.spec_last_requested() + 1
        &&& (self.spec_last_requested() == self.spec_config().end || self.latched() is Some)
    }

    /// The index next in line cannot be drained yet.
    pub open spec fn drained(&self) -> bool {
        self.pending().len() > 0 ==> !self.pending()[0].resolved(self.spec_config().paired)
    }

    /// The index `n` has a response for `stream` owed and not yet recorded.
    pub open spec fn expects(&self, n: int, stream: Stream) -> bool {
        &&& self.spec_next_to_output() <= n <= self.spec_last_requested()
        &&& (stream == Stream::Auxiliary ==> self.spec_config().paired)
        &&& !self.slot_of(n).has_arrived(stream)
    }

    /// A successful response for `stream` would make index `n` complete.
    pub open spec fn completes(&self, n: int, stream: Stream) -> bool {
        match stream {
            Stream::Primary => !self.spec_config().paired || self.slot_of(n).auxiliary is Some,
            Stream::Auxiliary => self.slot_of(n).primary is Some,
        }
    }

    /// The slots once the response has been recorded for index `n`, and an
    /// empty slot added where one more index was requested.
    pub open spec fn recorded(
        &self,
        n: int,
        stream: Stream,
        outcome: Result<Vec<u8>, String>,
        requested: bool,
    ) -> Seq<FrameSlot> {
        let updated = self.pending().update(
            n - self.spec_next_to_output(),
            with_response(self.slot_of(n), stream, outcome),
        );
        if requested {
            updated.push(
                FrameSlot {
                    primary: None,
                    auxiliary: None,
                    primary_failed: false,
                    auxiliary_failed: false,
                },
            )
        } else {
            updated
        }
    }

    /// The invariant of the engine, apart from having drained.
    pub closed spec fn inv(&self) -> bool {
        let start = self.config.start as int;
        let next = self.next_to_output as int;
        let last = self.last_requested as int;
        let paired = self.config.paired;
        let s = self.slots@;
        let e = self.emitted@;
        &&& self.config.valid()
        &&& start <= next <= last + 1
        &&& start <= last <= self.config.end
        &&& s.len() == last + 1 - next
        &&& forall|j: int| 0 <= j < s.len() && #[trigger] s[j].failed() ==> self.error is Some
        &&& forall|j: int|
            0 <= j < s.len() && (#[trigger] s[j]).primary is Some ==> self.primary_seen@.contains(
                next + j,
            )
        &&& forall|j: int|
            0 <= j < s.len() && (#[trigger] s[j]).auxiliary is Some ==> self.auxiliary_seen@.contains(
                next + j,
            )
        &&& !paired ==> forall|j: int|
            0 <= j < s.len() ==> (#[trigger] s[j]).auxiliary is None && !s[j].auxiliary_failed
        &&& forall|k: int| 0 <= k < e.len() ==> #[trigger] e[k] == start + k
        &&& start + e.len() <= next
        &&& self.error is None ==> start + e.len() == next
        &&& forall|k: int|
            0 <= k < e.len() ==> self.primary_seen@.contains(#[trigger] e[k]) && (paired
                ==> self.auxiliary_seen@.contains(e[k]))
        &&& (self.error matches Some(fe) && fe.kind == ErrorKind::RequestFailure) ==> start
            + e.len() <= self.error->Some_0.index
        &&& (self.error matches Some(fe) && fe.kind == ErrorKind::SinkWriteFailure) ==> start
            + e.len() == self.error->Some_0.index + 1
        &&& forall|j: int|
            0 <= j < s.len() && (#[trigger] s[j]).primary is Some ==> self.primary_payload@[next
                + j] == s[j].primary->Some_0@
        &&& forall|j: int|
            0 <= j < s.len() && (#[trigger] s[j]).auxiliary is Some ==> self.auxiliary_payload@[next
                + j] == s[j].auxiliary->Some_0@
        &&& self.error is None ==> self.output@ == run_bytes(
            self.config.framed,
            paired,
            self.primary_payload@,
            self.auxiliary_payload@,
            start,
            e.len(),
        )
        &&& incomplete_count(s, paired) <= self.config.window
        &&& (self.error is None && last < self.config.end) ==> incomplete_count(s, paired)
            == self.config.window
        &&& self.gate_fired ==> self.done()
    }

    /// The engine's well-formedness: its invariant, with every drainable
    /// index drained.
    pub open spec fn wf(&self) -> bool {
        &&& self.inv()
        &&& self.spec_config().valid()
        &&& self.spec_config().start <= self.spec_next_to_output() <= self.spec_last_requested() + 1
        &&& self.spec_last_requested() <= self.spec_config().end
        &&& self.pending().len() == self.spec_last_requested() + 1 - self.spec_next_to_output()
        &&& self.drained()
        &&& self.done() ==> self.fired()
    }

    /// Starts a run: the first `initial_requests(&config)` indices count as
    /// requested, and nothing has arrived.
    pub fn new(config: Config) -> (r: Coordinator)
        requires
            config.valid(),
        ensures
            r.wf(),
            r.spec_config() == config,
            r.spec_next_to_output() == config.start,
            r.spec_last_requested() == config.start + min_count(
                config.window as int,
                config.range_len() as int,
            ) - 1,
            forall|j: int|
                0 <= j < r.pending().len() ==> !(#[trigger] r.pending()[j]).has_arrived(
                    Stream::Primary,
                ) && !r.pending()[j].has_arrived(Stream::Auxiliary),
            r.latched() is None,
            !r.fired(),
            r.emitted() == Seq::<int>::empty(),
            r.output() == Seq::<u8>::empty(),
    {
        let count = initial_requests(&config);
        let mut slots: Vec<FrameSlot> = Vec::new();
        let mut i: usize = 0;
        while i < count
            invariant
                i <= count,
                slots@.len() == i,
                incomplete_count(slots@, config.paired) == i,
                forall|j: int|
                    0 <= j < slots@.len() ==> (#[trigger] slots@[j]).primary is None
                        && slots@[j].auxiliary is None && !slots@[j].primary_failed
                        && !slots@[j].auxiliary_failed,
            decreases count - i,
        {
            let e = FrameSlot::empty();
            proof {
                lemma_count_push(slots@, e, config.paired);
            }
            slots.push(e);
            i = i + 1;
        }
        Coordinator {
            config,
            next_to_output: config.start,
            last_requested: config.start + count - 1,
            slots,
            error: None,
            gate_fired: false,
            emitted: Ghost(Seq::empty()),
            primary_seen: Ghost(Set::empty()),
            auxiliary_seen: Ghost(Set::empty()),
            primary_payload: Ghost(Map::empty()),
            auxiliary_payload: Ghost(Map::empty()),
            output: Ghost(Seq::empty()),
        }
    }

    pub fn config(&self) -> (r: Config)
        ensures
            r == self.spec_config(),
    {
        self.config
    }

    /// The index that is emitted next.
    pub fn next_to_output(&self) -> (r: usize)
        ensures
            r == self.spec_next_to_output(),
    {
        self.next_to_output
    }

    /// The highest index requested so far.
    pub fn last_requested(&self) -> (r: usize)
        ensures
            r == self.spec_last_requested(),
    {
        self.last_requested
    }

    /// The latched error, if any.
    pub fn error(&self) -> (r: &Option<FrameError>)
        ensures
            *r == self.latched(),
    {
        &self.error
    }

    /// Emits every index from `next_to_output` on whose responses have all
    /// come back, stopping at the first one still waiting. Nothing reaches the
    /// sink once an error is latched, but the cursor still moves on.
    fn drain<S: ByteSink>(&mut self, sink: &mut S)
        requires
            old(self).inv(),
        ensures
            final(self).inv(),
            final(self).drained(),
            final(self).config == old(self).config,
            final(self).last_requested == old(self).last_requested,
            final(self).gate_fired == old(self).gate_fired,
            final(self).primary_seen == old(self).primary_seen,
            final(self).auxiliary_seen == old(self).auxiliary_seen,
            final(self).primary_payload == old(self).primary_payload,
            final(self).auxiliary_payload == old(self).auxiliary_payload,
            old(self).next_to_output <= final(self).next_to_output,
            old(self).emitted@.len() <= final(self).emitted@.len(),
            final(self).emitted@.subrange(0, old(self).emitted@.len() as int) == old(self).emitted@,
            old(self).error is Some ==> final(self).error == old(self).error,
            old(self).error is None ==> final(self).error is None || final(self).error->Some_0.kind
                == ErrorKind::SinkWriteFailure,
            final(self).slots@ == old(self).slots@.subrange(
                final(self).next_to_output - old(self).next_to_output,
                old(self).slots@.len() as int,
            ),
            forall|i: int|
                0 <= i < final(self).next_to_output - old(self).next_to_output ==> (#[trigger] old(self).slots@[i]).resolved(old(self).config.paired),
            old(self).error is Some ==> *final(sink) == *old(sink) && final(self).emitted@ == old(self).emitted@,
            old(sink).tracks_bytes() ==> final(sink).tracks_bytes(),
            old(sink).infallible() ==> final(sink).infallible(),
            old(sink).tracks_bytes() && final(self).error is None ==> final(sink).written() == old(
            sink).written() + records(
                old(self).slots@.subrange(0, final(self).next_to_output - old(self).next_to_output),
                old(self).config.framed,
            ),
            old(self).error is Some ==> final(self).output@ == old(self).output@,
            final(self).error is None ==> final(self).output@ == old(self).output@ + records(
                old(self).slots@.subrange(0, final(self).next_to_output - old(self).next_to_output),
                old(self).config.framed,
            ),
            old(self).error is None && final(self).error is Some ==> old(self).emitted@.len() < final(self).emitted@.len(),
            old(self).error is None && old(sink).infallible() ==> final(self).error is None && final(sink).infallible(),
    {
        let paired = self.config.paired;
        let framed = self.config.framed;
        proof {
            assert(self.emitted@.subrange(0, self.emitted@.len() as int) =~= self.emitted@);
            assert(self.slots@.subrange(0, self.slots@.len() as int) =~= self.slots@);
        }
        let ghost all = self.slots@;
        let ghost n0 = self.next_to_output;
        let ghost sink0: S = *sink;
        let ghost out0 = self.output@;
        let ghost err0 = self.error;
        let ghost em0 = self.emitted@;
        proof {
            assert(all.subrange(0, 0) =~= Seq::<FrameSlot>::empty());
            assert(sink0.written() + records(Seq::<FrameSlot>::empty(), framed) =~= sink0.written());
            assert(out0 + records(Seq::<FrameSlot>::empty(), framed) =~= out0);
        }
        while self.slots.len() > 0 && self.slots[0].is_resolved(paired)
            invariant
                self.inv(),
                paired == self.config.paired,
                framed == self.config.framed,
                self.config == old(self).config,
                self.last_requested == old(self).last_requested,
                self.gate_fired == old(self).gate_fired,
                self.primary_seen == old(self).primary_seen,
                self.auxiliary_seen == old(self).auxiliary_seen,
                self.primary_payload == old(self).primary_payload,
                self.auxiliary_payload == old(self).auxiliary_payload,
                old(self).next_to_output <= self.next_to_output,
                old(self).emitted@.len() <= self.emitted@.len(),
                self.emitted@.subrange(0, old(self).emitted@.len() as int) == old(self).emitted@,
                old(self).error is Some ==> self.error == old(self).error,
                old(self).error is None ==> self.error is None || self.error->Some_0.kind
                    == ErrorKind::SinkWriteFailure,
                all == old(self).slots@,
                n0 == old(self).next_to_output,
                all.len() == self.last_requested + 1 - n0,
                self.slots@ == all.subrange(self.next_to_output - n0, all.len() as int),
                forall|i: int| 0 <= i < self.next_to_output - n0 ==> (#[trigger] all[i]).resolved(paired),
                sink0 == *old(sink),
                out0 == old(self).output@,
                err0 is Some ==> self.output@ == out0,
                self.error is None ==> self.output@ == out0 + records(
                    all.subrange(0, self.next_to_output - n0),
                    framed,
                ),
                err0 == old(self).error,
                em0 == old(self).emitted@,
                err0 is Some ==> *sink == sink0 && self.emitted@ == em0,
                sink0.tracks_bytes() ==> sink.tracks_bytes() && (self.error is None
                    ==> sink.written() == sink0.written() + records(
                    all.subrange(0, self.next_to_output - n0),
                    framed,
                )),
                err0 is None && self.error is Some ==> em0.len() < self.emitted@.len(),
                err0 is None && sink0.infallible() ==> self.error is None && sink.infallible(),
                sink0.infallible() ==> sink.infallible(),
            decreases self.slots@.len(),
        {
            let ghost before = self.slots@;
            let ghost d0 = self.next_to_output - n0;
            let ghost e0 = self.emitted@;
            let ghost w0 = sink.written();
            proof {
                assert(all.subrange(0, d0 + 1).drop_last() =~= all.subrange(0, d0));
                assert(before[0] == all[d0]);
                lemma_count_drop_first(before, paired);
                if self.error is None {
                    // A failed index would have latched an error: this one is complete.
                    assert(!before[0].failed());
                }
            }
            let slot = self.slots.remove(0);
            let index = self.next_to_output;
            if self.error.is_none() {
                match &slot.primary {
                    Some(p) => {
                        let bytes = frame_record(framed, p, &slot.auxiliary);
                        self.emitted = Ghost(self.emitted@.push(index as int));
                        proof {
                            assert(self.primary_payload@[index as int] == p@);
                            if paired {
                                assert(slot.auxiliary is Some);
                                assert(self.auxiliary_payload@[index as int]
                                    == slot.auxiliary->Some_0@);
                            }
                            assert(bytes@ == frame_bytes(
                                framed,
                                paired,
                                self.primary_payload@,
                                self.auxiliary_payload@,
                                index as int,
                            ));
                        }
                        match sink.write_all(bytes.as_slice()) {
                            Ok(()) => {
                                self.output = Ghost(self.output@ + bytes@);
                                proof {
                                    assert(bytes@ == slot_record(all[d0], framed));
                                    assert(records(all.subrange(0, d0 + 1), framed) == records(
                                        all.subrange(0, d0),
                                        framed,
                                    ) + slot_record(all[d0], framed));
                                    assert(self.output@ =~= out0 + records(
                                        all.subrange(0, d0 + 1),
                                        framed,
                                    ));
                                }
                            },
                            Err(message) => {
                                self.error = Some(
                                    FrameError { index, kind: ErrorKind::SinkWriteFailure, message },
                                );
                            },
                        }
                    },
                    None => {},
                }
            }
            self.next_to_output = self.next_to_output + 1;
            proof {
                assert(self.slots@ =~= before.subrange(1, before.len() as int));
                assert(self.slots@ =~= all.subrange(d0 + 1, all.len() as int));
                assert forall|j: int| 0 <= j < self.slots@.len() implies #[trigger] self.slots@[j]
                    == before[j + 1] by {}
                assert forall|j: int|
                    0 <= j < self.slots@.len() && #[trigger] self.slots@[j].failed() implies self.error is Some by {
                    assert(self.slots@[j] == before[j + 1]);
                }
                assert(self.emitted@.subrange(0, old(self).emitted@.len() as int)
                    =~= e0.subrange(0, old(self).emitted@.len() as int));
            }
        }
    }

    /// Handles one response from the producer: the payload of `stream` for
    /// index `n`, or the error it reported. A response that is not owed (an
    /// index outside the requested, undrained range, a stream not in use, or a
    /// second response for the same stream) changes nothing.
    ///
    /// A payload that makes its index complete lets one more index be
    /// requested, while the range lasts and no error is latched, so the window
    /// bounds unanswered requests rather than buffered frames. Then every index
    /// that can be emitted, in order, is handed to `sink`: its record is
    /// written unless an error is latched, and the first failed write is
    /// latched with that index and the sink's message.
    #[verifier::rlimit(60)]
    pub fn on_completion<S: ByteSink>(
        &mut self,
        n: usize,
        stream: Stream,
        outcome: Result<Vec<u8>, String>,
        sink: &mut S,
    ) -> (r: Step)
        requires
            old(self).wf(),
        ensures
            final(self).wf(),
            final(self).spec_config() == old(self).spec_config(),
            !old(self).expects(n as int, stream) ==> *final(self) == *old(self) && r == (Step {
                request: None,
                finished: false,
            }),
            old(self).expects(n as int, stream) ==> r.request == if outcome is Ok && old(self).completes(n as int, stream) && old(self).latched() is None && old(self).spec_last_requested() < old(self).spec_config().end {
                Some((old(self).spec_last_requested() + 1) as usize)
            } else {
                None::<usize>
            },
            final(self).spec_last_requested() == old(self).spec_last_requested() + if r.request is Some {
                1int
            } else {
                0int
            },
            old(self).latched() is Some ==> final(self).latched() == old(self).latched(),
            old(self).latched() is None && old(self).expects(n as int, stream) ==> (
            outcome matches Err(m) ==> final(self).latched() == Some(
                (FrameError { index: n, kind: ErrorKind::RequestFailure, message: m }),
            )),
            old(self).latched() is None && outcome is Ok ==> final(self).latched() is None || final(self).latched()->Some_0.kind == ErrorKind::SinkWriteFailure,
            old(self).spec_next_to_output() <= final(self).spec_next_to_output(),
            old(self).emitted().len() <= final(self).emitted().len(),
            final(self).emitted().subrange(0, old(self).emitted().len() as int) == old(self).emitted(),
            old(self).expects(n as int, stream) && outcome is Ok ==> (stream == Stream::Primary
                ==> final(self).primary_arrived() == old(self).primary_arrived().insert(n as int))
                && (stream == Stream::Auxiliary ==> final(self).auxiliary_arrived() == old(self).auxiliary_arrived().insert(n as int)),
            old(self).expects(n as int, stream) ==> ({
                let grown = old(self).recorded(n as int, stream, outcome, r.request is Some);
                let drained = final(self).spec_next_to_output() - old(self).spec_next_to_output();
                &&& final(self).pending() == grown.subrange(drained, grown.len() as int)
                &&& forall|i: int|
                    0 <= i < drained ==> (#[trigger] grown[i]).resolved(
                        old(self).spec_config().paired,
                    )
            }),
            !old(self).expects(n as int, stream) ==> *final(sink) == *old(sink),
            old(self).latched() is Some ==> *final(sink) == *old(sink) && final(self).emitted()
                == old(self).emitted(),
            old(self).expects(n as int, stream) && outcome is Err ==> *final(sink) == *old(sink)
                && final(self).emitted() == old(self).emitted(),
            final(self).latched() is None ==> final(self).emitted() == old(self).emitted()
                + index_range(old(self).spec_next_to_output(), final(self).spec_next_to_output()),
            old(self).expects(n as int, stream) && old(sink).tracks_bytes() && final(
            self).latched() is None ==> final(
            sink).written() == old(sink).written() + records(
                old(self).recorded(n as int, stream, outcome, r.request is Some).subrange(
                    0,
                    final(self).spec_next_to_output() - old(self).spec_next_to_output(),
                ),
                old(self).spec_config().framed,
            ),
            old(self).latched() is None && (final(self).latched() matches Some(e) && e.kind
                == ErrorKind::SinkWriteFailure) ==> old(self).spec_next_to_output() <= final(
            self).latched()->Some_0.index < final(self).spec_next_to_output() && final(
            self).emitted() == old(self).emitted() + index_range(
                old(self).spec_next_to_output(),
                final(self).latched()->Some_0.index + 1,
            ),
            old(self).latched() is None && outcome is Ok && old(sink).infallible() ==> final(
            self).latched() is None && final(sink).infallible(),
            old(self).latched() is Some ==> final(self).output() == old(self).output(),
            final(self).latched() is None ==> old(self).output().len() <= final(self).output().len()
                && final(self).output().subrange(0, old(self).output().len() as int) == old(
            self).output(),
            old(sink).tracks_bytes() && final(self).latched() is None ==> final(sink).written()
                == old(sink).written() + final(self).output().subrange(
                old(self).output().len() as int,
                final(self).output().len() as int,
            ),
            old(self).expects(n as int, stream) && outcome is Ok ==> (stream == Stream::Primary
                ==> final(self).primary_payloads() == old(self).primary_payloads().insert(
                n as int,
                outcome->Ok_0@,
            ) && final(self).auxiliary_payloads() == old(self).auxiliary_payloads()) && (stream
                == Stream::Auxiliary ==> final(self).auxiliary_payloads() == old(
            self).auxiliary_payloads().insert(n as int, outcome->Ok_0@) && final(
            self).primary_payloads() == old(self).primary_payloads()),
            !(old(self).expects(n as int, stream) && outcome is Ok) ==> final(self).primary_payloads()
                == old(self).primary_payloads() && final(self).auxiliary_payloads() == old(
            self).auxiliary_payloads(),
            old(sink).tracks_bytes() ==> final(sink).tracks_bytes(),
            old(sink).infallible() ==> final(sink).infallible(),
            r.finished == (final(self).done() && !old(self).fired()),
            final(self).fired() == (old(self).fired() || final(self).done()),
    {
        let ignored = Step { request: None, finished: false };
        let paired = self.config.paired;
        if n < self.next_to_output || n > self.last_requested {
            return ignored;
        }
        if stream == Stream::Auxiliary && !paired {
            return ignored;
        }
        let j = n - self.next_to_output;
        if self.slots[j].arrived(stream) {
            return ignored;
        }
        let ghost old_slots = self.slots@;
        let mut request: Option<usize> = None;
        match outcome {
            Ok(bytes) => {
                match stream {
                    Stream::Primary => {
                        self.primary_payload = Ghost(self.primary_payload@.insert(n as int, bytes@));
                        self.slots[j].primary = Some(bytes);
                        self.primary_seen = Ghost(self.primary_seen@.insert(n as int));
                    },
                    Stream::Auxiliary => {
                        self.auxiliary_payload = Ghost(
                            self.auxiliary_payload@.insert(n as int, bytes@),
                        );
                        self.slots[j].auxiliary = Some(bytes);
                        self.auxiliary_seen = Ghost(self.auxiliary_seen@.insert(n as int));
                    },
                }
                proof {
                    let start = self.config.start as int;
                    let count = old(self).emitted@.len();
                    if old(self).error is None {
                        lemma_run_bytes_local(
                            self.config.framed,
                            paired,
                            old(self).primary_payload@,
                            old(self).auxiliary_payload@,
                            self.primary_payload@,
                            self.auxiliary_payload@,
                            start,
                            count,
                        );
                    }
                    assert forall|i: int|
                        0 <= i < self.slots@.len() && i != j && (#[trigger] self.slots@[i]).primary
                            is Some implies self.primary_payload@[self.next_to_output + i]
                        == self.slots@[i].primary->Some_0@ by {
                        assert(self.slots@[i] == old_slots[i]);
                    }
                    assert forall|i: int|
                        0 <= i < self.slots@.len() && i != j && (#[trigger] self.slots@[i]).auxiliary
                            is Some implies self.auxiliary_payload@[self.next_to_output + i]
                        == self.slots@[i].auxiliary->Some_0@ by {
                        assert(self.slots@[i] == old_slots[i]);
                    }
                }
                proof {
                    assert(self.slots@ == old_slots.update(j as int, self.slots@[j as int]));
                    lemma_count_update(old_slots, j as int, self.slots@[j as int], paired);
                }
                if self.slots[j].is_complete(paired) && self.error.is_none() && self.last_requested
                    < self.config.end {
                    let e = FrameSlot::empty();
                    proof {
                        lemma_count_push(self.slots@, e, paired);
                    }
                    self.slots.push(e);
                    self.last_requested = self.last_requested + 1;
                    request = Some(self.last_requested);
                }
            },
            Err(message) => {
                match stream {
                    Stream::Primary => {
                        self.slots[j].primary_failed = true;
                    },
                    Stream::Auxiliary => {
                        self.slots[j].auxiliary_failed = true;
                    },
                }
                proof {
                    assert(self.slots@ == old_slots.update(j as int, self.slots@[j as int]));
                    lemma_count_update(old_slots, j as int, self.slots@[j as int], paired);
                }
                if self.error.is_none() {
                    self.error = Some(
                        FrameError { index: n, kind: ErrorKind::RequestFailure, message },
                    );
                }
            },
        }
        proof {
            assert forall|i: int|
                0 <= i < self.slots@.len() && #[trigger] self.slots@[i].failed() implies self.error is Some by {
                if i < old_slots.len() && i != j {
                    assert(self.slots@[i] == old_slots[i]);
                }
                if i == j {
                    assert(old_slots[i].failed() || self.error is Some);
                }
            }
        }
        let ghost mid = *self;
        self.drain(sink);
        proof {
            if self.error is None {
                let added = self.output@.subrange(
                    old(self).output@.len() as int,
                    self.output@.len() as int,
                );
                assert(self.output@.subrange(0, old(self).output@.len() as int)
                    =~= old(self).output@);
                if old(sink).tracks_bytes() {
                    assert(added =~= records(
                        mid.slots@.subrange(0, self.next_to_output - mid.next_to_output),
                        self.config.framed,
                    ));
                }
            }
            if self.error is None {
                assert(self.emitted@ =~= old(self).emitted@ + index_range(
                    old(self).next_to_output as int,
                    self.next_to_output as int,
                ));
            }
            if old(self).error is None && self.error is Some && self.error->Some_0.kind
                == ErrorKind::SinkWriteFailure {
                assert(mid.error is None);
                assert(self.emitted@ =~= old(self).emitted@ + index_range(
                    old(self).next_to_output as int,
                    self.error->Some_0.index + 1,
                ));
            }
        }
        let finished = if !self.gate_fired && self.is_done() {
            self.gate_fired = true;
            true
        } else {
            false
        };
        Step { request, finished }
    }

    /// Ends a run: reports the latched error if there is one, else flushes
    /// `sink` and reports whether that worked.
    pub fn finish<S: ByteSink>(self, sink: &mut S) -> (r: Result<(), OutputError>)
        ensures
            self.latched() matches Some(e) ==> r == Err::<(), OutputError>(OutputError::Frame(e)),
            self.latched() is None ==> (r is Ok || r matches Err(OutputError::Flush(_))),
            self.latched() is None && old(sink).infallible() ==> r is Ok,
            old(sink).tracks_bytes() ==> final(sink).written() == old(sink).written(),
    {
        match self.error {
            Some(e) => Err(OutputError::Frame(e)),
            None => match sink.flush() {
                Ok(()) => Ok(()),
                Err(message) => Err(OutputError::Flush(message)),
            },
        }
    }

    /// Whether the run has reached its end.
    pub fn is_done(&self) -> (r: bool)
        requires
            self.inv(),
        ensures
            r == self.done(),
    {
        self.next_to_output == self.last_requested + 1 && (self.last_requested == self.config.end
            || self.error.is_some())
    }
}

/// Whatever order the responses come in, indices reach the sink in
/// ascending order from the first of the range, each once; a run that ends
/// without error has handed over the whole range.
pub proof fn lemma_emitted_in_order(c: &Coordinator)
    requires
        c.wf(),
    ensures
        forall|k: int|
            0 <= k < c.emitted().len() ==> #[trigger] c.emitted()[k] == c.spec_config().start + k,
        forall|a: int, b: int|
            0 <= a < b < c.emitted().len() ==> #[trigger] c.emitted()[a] < #[trigger] c.emitted()[b],
        c.done() && c.latched() is None ==> c.emitted() == Seq::new(
            c.spec_config().range_len(),
            |k: int| c.spec_config().start + k,
        ),
{
    if c.done() && c.latched() is None {
        assert(c.emitted() =~= Seq::new(
            c.spec_config().range_len(),
            |k: int| c.spec_config().start + k,
        ));
    }
}

/// No more requested indices are waiting for a response than the window
/// allows, and while the range lasts and nothing failed, exactly that many.
/// The window bounds unanswered requests only: completed indices queued
/// behind a slow one are not counted, and may reach the whole range.
pub proof fn lemma_window_bound(c: &Coordinator)
    requires
        c.wf(),
    ensures
        c.in_flight() <= c.spec_config().window,
        c.latched() is None && c.spec_last_requested() < c.spec_config().end ==> c.in_flight()
            == c.spec_config().window,
{
}

/// An index reaches the sink only after its primary payload, and with
/// pairing its auxiliary payload too, has arrived.
pub proof fn lemma_emitted_after_arrival(c: &Coordinator)
    requires
        c.wf(),
    ensures
        forall|k: int|
            0 <= k < c.emitted().len() ==> c.primary_arrived().contains(#[trigger] c.emitted()[k])
                && (c.spec_config().paired ==> c.auxiliary_arrived().contains(c.emitted()[k])),
{
}

/// Once a producer failure for index `e.index` is latched, nothing at or past
/// that index has reached the sink.
pub proof fn lemma_failure_stops_emission(c: &Coordinator)
    requires
        c.wf(),
        c.latched() matches Some(e) && e.kind == ErrorKind::RequestFailure,
    ensures
        forall|k: int|
            0 <= k < c.emitted().len() ==> #[trigger] c.emitted()[k] < c.latched()->Some_0.index,
{
}

/// A run that has not ended still waits for a response to its next index:
/// it cannot stall with nothing outstanding.
pub proof fn lemma_progress(c: &Coordinator)
    requires
        c.wf(),
        !c.done(),
    ensures
        c.pending().len() > 0,
        !c.pending()[0].resolved(c.spec_config().paired),
        c.spec_next_to_output() <= c.spec_last_requested(),
{
}

/// A run that ends without error has had the sink accept the record of
/// every index of its range, in index order, each built from the payloads
/// that arrived for that index.
pub proof fn lemma_run_output(c: &Coordinator)
    requires
        c.wf(),
        c.done(),
        c.latched() is None,
    ensures
        c.output() == run_bytes(
            c.spec_config().framed,
            c.spec_config().paired,
            c.primary_payloads(),
            c.auxiliary_payloads(),
            c.spec_config().start as int,
            c.spec_config().range_len(),
        ),
{
}

/// Two runs of one configuration that end without error, and received the
/// same payloads for each index, wrote the same bytes, whatever order and
/// interleaving the payloads arrived in.
pub proof fn lemma_output_independent_of_order(c1: &Coordinator, c2: &Coordinator)
    requires
        c1.wf(),
        c2.wf(),
        c1.done(),
        c2.done(),
        c1.latched() is None,
        c2.latched() is None,
        c1.spec_config() == c2.spec_config(),
        forall|i: int|
            c1.spec_config().start <= i <= c1.spec_config().end ==> #[trigger] c1.primary_payloads()[i]
                == c2.primary_payloads()[i] && (c1.spec_config().paired
                ==> c1.auxiliary_payloads()[i] == c2.auxiliary_payloads()[i]),
    ensures
        c1.output() == c2.output(),
{
    lemma_run_output(c1);
    lemma_run_output(c2);
    let cfg = c1.spec_config();
    lemma_run_bytes_local(
        cfg.framed,
        cfg.paired,
        c1.primary_payloads(),
        c1.auxiliary_payloads(),
        c2.primary_payloads(),
        c2.auxiliary_payloads(),
        cfg.start as int,
        cfg.range_len(),
    );
}

} // verus!
