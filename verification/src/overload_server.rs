//! The server of the overload experiment: which requests it takes, which it turns
//! away, when it answers, and what it counts. Times are nanoseconds on one clock.
use crate::latency::DURATION_LIMIT;
use crate::mode::OverloadMode;
use crate::percent::{
    basis_points, law_basis_points_at_most_whole, law_turned_away, percent_bits, percent_positive,
    should_reject_by_percent, turned_away, turns_away, Percent, WHOLE,
};
use crate::plan::OverloadScenario;
use crate::quic::OVERLOAD_ERROR_CODE;
use std::collections::{HashMap, HashSet};
use vstd::prelude::*;

verus! {

/// How long a request is processed.
pub const SIMULATED_PROCESSING_DELAY: u128 = 2_000_000;

// ---------------------------------------------------------------------------
// The work that a request makes
// ---------------------------------------------------------------------------

/// One step of the generator that stands for work.
pub open spec fn work_step(acc: u64, i: nat) -> u64 {
    acc.wrapping_mul(1_664_525u64).wrapping_add((i as u64) ^ 1_013_904_223u64)
}

/// Where the generator is after `rounds` steps.
pub open spec fn work_after(start: u64, rounds: nat) -> u64
    decreases rounds,
{
    if rounds == 0 {
        start
    } else {
        work_step(work_after(start, (rounds - 1) as nat), (rounds - 1) as nat)
    }
}

/// How many steps a request of `bytes` bytes takes.
pub open spec fn work_rounds(bytes: nat) -> nat {
    if bytes / 128 == 0 {
        129
    } else {
        bytes / 128 + 128
    }
}

/// Works as long as a request of `bytes` bytes makes it; returns where the
/// generator came to, which has to be used for the work to be done.
pub fn simulate_request_processing(bytes: usize) -> (r: u64)
    ensures
        r == work_after((bytes as u64) ^ 0x9e37_79b9u64, work_rounds(bytes as nat)),
{
    let start: u64 = bytes as u64 ^ 0x9e37_79b9;
    let mut acc: u64 = start;
    let share: usize = bytes / 128;
    let rounds: usize = if share == 0 {
        129
    } else {
        share + 128
    };
    let mut i: usize = 0;
    while i < rounds
        invariant
            i <= rounds,
            acc == work_after(start, i as nat),
        decreases rounds - i,
    {
        acc = acc.wrapping_mul(1_664_525).wrapping_add(i as u64 ^ 1_013_904_223);
        i = i + 1;
    }
    acc
}

// ---------------------------------------------------------------------------
// What is counted
// ---------------------------------------------------------------------------

/// What a server has done.
#[derive(Debug, Clone, Copy, PartialEq, Eq, Structural)]
pub struct OverloadServerStats {
    pub bytes_read: usize,
    /// The time that requests took, in nanoseconds.
    pub handling_time: u128,
    pub accepted_requests: usize,
    pub successful_requests: usize,
    pub app_rejections: usize,
    pub reset_rejections: usize,
    /// How many requests were handled at once, at most.
    pub peak_inflight: usize,
}

/// Nothing done yet.
pub open spec fn no_stats() -> OverloadServerStats {
    OverloadServerStats {
        bytes_read: 0,
        handling_time: 0,
        accepted_requests: 0,
        successful_requests: 0,
        app_rejections: 0,
        reset_rejections: 0,
        peak_inflight: 0,
    }
}

impl Default for OverloadServerStats {
    fn default() -> (r: Self)
        ensures
            r == no_stats(),
    {
        OverloadServerStats {
            bytes_read: 0,
            handling_time: 0,
            accepted_requests: 0,
            successful_requests: 0,
            app_rejections: 0,
            reset_rejections: 0,
            peak_inflight: 0,
        }
    }
}

/// How many requests were turned away.
pub open spec fn rejections(stats: OverloadServerStats) -> nat {
    (stats.app_rejections + stats.reset_rejections) as nat
}

// ---------------------------------------------------------------------------
// Requests
// ---------------------------------------------------------------------------

/// A request that was taken.
#[derive(Debug, Clone, Copy)]
pub struct ServerStream {
    pub started: u128,
    pub bytes_read: usize,
}

/// The two responses.
#[derive(Debug, Clone, Copy, PartialEq, Eq, Structural)]
pub enum RawResponse {
    /// The request was processed.
    Done,
    /// The request was turned away.
    Overloaded,
}

impl RawResponse {
    /// The bytes of the response: `200 ok` or `503 overloaded`.
    pub open spec fn bytes(self) -> Seq<u8> {
        match self {
            RawResponse::Done => seq![50u8, 48, 48, 32, 111, 107],
            RawResponse::Overloaded => seq![
                53u8,
                48,
                51,
                32,
                111,
                118,
                101,
                114,
                108,
                111,
                97,
                100,
                101,
                100,
            ],
        }
    }

    /// The bytes of the response.
    pub fn to_bytes(self) -> (r: Vec<u8>)
        ensures
            r@ == self.bytes(),
    {
        match self {
            RawResponse::Done => {
                let r: Vec<u8> = vec![50, 48, 48, 32, 111, 107];
                assert(r@ =~= self.bytes());
                r
            },
            RawResponse::Overloaded => {
                let r: Vec<u8> = vec![
                    53,
                    48,
                    51,
                    32,
                    111,
                    118,
                    101,
                    114,
                    108,
                    111,
                    97,
                    100,
                    101,
                    100,
                ];
                assert(r@ =~= self.bytes());
                r
            },
        }
    }

    /// What a stream is handed of the response when it has taken the first `from`
    /// bytes: the rest, and that the stream ends with it.
    pub fn rest(self, from: usize) -> (r: (Vec<u8>, bool))
        requires
            from <= self.bytes().len(),
        ensures
            r.0@ == self.bytes().skip(from as int),
            r.1,
    {
        let mut all = self.to_bytes();
        let rest = all.split_off(from);
        assert(rest@ =~= self.bytes().skip(from as int));
        (rest, true)
    }

    fn len(self) -> (r: usize)
        ensures
            r == self.bytes().len(),
    {
        match self {
            RawResponse::Done => 6,
            RawResponse::Overloaded => 14,
        }
    }
}

/// A response that has not been wholly sent.
#[derive(Debug, Clone, Copy)]
pub struct PendingResponse {
    pub response: RawResponse,
    /// How much of it has been sent.
    pub written: usize,
}

/// How a request is turned away: which sides of its stream are closed, with which
/// error code, and what it is answered, if anything.
#[derive(Debug, Clone, Copy, PartialEq, Eq, Structural)]
pub struct Refusal {
    /// Whether the server asks the client to send no more.
    pub close_read: bool,
    /// Whether the server sends nothing any more: the client sees a reset.
    pub close_write: bool,
    pub code: u64,
    pub response: Option<RawResponse>,
}

/// How each mode turns a request away. Neither reads it: one answers
/// `503 overloaded`, the other resets the stream and answers nothing.
pub open spec fn refusal_of(mode: OverloadMode) -> Refusal {
    match mode {
        OverloadMode::App503 => Refusal {
            close_read: true,
            close_write: false,
            code: OVERLOAD_ERROR_CODE,
            response: Some(RawResponse::Overloaded),
        },
        OverloadMode::Reset => Refusal {
            close_read: true,
            close_write: true,
            code: OVERLOAD_ERROR_CODE,
            response: None,
        },
    }
}

/// How a mode turns a request away.
pub fn refusal(mode: OverloadMode) -> (r: Refusal)
    ensures
        r == refusal_of(mode),
{
    match mode {
        OverloadMode::App503 => Refusal {
            close_read: true,
            close_write: false,
            code: OVERLOAD_ERROR_CODE,
            response: Some(RawResponse::Overloaded),
        },
        OverloadMode::Reset => Refusal {
            close_read: true,
            close_write: true,
            code: OVERLOAD_ERROR_CODE,
            response: None,
        },
    }
}

/// What is done with a stream that can be read.
#[derive(Debug, Clone, Copy, PartialEq, Eq, Structural)]
pub enum Arrival {
    /// Nothing: it was turned away or is being processed.
    Skip,
    /// It is turned away, in the way of this mode.
    Reject(OverloadMode),
    /// It is read.
    Read,
}

/// A server and its one client, as values.
#[verifier::ext_equal]
pub struct ServerModel {
    pub mode: OverloadMode,
    pub threshold: usize,
    /// The bits of the percentage of requests that are turned away.
    pub percent: u64,
    /// The requests that were taken and not answered.
    pub streams: Map<u64, ServerStream>,
    /// The streams that were reset.
    pub resets: Set<u64>,
    /// The requests that were read to their end, and when each is done.
    pub processing: Map<u64, u128>,
    /// The responses that are to be sent, to requests that were turned away or are
    /// done.
    pub owed: Map<u64, RawResponse>,
    /// The responses that have not been wholly sent.
    pub pending: Map<u64, PendingResponse>,
    pub in_flight: nat,
    /// How many requests have come.
    pub seen: nat,
    pub stats: OverloadServerStats,
}

/// Whether the next request is turned away: by its number where a percentage is, by
/// the number of requests in flight otherwise.
pub open spec fn turns_next_away(m: ServerModel) -> bool {
    if percent_positive(m.percent) {
        turns_away(m.seen + 1, basis_points(m.percent))
    } else {
        m.in_flight >= m.threshold
    }
}

/// What is done with a stream that can be read.
pub open spec fn arrival_of(m: ServerModel, stream: u64) -> Arrival {
    if m.resets.contains(stream) || m.processing.contains_key(stream) {
        Arrival::Skip
    } else if m.streams.contains_key(stream) {
        Arrival::Read
    } else if turns_next_away(m) {
        Arrival::Reject(m.mode)
    } else {
        Arrival::Read
    }
}

/// The responses that are owed once a request is turned away.
pub open spec fn refusal_owed(m: ServerModel, stream: u64) -> Map<u64, RawResponse> {
    match refusal_of(m.mode).response {
        Some(response) => m.owed.insert(stream, response),
        None => m.owed,
    }
}

/// The server after it has looked at a stream that can be read. A new request is
/// counted; one that is turned away is owed the answer of its mode, and one that is
/// turned away by a reset is not looked at again.
pub open spec fn server_arrived(m: ServerModel, stream: u64, now: u128) -> ServerModel {
    match arrival_of(m, stream) {
        Arrival::Skip => m,
        Arrival::Reject(OverloadMode::App503) => ServerModel {
            seen: m.seen + 1,
            owed: refusal_owed(m, stream),
            stats: OverloadServerStats {
                app_rejections: (m.stats.app_rejections + 1) as usize,
                ..m.stats
            },
            ..m
        },
        Arrival::Reject(OverloadMode::Reset) => ServerModel {
            seen: m.seen + 1,
            owed: refusal_owed(m, stream),
            resets: m.resets.insert(stream),
            stats: OverloadServerStats {
                reset_rejections: (m.stats.reset_rejections + 1) as usize,
                ..m.stats
            },
            ..m
        },
        Arrival::Read => if m.streams.contains_key(stream) {
            m
        } else {
            ServerModel {
                seen: m.seen + 1,
                in_flight: m.in_flight + 1,
                streams: m.streams.insert(stream, ServerStream { started: now, bytes_read: 0 }),
                stats: OverloadServerStats {
                    accepted_requests: (m.stats.accepted_requests + 1) as usize,
                    peak_inflight: if m.stats.peak_inflight < m.in_flight + 1 {
                        (m.in_flight + 1) as usize
                    } else {
                        m.stats.peak_inflight
                    },
                    ..m.stats
                },
                ..m
            }
        },
    }
}

/// Time was spent on a request.
pub open spec fn server_spent(m: ServerModel, time: u128) -> ServerModel {
    ServerModel {
        stats: OverloadServerStats {
            handling_time: (m.stats.handling_time + time) as u128,
            ..m.stats
        },
        ..m
    }
}

/// Whether a stream is being read.
pub open spec fn server_reads(m: ServerModel, stream: u64) -> bool {
    m.streams.contains_key(stream) && !m.processing.contains_key(stream)
}

/// Bytes of a request came, and perhaps its end.
pub open spec fn server_received(
    m: ServerModel,
    stream: u64,
    read: usize,
    fin: bool,
    now: u128,
) -> ServerModel {
    let before = m.streams[stream];
    ServerModel {
        streams: m.streams.insert(
            stream,
            ServerStream { bytes_read: (before.bytes_read + read) as usize, ..before },
        ),
        stats: OverloadServerStats {
            bytes_read: (m.stats.bytes_read + read) as usize,
            ..m.stats
        },
        processing: if fin {
            m.processing.insert(stream, (now + SIMULATED_PROCESSING_DELAY) as u128)
        } else {
            m.processing
        },
        ..m
    }
}

/// The client reset a request that was being read.
pub open spec fn server_abandoned(m: ServerModel, stream: u64) -> ServerModel {
    ServerModel {
        streams: m.streams.remove(stream),
        in_flight: (m.in_flight - 1) as nat,
        ..m
    }
}

/// A request is done, and is owed its response; its time counts from when it was taken.
pub open spec fn server_finished(m: ServerModel, stream: u64, now: u128) -> ServerModel {
    let started = m.streams[stream].started;
    let time = if now >= started {
        now - started
    } else {
        0
    };
    ServerModel {
        streams: m.streams.remove(stream),
        processing: m.processing.remove(stream),
        owed: m.owed.insert(stream, RawResponse::Done),
        in_flight: (m.in_flight - 1) as nat,
        stats: OverloadServerStats {
            handling_time: (m.stats.handling_time + time) as u128,
            successful_requests: (m.stats.successful_requests + 1) as usize,
            ..m.stats
        },
        ..m
    }
}

/// What holds of a server at every moment.
pub open spec fn server_valid(m: ServerModel) -> bool {
    &&& m.streams.dom().finite()
    &&& m.in_flight == m.streams.len()
    &&& m.processing.dom().subset_of(m.streams.dom())
    &&& forall|id: u64| #[trigger] m.streams.contains_key(id) ==> m.streams[id].bytes_read
        <= m.stats.bytes_read
    &&& forall|id: u64| #[trigger] m.pending.contains_key(id) ==> m.pending[id].written
        <= m.pending[id].response.bytes().len()
    &&& m.stats.accepted_requests + m.stats.app_rejections + m.stats.reset_rejections == m.seen
    &&& m.in_flight + m.stats.successful_requests <= m.stats.accepted_requests
    &&& m.in_flight <= m.stats.peak_inflight
    &&& m.stats.handling_time < DURATION_LIMIT
    &&& percent_bits(m.percent)
    &&& percent_positive(m.percent) ==> rejections(m.stats) == turned_away(
        m.seen,
        basis_points(m.percent),
    )
    &&& !percent_positive(m.percent) ==> m.stats.peak_inflight <= m.threshold
    &&& m.mode == OverloadMode::App503 ==> m.stats.reset_rejections == 0 && m.resets
        == Set::<u64>::empty()
    &&& m.mode == OverloadMode::Reset ==> m.stats.app_rejections == 0 && answers_done_alone(m)
}

/// Whether no response is sent but to requests that are done.
pub open spec fn answers_done_alone(m: ServerModel) -> bool {
    &&& forall|id: u64| #[trigger] m.owed.contains_key(id) ==> m.owed[id] == RawResponse::Done
    &&& forall|id: u64| #[trigger]
        m.pending.contains_key(id) ==> m.pending[id].response == RawResponse::Done
}

/// A server and its one client.
#[derive(Debug)]
pub struct OverloadServer {
    mode: OverloadMode,
    threshold: usize,
    percent: Percent,
    streams: HashMap<u64, ServerStream>,
    resets: HashSet<u64>,
    processing: HashMap<u64, u128>,
    owed: HashMap<u64, RawResponse>,
    pending: HashMap<u64, PendingResponse>,
    in_flight: usize,
    seen: usize,
    stats: OverloadServerStats,
}

impl View for OverloadServer {
    type V = ServerModel;

    closed spec fn view(&self) -> ServerModel {
        ServerModel {
            mode: self.mode,
            threshold: self.threshold,
            percent: self.percent@,
            streams: self.streams@,
            resets: self.resets@,
            processing: self.processing@,
            owed: self.owed@,
            pending: self.pending@,
            in_flight: self.in_flight as nat,
            seen: self.seen as nat,
            stats: self.stats,
        }
    }
}

impl OverloadServer {
    /// A server that no request has come to.
    pub fn start(scenario: &OverloadScenario) -> (r: OverloadServer)
        ensures
            server_valid(r@),
            r@ == (ServerModel {
                mode: scenario.mode,
                threshold: scenario.threshold,
                percent: scenario.reject_percent@,
                streams: Map::empty(),
                resets: Set::empty(),
                processing: Map::empty(),
                owed: Map::empty(),
                pending: Map::empty(),
                in_flight: 0,
                seen: 0,
                stats: no_stats(),
            }),
    {
        let bits: u64 = scenario.reject_percent.bits();
        OverloadServer {
            mode: scenario.mode,
            threshold: scenario.threshold,
            percent: scenario.reject_percent,
            streams: HashMap::new(),
            resets: HashSet::new(),
            processing: HashMap::new(),
            owed: HashMap::new(),
            pending: HashMap::new(),
            in_flight: 0,
            seen: 0,
            stats: OverloadServerStats {
                bytes_read: 0,
                handling_time: 0,
                accepted_requests: 0,
                successful_requests: 0,
                app_rejections: 0,
                reset_rejections: 0,
                peak_inflight: 0,
            },
        }
    }

    /// What the server has done.
    pub fn stats(&self) -> (r: OverloadServerStats)
        ensures
            r == self@.stats,
    {
        self.stats
    }

    /// Whether requests are being processed.
    pub fn busy(&self) -> (r: bool)
        ensures
            r == (self@.processing.len() > 0),
    {
        broadcast use vstd::std_specs::hash::group_hash_axioms;

        self.processing.len() > 0
    }

    /// Whether one more request can be counted.
    pub fn can_count(&self) -> (r: bool)
        ensures
            r == (self@.seen < usize::MAX),
    {
        self.seen < usize::MAX
    }

    /// Looks at a stream that can be read.
    pub fn on_readable(&mut self, stream: u64, now: u128) -> (r: Arrival)
        requires
            server_valid(old(self)@),
            old(self)@.seen < usize::MAX,
        ensures
            server_valid(final(self)@),
            r == arrival_of(old(self)@, stream),
            final(self)@ == server_arrived(old(self)@, stream, now),
            r == Arrival::Read ==> server_reads(final(self)@, stream),
    {
        broadcast use vstd::std_specs::hash::group_hash_axioms;

        let ghost before = self@;
        if self.resets.contains(&stream) || self.processing.contains_key(&stream) {
            return Arrival::Skip;
        }
        if self.streams.contains_key(&stream) {
            return Arrival::Read;
        }
        self.seen = self.seen + 1;
        let reject = if self.percent.is_positive() {
            should_reject_by_percent(self.seen, self.percent)
        } else {
            self.in_flight >= self.threshold
        };
        if reject {
            match refusal(self.mode).response {
                Some(response) => {
                    self.owed.insert(stream, response);
                },
                None => {},
            }
            match self.mode {
                OverloadMode::App503 => {
                    self.stats.app_rejections = self.stats.app_rejections + 1;
                },
                OverloadMode::Reset => {
                    self.resets.insert(stream);
                    self.stats.reset_rejections = self.stats.reset_rejections + 1;
                },
            }
            return Arrival::Reject(self.mode);
        }
        self.in_flight = self.in_flight + 1;
        self.streams.insert(stream, ServerStream { started: now, bytes_read: 0 });
        self.stats.accepted_requests = self.stats.accepted_requests + 1;
        if self.stats.peak_inflight < self.in_flight {
            self.stats.peak_inflight = self.in_flight;
        }
        proof {
            lemma_streams_grow(before, self@, stream);
        }
        Arrival::Read
    }

    /// Whether so much more time can be counted.
    pub fn can_spend(&self, time: u128) -> (r: bool)
        requires
            server_valid(self@),
        ensures
            r == (self@.stats.handling_time + time < DURATION_LIMIT),
    {
        time < DURATION_LIMIT - self.stats.handling_time
    }

    /// Time was spent on a request that was turned away.
    pub fn on_rejected(&mut self, time: u128)
        requires
            server_valid(old(self)@),
            old(self)@.stats.handling_time + time < DURATION_LIMIT,
        ensures
            server_valid(final(self)@),
            final(self)@ == server_spent(old(self)@, time),
    {
        self.stats.handling_time = self.stats.handling_time + time;
    }

    /// Whether a stream is being read.
    pub fn reads(&self, stream: u64) -> (r: bool)
        ensures
            r == server_reads(self@, stream),
    {
        broadcast use vstd::std_specs::hash::group_hash_axioms;

        self.streams.contains_key(&stream) && !self.processing.contains_key(&stream)
    }

    /// Whether so many more bytes can be counted.
    pub fn can_receive(&self, read: usize) -> (r: bool)
        ensures
            r == (self@.stats.bytes_read + read <= usize::MAX),
    {
        read <= usize::MAX - self.stats.bytes_read
    }

    /// Bytes of a request came, and perhaps its end.
    pub fn on_received(&mut self, stream: u64, read: usize, fin: bool, now: u128)
        requires
            server_valid(old(self)@),
            server_reads(old(self)@, stream),
            old(self)@.stats.bytes_read + read <= usize::MAX,
            now < DURATION_LIMIT,
        ensures
            server_valid(final(self)@),
            final(self)@ == server_received(old(self)@, stream, read, fin, now),
    {
        broadcast use vstd::std_specs::hash::group_hash_axioms;

        let ghost before = self@;
        match self.streams.remove(&stream) {
            Some(s) => {
                assert(before.streams[stream].bytes_read <= before.stats.bytes_read);
                let total: usize = s.bytes_read + read;
                self.streams.insert(
                    stream,
                    ServerStream { started: s.started, bytes_read: total },
                );
            },
            None => {},
        }
        self.stats.bytes_read = self.stats.bytes_read + read;
        if fin {
            self.processing.insert(stream, now + SIMULATED_PROCESSING_DELAY);
        }
        proof {
            let after = self@;
            let wanted = server_received(before, stream, read, fin, now);
            assert(after.streams =~= wanted.streams);
            assert(after.streams.dom() =~= before.streams.dom());
            assert forall|id: u64| #[trigger]
                after.streams.contains_key(id) implies after.streams[id].bytes_read
                <= after.stats.bytes_read by {
                assert(before.streams.contains_key(id));
            }
        }
    }

    /// The client reset a request that was being read.
    pub fn on_abandoned(&mut self, stream: u64)
        requires
            server_valid(old(self)@),
            server_reads(old(self)@, stream),
        ensures
            server_valid(final(self)@),
            final(self)@ == server_abandoned(old(self)@, stream),
    {
        broadcast use vstd::std_specs::hash::group_hash_axioms;

        let ghost before = self@;
        proof {
            lemma_streams_shrink(before, stream);
        }
        self.streams.remove(&stream);
        self.in_flight = self.in_flight - 1;
        proof {
            let after = self@;
            assert forall|id: u64| #[trigger]
                after.streams.contains_key(id) implies after.streams[id].bytes_read
                <= after.stats.bytes_read by {
                assert(before.streams.contains_key(id));
            }
        }
    }

    /// The requests that are done at `now`.
    pub fn due(&self, now: u128) -> (r: Vec<u64>)
        ensures
            r@.no_duplicates(),
            forall|id: u64| #[trigger]
                r@.contains(id) <==> self@.processing.contains_key(id) && self@.processing[id]
                    <= now,
    {
        broadcast use vstd::std_specs::hash::group_hash_axioms;

        let ids = crate::streams::stream_ids(&self.processing);
        let mut out: Vec<u64> = Vec::new();
        let mut i: usize = 0;
        while i < ids.len()
            invariant
                i <= ids@.len(),
                ids@.no_duplicates(),
                forall|id: u64| #[trigger] ids@.contains(id) <==> self.processing@.contains_key(id),
                out@.no_duplicates(),
                forall|id: u64| #[trigger]
                    out@.contains(id) <==> (exists|k: int| 0 <= k < i && #[trigger] ids@[k] == id)
                        && self.processing@[id] <= now,
            decreases ids@.len() - i,
        {
            broadcast use vstd::std_specs::hash::group_hash_axioms;

            let id: u64 = ids[i];
            assert(ids@.contains(id));
            let ready = match self.processing.get(&id) {
                Some(at) => *at <= now,
                None => false,
            };
            let ghost earlier = out@;
            if ready {
                proof {
                    if earlier.contains(id) {
                        let k = choose|k: int| 0 <= k < i && #[trigger] ids@[k] == id;
                        assert(ids@[k] == ids@[i as int]);
                    }
                }
                out.push(id);
            }
            proof {
                assert forall|x: u64| #[trigger]
                    out@.contains(x) <==> (exists|k: int| 0 <= k < i + 1 && #[trigger] ids@[k] == x)
                        && self.processing@[x] <= now by {
                    if ready {
                        assert(out@.contains(x) <==> earlier.contains(x) || x == id) by {
                            if earlier.contains(x) {
                                let k = choose|k: int| 0 <= k < earlier.len() && earlier[k] == x;
                                assert(out@[k] == x);
                            }
                            if x == id {
                                assert(out@[earlier.len() as int] == x);
                            }
                        }
                    }
                    if exists|k: int| 0 <= k < i + 1 && #[trigger] ids@[k] == x {
                        let k = choose|k: int| 0 <= k < i + 1 && #[trigger] ids@[k] == x;
                        if k == i {
                            assert(x == id);
                        }
                    }
                    if exists|k: int| 0 <= k < i && #[trigger] ids@[k] == x {
                        let k = choose|k: int| 0 <= k < i && #[trigger] ids@[k] == x;
                        assert(0 <= k < i + 1 && ids@[k] == x);
                    }
                    if x == id {
                        assert(ids@[i as int] == x);
                    }
                }
            }
            i = i + 1;
        }
        proof {
            assert forall|id: u64| #[trigger]
                out@.contains(id) <==> self@.processing.contains_key(id) && self@.processing[id]
                    <= now by {
                if self.processing@.contains_key(id) {
                    assert(ids@.contains(id));
                    let k = choose|k: int| 0 <= k < ids@.len() && ids@[k] == id;
                    assert(0 <= k < i && ids@[k] == id);
                }
                if exists|k: int| 0 <= k < i && #[trigger] ids@[k] == id {
                    let k = choose|k: int| 0 <= k < i && #[trigger] ids@[k] == id;
                    assert(ids@.contains(ids@[k]));
                }
            }
        }
        out
    }

    /// How many bytes a request that is being processed has, and how long it has
    /// been there.
    pub fn processed(&self, stream: u64, now: u128) -> (r: Option<(usize, u128)>)
        requires
            server_valid(self@),
        ensures
            match r {
                Some(w) => {
                    &&& self@.processing.contains_key(stream)
                    &&& w.0 == self@.streams[stream].bytes_read
                    &&& w.1 == time_since(self@.streams[stream].started, now)
                },
                None => !self@.processing.contains_key(stream),
            },
    {
        broadcast use vstd::std_specs::hash::group_hash_axioms;

        if !self.processing.contains_key(&stream) {
            return None;
        }
        assert(self@.processing.dom().contains(stream));
        match self.streams.get(&stream) {
            Some(s) => {
                let time: u128 = if now >= s.started {
                    now - s.started
                } else {
                    0
                };
                Some((s.bytes_read, time))
            },
            None => None,
        }
    }

    /// A request is done.
    pub fn on_processed(&mut self, stream: u64, now: u128)
        requires
            server_valid(old(self)@),
            old(self)@.processing.contains_key(stream),
            old(self)@.stats.handling_time + time_since(old(self)@.streams[stream].started, now)
                < DURATION_LIMIT,
        ensures
            server_valid(final(self)@),
            final(self)@ == server_finished(old(self)@, stream, now),
    {
        broadcast use vstd::std_specs::hash::group_hash_axioms;

        let ghost before = self@;
        assert(before.processing.dom().contains(stream));
        proof {
            lemma_streams_shrink(before, stream);
        }
        self.processing.remove(&stream);
        match self.streams.remove(&stream) {
            Some(s) => {
                let time: u128 = if now >= s.started {
                    now - s.started
                } else {
                    0
                };
                self.stats.handling_time = self.stats.handling_time + time;
            },
            None => {},
        }
        self.owed.insert(stream, RawResponse::Done);
        self.in_flight = self.in_flight - 1;
        self.stats.successful_requests = self.stats.successful_requests + 1;
        proof {
            let after = self@;
            assert forall|id: u64| #[trigger]
                after.streams.contains_key(id) implies after.streams[id].bytes_read
                <= after.stats.bytes_read by {
                assert(before.streams.contains_key(id));
            }
        }
    }

    /// The response that a stream is to be handed, if one is owed.
    pub fn owed(&self, stream: u64) -> (r: Option<RawResponse>)
        ensures
            match r {
                Some(response) => self@.owed.contains_key(stream) && response
                    == self@.owed[stream],
                None => !self@.owed.contains_key(stream),
            },
    {
        broadcast use vstd::std_specs::hash::group_hash_axioms;

        match self.owed.get(&stream) {
            Some(response) => Some(*response),
            None => None,
        }
    }

    /// The response that is owed was handed to its stream, which took so many bytes,
    /// or was blocked.
    pub fn on_response(&mut self, stream: u64, written: Option<usize>)
        requires
            server_valid(old(self)@),
            old(self)@.owed.contains_key(stream),
            written matches Some(n) ==> n <= old(self)@.owed[stream].bytes().len(),
        ensures
            server_valid(final(self)@),
            final(self)@ == server_responded(old(self)@, stream, written),
    {
        broadcast use vstd::std_specs::hash::group_hash_axioms;

        let ghost before = self@;
        match self.owed.remove(&stream) {
            Some(response) => {
                let sent: usize = match written {
                    Some(n) => n,
                    None => 0,
                };
                if sent != response.len() {
                    self.pending.insert(stream, PendingResponse { response, written: sent });
                }
            },
            None => {},
        }
        proof {
            lemma_pending(before, self@, stream);
        }
    }

    /// The response that a stream has to be handed again, and where it goes on,
    /// unless it has been wholly sent.
    pub fn unsent(&self, stream: u64) -> (r: Option<(RawResponse, usize)>)
        ensures
            match r {
                Some(p) => {
                    &&& self@.pending.contains_key(stream)
                    &&& p.0 == self@.pending[stream].response
                    &&& p.1 == self@.pending[stream].written
                    &&& p.1 < p.0.bytes().len()
                },
                None => self@.pending.contains_key(stream) ==> self@.pending[stream].written
                    >= self@.pending[stream].response.bytes().len(),
            },
    {
        broadcast use vstd::std_specs::hash::group_hash_axioms;

        match self.pending.get(&stream) {
            Some(p) => if p.written < p.response.len() {
                Some((p.response, p.written))
            } else {
                None
            },
            None => None,
        }
    }

    /// A stream took more of its response.
    pub fn on_response_progress(&mut self, stream: u64, written: usize)
        requires
            server_valid(old(self)@),
            old(self)@.pending.contains_key(stream),
            old(self)@.pending[stream].written + written
                <= old(self)@.pending[stream].response.bytes().len(),
        ensures
            server_valid(final(self)@),
            final(self)@ == server_response_progress(old(self)@, stream, written),
    {
        broadcast use vstd::std_specs::hash::group_hash_axioms;

        let ghost before = self@;
        match self.pending.remove(&stream) {
            Some(p) => {
                let sent: usize = p.written + written;
                self.pending.insert(
                    stream,
                    PendingResponse { response: p.response, written: sent },
                );
                assert(self@.pending =~= server_response_progress(before, stream, written).pending);
            },
            None => {},
        }
        proof {
            lemma_pending(before, self@, stream);
        }
    }

    /// Forgets a response that has been wholly sent.
    pub fn on_response_settled(&mut self, stream: u64)
        requires
            server_valid(old(self)@),
        ensures
            server_valid(final(self)@),
            final(self)@ == server_response_settled(old(self)@, stream),
    {
        broadcast use vstd::std_specs::hash::group_hash_axioms;

        let ghost before = self@;
        let whole = match self.pending.get(&stream) {
            Some(p) => p.written == p.response.len(),
            None => false,
        };
        if whole {
            self.pending.remove(&stream);
        }
        proof {
            lemma_pending(before, self@, stream);
        }
    }
}

/// The time from `start` to `now`.
pub open spec fn time_since(start: u128, now: u128) -> int {
    if now >= start {
        now - start
    } else {
        0
    }
}

/// The response that is owed was handed to its stream, which took so many bytes, or was
/// blocked.
pub open spec fn server_responded(
    m: ServerModel,
    stream: u64,
    written: Option<usize>,
) -> ServerModel {
    let response = m.owed[stream];
    let sent = match written {
        Some(n) => n,
        None => 0,
    };
    ServerModel {
        owed: m.owed.remove(stream),
        pending: if sent == response.bytes().len() {
            m.pending
        } else {
            m.pending.insert(stream, PendingResponse { response, written: sent })
        },
        ..m
    }
}

/// A stream took more of its response.
pub open spec fn server_response_progress(
    m: ServerModel,
    stream: u64,
    written: usize,
) -> ServerModel {
    let p = m.pending[stream];
    ServerModel {
        pending: m.pending.insert(
            stream,
            PendingResponse { written: (p.written + written) as usize, ..p },
        ),
        ..m
    }
}

/// A response is forgotten once it has been wholly sent.
pub open spec fn server_response_settled(m: ServerModel, stream: u64) -> ServerModel {
    if m.pending.contains_key(stream) && m.pending[stream].written
        == m.pending[stream].response.bytes().len() {
        ServerModel { pending: m.pending.remove(stream), ..m }
    } else {
        m
    }
}

proof fn lemma_streams_grow(before: ServerModel, after: ServerModel, stream: u64)
    requires
        server_valid(before),
        !before.streams.contains_key(stream),
        after.streams == before.streams.insert(
            stream,
            ServerStream { started: after.streams[stream].started, bytes_read: 0 },
        ),
        after.stats.bytes_read == before.stats.bytes_read,
    ensures
        after.streams.dom().finite(),
        after.streams.len() == before.streams.len() + 1,
        before.processing.dom().subset_of(after.streams.dom()),
        forall|id: u64| #[trigger] after.streams.contains_key(id) ==> after.streams[id].bytes_read
            <= after.stats.bytes_read,
{
    assert(after.streams.dom() =~= before.streams.dom().insert(stream));
    assert forall|id: u64| #[trigger]
        after.streams.contains_key(id) implies after.streams[id].bytes_read
        <= after.stats.bytes_read by {
        if id != stream {
            assert(before.streams.contains_key(id));
        }
    }
}

proof fn lemma_streams_shrink(m: ServerModel, stream: u64)
    requires
        server_valid(m),
        m.streams.contains_key(stream),
    ensures
        m.in_flight > 0,
        m.streams.remove(stream).dom().finite(),
        m.streams.remove(stream).len() == m.streams.len() - 1,
{
    assert(m.streams.remove(stream).dom() =~= m.streams.dom().remove(stream));
}

proof fn lemma_pending(m: ServerModel, next: ServerModel, stream: u64)
    requires
        server_valid(m),
        next == (ServerModel { pending: next.pending, owed: next.owed, ..m }),
        next.owed == m.owed || next.owed == m.owed.remove(stream),
        next.pending == m.pending || next.pending == m.pending.remove(stream) || exists|
            p: PendingResponse,
        |
            next.pending == #[trigger] m.pending.insert(stream, p) && p.written
                <= p.response.bytes().len() && (m.owed.contains_key(stream) && p.response
                == m.owed[stream] || m.pending.contains_key(stream) && p.response
                == m.pending[stream].response),
    ensures
        server_valid(next),
{
    assert forall|id: u64| #[trigger] next.pending.contains_key(id) implies next.pending[id].written
        <= next.pending[id].response.bytes().len() by {
        if id != stream || next.pending == m.pending {
            assert(m.pending.contains_key(id));
        }
    }
    if m.mode == OverloadMode::Reset {
        assert forall|id: u64| #[trigger] next.owed.contains_key(id) implies next.owed[id]
            == RawResponse::Done by {
            assert(m.owed.contains_key(id));
        }
        assert forall|id: u64| #[trigger]
            next.pending.contains_key(id) implies next.pending[id].response
            == RawResponse::Done by {
            if id != stream || next.pending == m.pending {
                assert(m.pending.contains_key(id));
            }
        }
    }
}

/// A server that turns away a percentage of requests has turned away exactly that
/// percentage of those that have come, rounded down.
pub proof fn law_percentage_is_kept(m: ServerModel)
    requires
        server_valid(m),
        percent_positive(m.percent),
        m.seen * basis_points(m.percent) <= usize::MAX,
    ensures
        rejections(m.stats) == m.seen * basis_points(m.percent) / (WHOLE as nat),
{
    law_basis_points_at_most_whole(m.percent);
    law_turned_away(m.seen, basis_points(m.percent));
}

/// A server without a percentage never handles more requests at once than its
/// threshold allows.
pub proof fn law_threshold_is_kept(m: ServerModel)
    requires
        server_valid(m),
        !percent_positive(m.percent),
    ensures
        m.in_flight <= m.stats.peak_inflight <= m.threshold,
{
}

/// Every request that has come was taken or turned away, and never both.
pub proof fn law_every_request_is_counted_once(m: ServerModel)
    requires
        server_valid(m),
    ensures
        m.stats.accepted_requests + rejections(m.stats) == m.seen,
        m.mode == OverloadMode::App503 ==> rejections(m.stats) == m.stats.app_rejections,
        m.mode == OverloadMode::Reset ==> rejections(m.stats) == m.stats.reset_rejections,
        m.stats.successful_requests <= m.stats.accepted_requests,
{
}

/// A request that is turned away is not read: looking at its stream changes neither
/// the bytes that were read nor the requests in flight, and a stream that was reset
/// is not looked at again.
pub proof fn law_rejected_is_not_read(m: ServerModel, stream: u64, now: u128, later: u128)
    requires
        server_valid(m),
        m.seen < usize::MAX,
        arrival_of(m, stream) == Arrival::Reject(m.mode),
    ensures
        ({
            let next = server_arrived(m, stream, now);
            &&& next.stats.bytes_read == m.stats.bytes_read
            &&& next.in_flight == m.in_flight
            &&& next.streams == m.streams
            &&& m.mode == OverloadMode::Reset ==> arrival_of(next, stream) == Arrival::Skip
                && server_arrived(next, stream, later) == next
        }),
{
}

/// What a refused request is answered: the client is told to send no more, with the
/// error code of an overload, and then either `503 overloaded` is owed, on a stream that
/// stays open for it, or the stream is reset and nothing is answered.
pub proof fn law_refused_is_answered(m: ServerModel, stream: u64, now: u128)
    requires
        server_valid(m),
        m.seen < usize::MAX,
        arrival_of(m, stream) == Arrival::Reject(m.mode),
    ensures
        ({
            let refusal = refusal_of(m.mode);
            let next = server_arrived(m, stream, now);
            &&& refusal.close_read && refusal.code == OVERLOAD_ERROR_CODE
            &&& refusal.close_write <==> refusal.response is None
            &&& m.mode == OverloadMode::App503 ==> {
                &&& refusal.response == Some(RawResponse::Overloaded)
                &&& next.owed == m.owed.insert(stream, RawResponse::Overloaded)
                &&& next.resets == m.resets
                &&& next.stats.app_rejections == m.stats.app_rejections + 1
            }
            &&& m.mode == OverloadMode::Reset ==> {
                &&& refusal.response is None
                &&& next.owed == m.owed && next.pending == m.pending
                &&& next.resets == m.resets.insert(stream)
                &&& next.stats.reset_rejections == m.stats.reset_rejections + 1
            }
        }),
{
}

/// A server refuses in one way: one that answers never resets a stream, and one that
/// resets answers no request but those that are done.
pub proof fn law_one_way_to_refuse(m: ServerModel)
    requires
        server_valid(m),
    ensures
        m.mode == OverloadMode::App503 ==> m.resets == Set::<u64>::empty(),
        m.mode == OverloadMode::Reset ==> answers_done_alone(m),
{
}

/// A request that is done is owed `200 ok`, and is no longer in flight.
pub proof fn law_processed_is_answered(m: ServerModel, stream: u64, now: u128)
    requires
        server_valid(m),
        m.processing.contains_key(stream),
    ensures
        ({
            let next = server_finished(m, stream, now);
            &&& next.owed == m.owed.insert(stream, RawResponse::Done)
            &&& next.in_flight == m.in_flight - 1
            &&& !next.streams.contains_key(stream) && !next.processing.contains_key(stream)
        }),
{
    assert(m.processing.dom().contains(stream));
    lemma_streams_shrink(m, stream);
}

/// The response that is owed is the one that is sent: what a stream did not take of it
/// at once is kept, at the point where it goes on, until the last byte has been taken.
pub proof fn law_blocked_response_is_kept(
    m: ServerModel,
    stream: u64,
    first: usize,
    more: usize,
)
    requires
        m.owed.contains_key(stream),
        first + more <= m.owed[stream].bytes().len(),
        first < m.owed[stream].bytes().len(),
    ensures
        ({
            let response = m.owed[stream];
            let waiting = server_responded(m, stream, Some(first));
            let further = server_response_progress(waiting, stream, more);
            let settled = server_response_settled(further, stream);
            &&& waiting.pending[stream] == (PendingResponse { response, written: first })
            &&& !waiting.owed.contains_key(stream)
            &&& further.pending[stream] == (PendingResponse {
                response,
                written: (first + more) as usize,
            })
            &&& settled.pending.contains_key(stream) <==> first + more < response.bytes().len()
        }),
{
}

/// A request that was read to its end is done after the time that processing takes,
/// and not before.
pub proof fn law_processing_takes_its_time(
    m: ServerModel,
    stream: u64,
    read: usize,
    now: u128,
    later: u128,
)
    requires
        now < DURATION_LIMIT,
    ensures
        ({
            let next = server_received(m, stream, read, true, now);
            &&& next.processing.contains_key(stream)
            &&& next.processing[stream] <= later <==> later >= now + SIMULATED_PROCESSING_DELAY
            &&& arrival_of(next, stream) == Arrival::Skip
        }),
{
}

// ---------------------------------------------------------------------------
// What a whole run comes to
// ---------------------------------------------------------------------------

/// What happens at a server.
pub enum ServerEvent {
    /// A stream can be read at this time.
    Arrived(u64, u128),
    /// Time was spent on a request that was turned away.
    Spent(u128),
    /// So many bytes of a request came, and perhaps its end, at this time.
    Received(u64, usize, bool, u128),
    /// The client reset a request.
    Abandoned(u64),
    /// A request is done at this time.
    Finished(u64, u128),
    /// A stream was handed its response, and took so many bytes or was blocked.
    Responded(u64, Option<usize>),
    /// A stream took so many more bytes of its response.
    Progressed(u64, usize),
    /// A response is forgotten if it was wholly sent.
    Settled(u64),
}

/// A server after something happened.
pub open spec fn server_after(m: ServerModel, e: ServerEvent) -> ServerModel {
    match e {
        ServerEvent::Arrived(stream, now) => server_arrived(m, stream, now),
        ServerEvent::Spent(time) => server_spent(m, time),
        ServerEvent::Received(stream, read, fin, now) => server_received(
            m,
            stream,
            read,
            fin,
            now,
        ),
        ServerEvent::Abandoned(stream) => server_abandoned(m, stream),
        ServerEvent::Finished(stream, now) => server_finished(m, stream, now),
        ServerEvent::Responded(stream, written) => server_responded(m, stream, written),
        ServerEvent::Progressed(stream, written) => server_response_progress(m, stream, written),
        ServerEvent::Settled(stream) => server_response_settled(m, stream),
    }
}

/// Whether something can happen at a server: what it speaks of is there, and what is
/// counted fits in the machine.
pub open spec fn server_may(m: ServerModel, e: ServerEvent) -> bool {
    match e {
        ServerEvent::Arrived(_, _) => m.seen < usize::MAX,
        ServerEvent::Spent(time) => m.stats.handling_time + time < DURATION_LIMIT,
        ServerEvent::Received(stream, read, _, now) => {
            &&& m.streams.contains_key(stream) && !m.processing.contains_key(stream)
            &&& m.stats.bytes_read + read <= usize::MAX
            &&& now < DURATION_LIMIT
        },
        ServerEvent::Abandoned(stream) => m.streams.contains_key(stream)
            && !m.processing.contains_key(stream),
        ServerEvent::Finished(stream, now) => m.processing.contains_key(stream)
            && m.stats.handling_time + (if now >= m.streams[stream].started {
            now - m.streams[stream].started
        } else {
            0
        }) < DURATION_LIMIT,
        ServerEvent::Responded(stream, written) => m.owed.contains_key(stream) && (
        written matches Some(n) ==> n <= m.owed[stream].bytes().len()),
        ServerEvent::Progressed(stream, written) => m.pending.contains_key(stream)
            && m.pending[stream].written + written <= m.pending[stream].response.bytes().len(),
        ServerEvent::Settled(_) => true,
    }
}

/// A server after all that happened, in its order.
pub open spec fn server_run(m: ServerModel, events: Seq<ServerEvent>) -> ServerModel
    decreases events.len(),
{
    if events.len() == 0 {
        m
    } else {
        server_after(server_run(m, events.drop_last()), events.last())
    }
}

/// Whether all that happened could happen when it did.
pub open spec fn server_may_run(m: ServerModel, events: Seq<ServerEvent>) -> bool
    decreases events.len(),
{
    events.len() > 0 ==> server_may_run(m, events.drop_last()) && server_may(
        server_run(m, events.drop_last()),
        events.last(),
    )
}

/// Whatever happens, what holds of a server goes on to hold.
pub proof fn law_server_stays_valid(m: ServerModel, events: Seq<ServerEvent>)
    requires
        server_valid(m),
        server_may_run(m, events),
    ensures
        server_valid(server_run(m, events)),
    decreases events.len(),
{
    if events.len() > 0 {
        law_server_stays_valid(m, events.drop_last());
        lemma_server_step(server_run(m, events.drop_last()), events.last());
    }
}

proof fn lemma_server_step(m: ServerModel, e: ServerEvent)
    requires
        server_valid(m),
        server_may(m, e),
    ensures
        server_valid(server_after(m, e)),
{
    let next = server_after(m, e);
    match e {
        ServerEvent::Arrived(stream, now) => {
            if arrival_of(m, stream) == Arrival::Read && !m.streams.contains_key(stream) {
                lemma_streams_grow(m, next, stream);
            }
            if m.mode == OverloadMode::Reset {
                assert(next.owed == m.owed);
            }
        },
        ServerEvent::Spent(time) => {},
        ServerEvent::Received(stream, read, fin, now) => {
            assert(m.streams[stream].bytes_read <= m.stats.bytes_read);
            assert(next.streams.dom() =~= m.streams.dom());
            assert forall|id: u64| #[trigger]
                next.streams.contains_key(id) implies next.streams[id].bytes_read
                <= next.stats.bytes_read by {
                assert(m.streams.contains_key(id));
            }
        },
        ServerEvent::Abandoned(stream) => {
            lemma_streams_shrink(m, stream);
            assert forall|id: u64| #[trigger]
                next.streams.contains_key(id) implies next.streams[id].bytes_read
                <= next.stats.bytes_read by {
                assert(m.streams.contains_key(id));
            }
        },
        ServerEvent::Finished(stream, now) => {
            assert(m.processing.dom().contains(stream));
            lemma_streams_shrink(m, stream);
            assert forall|id: u64| #[trigger]
                next.streams.contains_key(id) implies next.streams[id].bytes_read
                <= next.stats.bytes_read by {
                assert(m.streams.contains_key(id));
            }
        },
        ServerEvent::Responded(stream, written) => {
            lemma_pending(m, next, stream);
        },
        ServerEvent::Progressed(stream, written) => {
            lemma_pending(m, next, stream);
        },
        ServerEvent::Settled(stream) => {
            lemma_pending(m, next, stream);
        },
    }
}

/// How many bytes were read, of all requests.
pub open spec fn bytes_received(events: Seq<ServerEvent>) -> int {
    events.fold_left(
        0int,
        |total: int, e: ServerEvent|
            match e {
                ServerEvent::Received(_, read, _, _) => total + read,
                _ => total,
            },
    )
}

/// How many bytes were read of one request.
pub open spec fn bytes_received_on(events: Seq<ServerEvent>, stream: u64) -> int {
    events.fold_left(
        0int,
        |total: int, e: ServerEvent|
            match e {
                ServerEvent::Received(id, read, _, _) if id == stream => total + read,
                _ => total,
            },
    )
}

/// No byte is lost and none is counted twice: whatever happens, the bytes that a server
/// has read grow by the lengths of all the reads, and the requests that it has answered
/// by those that were done. What it was started with stays.
pub proof fn law_bytes_are_conserved(m: ServerModel, events: Seq<ServerEvent>)
    requires
        server_valid(m),
        server_may_run(m, events),
    ensures
        ({
            let r = server_run(m, events);
            &&& r.stats.bytes_read == m.stats.bytes_read + bytes_received(events)
            &&& r.stats.successful_requests == m.stats.successful_requests + events.filter(
                |e: ServerEvent| e is Finished,
            ).len()
            &&& r.mode == m.mode && r.threshold == m.threshold && r.percent == m.percent
        }),
    decreases events.len(),
{
    reveal(Seq::filter);
    reveal_with_fuel(Seq::fold_left, 2);
    if events.len() > 0 {
        let rest = events.drop_last();
        law_bytes_are_conserved(m, rest);
        law_server_stays_valid(m, rest);
        let before = server_run(m, rest);
        if events.last() is Finished {
            assert(before.processing.dom().contains(events.last()->Finished_0));
            lemma_streams_shrink(before, events.last()->Finished_0);
        }
    }
}

/// A request that was taken keeps the time at which it was, and has the bytes of all its
/// own reads and of no other's, until it is done or its client gives it up.
pub proof fn law_stream_bytes_are_conserved(
    m: ServerModel,
    events: Seq<ServerEvent>,
    stream: u64,
)
    requires
        server_valid(m),
        server_may_run(m, events),
        m.streams.contains_key(stream),
        forall|i: int|
            0 <= i < events.len() ==> match #[trigger] events[i] {
                ServerEvent::Abandoned(id) => id != stream,
                ServerEvent::Finished(id, _) => id != stream,
                _ => true,
            },
    ensures
        ({
            let r = server_run(m, events);
            &&& r.streams.contains_key(stream)
            &&& r.streams[stream].started == m.streams[stream].started
            &&& r.streams[stream].bytes_read == m.streams[stream].bytes_read + bytes_received_on(
                events,
                stream,
            )
        }),
    decreases events.len(),
{
    reveal_with_fuel(Seq::fold_left, 2);
    if events.len() > 0 {
        let rest = events.drop_last();
        assert forall|i: int| 0 <= i < rest.len() implies match #[trigger] rest[i] {
            ServerEvent::Abandoned(id) => id != stream,
            ServerEvent::Finished(id, _) => id != stream,
            _ => true,
        } by {
            assert(rest[i] == events[i]);
        }
        law_stream_bytes_are_conserved(m, rest, stream);
        law_server_stays_valid(m, rest);
        let before = server_run(m, rest);
        assert(before.streams[stream].bytes_read <= before.stats.bytes_read);
        assert(events[events.len() - 1] == events.last());
    }
}

/// What becomes of a stream that can be read. One that was reset or is being processed is
/// left alone, and one that was taken is read on. Any other is a new request. Without a
/// percentage it is taken exactly when fewer are in flight than the threshold; with one
/// it is turned away exactly when the share of those that have come, rounded down, grows
/// by one with it. A request that is taken starts now, with nothing read.
pub proof fn law_arrival(m: ServerModel, stream: u64, now: u128)
    requires
        server_valid(m),
        m.seen < usize::MAX,
    ensures
        ({
            let next = server_arrived(m, stream, now);
            let left_alone = m.resets.contains(stream) || m.processing.contains_key(stream);
            let fresh = !left_alone && !m.streams.contains_key(stream);
            let points = basis_points(m.percent);
            let taken = fresh && arrival_of(m, stream) == Arrival::Read;
            let refused = arrival_of(m, stream) is Reject;
            &&& arrival_of(m, stream) is Skip <==> left_alone
            &&& !fresh ==> next == m && !refused
            &&& fresh ==> next.seen == m.seen + 1 && (taken || refused)
            &&& refused ==> arrival_of(m, stream) == Arrival::Reject(m.mode)
            &&& fresh && !percent_positive(m.percent) ==> (taken <==> m.in_flight < m.threshold)
            &&& fresh && percent_positive(m.percent) && (m.seen + 1) * points <= usize::MAX ==> (
            refused <==> (m.seen + 1) * points / 10_000 == m.seen * points / 10_000 + 1)
            &&& taken ==> {
                &&& next.streams.contains_key(stream)
                &&& next.streams[stream].started == now
                &&& next.streams[stream].bytes_read == 0
                &&& next.in_flight == m.in_flight + 1
                &&& next.stats.accepted_requests == m.stats.accepted_requests + 1
                &&& next.stats.peak_inflight >= next.in_flight
                &&& next.stats.peak_inflight >= m.stats.peak_inflight
                &&& next.stats.peak_inflight == next.in_flight || next.stats.peak_inflight
                    == m.stats.peak_inflight
                &&& rejections(next.stats) == rejections(m.stats)
                &&& next.owed == m.owed && next.resets == m.resets
            }
            &&& refused ==> {
                &&& next.streams == m.streams && next.in_flight == m.in_flight
                &&& next.stats.accepted_requests == m.stats.accepted_requests
                &&& next.stats.peak_inflight == m.stats.peak_inflight
                &&& rejections(next.stats) == rejections(m.stats) + 1
            }
            &&& next.processing == m.processing && next.pending == m.pending
            &&& next.stats.bytes_read == m.stats.bytes_read
            &&& next.stats.handling_time == m.stats.handling_time
            &&& next.stats.successful_requests == m.stats.successful_requests
        }),
{
    let points = basis_points(m.percent);
    law_basis_points_at_most_whole(m.percent);
    if (m.seen + 1) * points <= usize::MAX {
        assert(m.seen * points <= (m.seen + 1) * points) by (nonlinear_arith);
        law_turned_away(m.seen, points);
        law_turned_away(m.seen + 1, points);
        assert(turned_away(m.seen + 1, points) == turned_away(m.seen, points) + if turns_away(
            m.seen + 1,
            points,
        ) {
            1nat
        } else {
            0nat
        });
    }
}

/// A request that was read to its end is done two milliseconds later, and not before; one
/// that was not goes on being read. Nothing else changes.
pub proof fn law_end_starts_processing(
    m: ServerModel,
    stream: u64,
    read: usize,
    fin: bool,
    now: u128,
)
    requires
        server_may(m, ServerEvent::Received(stream, read, fin, now)),
    ensures
        ({
            let next = server_received(m, stream, read, fin, now);
            &&& fin <==> next.processing.contains_key(stream)
            &&& fin ==> next.processing[stream] == now + 2_000_000
            &&& next.stats.handling_time == m.stats.handling_time
            &&& next.stats.accepted_requests == m.stats.accepted_requests
            &&& next.stats.peak_inflight == m.stats.peak_inflight
            &&& rejections(next.stats) == rejections(m.stats)
            &&& next.stats.successful_requests == m.stats.successful_requests
            &&& next.in_flight == m.in_flight && next.seen == m.seen
            &&& next.owed == m.owed && next.pending == m.pending && next.resets == m.resets
        }),
{
}

/// A request that is done counts for the time since it was taken, and one that was turned
/// away for the time that was spent on it; one that its client gave up counts for none.
/// Neither has read anything.
pub proof fn law_time_is_counted(m: ServerModel, stream: u64, now: u128, time: u128)
    requires
        server_valid(m),
    ensures
        server_may(m, ServerEvent::Spent(time)) ==> ({
            let next = server_spent(m, time);
            &&& next.stats.handling_time == m.stats.handling_time + time
            &&& next == (ServerModel { stats: next.stats, ..m })
            &&& next.stats == (OverloadServerStats {
                handling_time: next.stats.handling_time,
                ..m.stats
            })
        }),
        server_may(m, ServerEvent::Finished(stream, now)) ==> ({
            let next = server_finished(m, stream, now);
            let started = m.streams[stream].started;
            &&& now >= started ==> next.stats.handling_time + started == m.stats.handling_time
                + now
            &&& now < started ==> next.stats.handling_time == m.stats.handling_time
            &&& next.stats.successful_requests == m.stats.successful_requests + 1
            &&& next.stats.bytes_read == m.stats.bytes_read
            &&& next.stats.accepted_requests == m.stats.accepted_requests
            &&& rejections(next.stats) == rejections(m.stats)
            &&& next.stats.peak_inflight == m.stats.peak_inflight
            &&& next.seen == m.seen && next.in_flight + 1 == m.in_flight
            &&& next.pending == m.pending && next.resets == m.resets
        }),
        server_may(m, ServerEvent::Abandoned(stream)) ==> ({
            let next = server_abandoned(m, stream);
            &&& next.stats == m.stats
            &&& next.seen == m.seen && next.in_flight + 1 == m.in_flight
            &&& next.owed == m.owed && next.pending == m.pending
            &&& next.resets == m.resets && next.processing == m.processing
            &&& !next.streams.contains_key(stream)
        }),
{
    if m.processing.contains_key(stream) {
        assert(m.processing.dom().contains(stream));
        lemma_streams_shrink(m, stream);
    }
    if m.streams.contains_key(stream) {
        lemma_streams_shrink(m, stream);
    }
}

/// The stream that something happens on, if it is one.
pub open spec fn event_stream(e: ServerEvent) -> Option<u64> {
    match e {
        ServerEvent::Arrived(stream, _) => Some(stream),
        ServerEvent::Spent(_) => None,
        ServerEvent::Received(stream, _, _, _) => Some(stream),
        ServerEvent::Abandoned(stream) => Some(stream),
        ServerEvent::Finished(stream, _) => Some(stream),
        ServerEvent::Responded(stream, _) => Some(stream),
        ServerEvent::Progressed(stream, _) => Some(stream),
        ServerEvent::Settled(stream) => Some(stream),
    }
}

/// What happens on one stream changes nothing of another: neither whether it was taken,
/// is being processed, was reset, or has a response to come, nor anything about these.
pub proof fn law_other_streams_stay(m: ServerModel, e: ServerEvent, other: u64)
    requires
        event_stream(e) != Some(other),
    ensures
        ({
            let next = server_after(m, e);
            &&& next.streams.contains_key(other) <==> m.streams.contains_key(other)
            &&& next.streams[other] == m.streams[other] || !m.streams.contains_key(other)
            &&& next.processing.contains_key(other) <==> m.processing.contains_key(other)
            &&& next.processing[other] == m.processing[other] || !m.processing.contains_key(other)
            &&& next.owed.contains_key(other) <==> m.owed.contains_key(other)
            &&& next.owed[other] == m.owed[other] || !m.owed.contains_key(other)
            &&& next.pending.contains_key(other) <==> m.pending.contains_key(other)
            &&& next.pending[other] == m.pending[other] || !m.pending.contains_key(other)
            &&& next.resets.contains(other) <==> m.resets.contains(other)
        }),
{
}

/// Sending a response changes nothing but the responses. One that a stream takes whole is
/// not kept; one that it does not is kept with what it took, none where it was blocked,
/// and what it takes later is added.
pub proof fn law_response_is_sent(m: ServerModel, stream: u64, written: Option<usize>, more: usize)
    ensures
        ({
            let next = server_responded(m, stream, written);
            let whole = m.owed[stream].bytes().len();
            let took = match written {
                Some(n) => n as int,
                None => 0,
            };
            &&& next == (ServerModel { owed: next.owed, pending: next.pending, ..m })
            &&& !next.owed.contains_key(stream)
            &&& took == whole ==> next.pending == m.pending
            &&& took != whole ==> next.pending.contains_key(stream)
                && next.pending[stream].response == m.owed[stream]
                && next.pending[stream].written == took
        }),
        server_may(m, ServerEvent::Progressed(stream, more)) ==> ({
            let next = server_response_progress(m, stream, more);
            &&& next == (ServerModel { pending: next.pending, ..m })
            &&& next.pending.contains_key(stream)
            &&& next.pending[stream].response == m.pending[stream].response
            &&& next.pending[stream].written == m.pending[stream].written + more
        }),
        ({
            let next = server_response_settled(m, stream);
            &&& next == (ServerModel { pending: next.pending, ..m })
            &&& next.pending.contains_key(stream) <==> m.pending.contains_key(stream)
                && m.pending[stream].written != m.pending[stream].response.bytes().len()
            &&& next.pending.contains_key(stream) ==> next.pending == m.pending
        }),
{
}

/// A response starts with the three digits of its status and a space: 200 where the
/// request was processed and 503 where it was turned away.
pub proof fn law_response_status(response: RawResponse)
    ensures
        response.bytes().len() > 4,
        response.bytes()[3] == ' ' as u8,
        forall|i: int| 0 <= i < 3 ==> '0' as u8 <= #[trigger] response.bytes()[i] <= '9' as u8,
        100 * (response.bytes()[0] - '0' as u8) + 10 * (response.bytes()[1] - '0' as u8) + (
        response.bytes()[2] - '0' as u8) == match response {
            RawResponse::Done => 200int,
            RawResponse::Overloaded => 503int,
        },
{
}

/// The work that a request makes is one run of the generator over the numbers from none up,
/// a step for each of them: 128 steps, and one for each whole 128 bytes but at least one.
pub proof fn law_work(start: u64, rounds: nat, bytes: nat)
    requires
        rounds <= u64::MAX,
    ensures
        work_after(start, rounds) == Seq::new(rounds, |i: int| i as u64).fold_left(
            start,
            |acc: u64, i: u64| acc.wrapping_mul(1_664_525u64).wrapping_add(i ^ 1_013_904_223u64),
        ),
        bytes < 256 ==> work_rounds(bytes) == 129,
        bytes >= 128 ==> work_rounds(bytes + 128) == work_rounds(bytes) + 1,
        work_rounds(bytes) <= work_rounds(bytes + 1) <= work_rounds(bytes) + 1,
    decreases rounds,
{
    reveal_with_fuel(Seq::fold_left, 2);
    if rounds > 0 {
        let before = (rounds - 1) as nat;
        law_work(start, before, bytes);
        assert(Seq::new(rounds, |i: int| i as u64).drop_last() =~= Seq::new(
            before,
            |i: int| i as u64,
        ));
    }
}

/// The time since a start makes up what lies between it and now, and is none before it.
pub proof fn law_time_since(start: u128, now: u128)
    ensures
        now >= start ==> start + time_since(start, now) == now,
        now < start ==> time_since(start, now) == 0,
{
}

/// How each mode refuses: both ask the client to send no more, with the code of an overload;
/// the one leaves its own side of the stream open and answers, the other closes it.
pub proof fn law_refusals()
    ensures
        forall|mode: OverloadMode| #[trigger]
            refusal_of(mode).close_read && refusal_of(mode).code == 0x503,
        !refusal_of(OverloadMode::App503).close_write,
        refusal_of(OverloadMode::App503).response == Some(RawResponse::Overloaded),
        refusal_of(OverloadMode::Reset).close_write,
        refusal_of(OverloadMode::Reset).response is None,
{
}

} // verus!
