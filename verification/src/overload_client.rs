//! The client of the overload experiment: how requests are written and answers
//! read, and what a run comes to. Times are nanoseconds on one clock.
use crate::fixed_rate::PATIENCE;
use crate::h3::elapsed;
use crate::mode::OverloadMode;
use crate::overload_server::{
    arrival_of, refusal_of, server_arrived, server_finished, server_valid, Arrival, RawResponse,
    ServerModel,
};
use crate::streams::stream_ids;
use std::collections::HashMap;
use vstd::prelude::*;

verus! {

// ---------------------------------------------------------------------------
// Answers
// ---------------------------------------------------------------------------

/// What became of a request.
#[derive(Debug, Clone, Copy, PartialEq, Eq, Structural)]
pub enum RawClientOutcome {
    /// It was processed.
    Success,
    /// It was turned away by a response.
    AppRejected,
    /// It was turned away by a reset.
    Reset,
    Error,
}

/// Whether a response starts with these three digits.
pub open spec fn starts_with(response: Seq<u8>, a: u8, b: u8, c: u8) -> bool {
    response.len() >= 3 && response[0] == a && response[1] == b && response[2] == c
}

/// What a response says: `200` is a success, `503` and `429` turn away.
pub open spec fn outcome_of(response: Seq<u8>) -> RawClientOutcome {
    if starts_with(response, 50, 48, 48) {
        RawClientOutcome::Success
    } else if starts_with(response, 53, 48, 51) || starts_with(response, 52, 50, 57) {
        RawClientOutcome::AppRejected
    } else {
        RawClientOutcome::Error
    }
}

fn has_prefix(response: &Vec<u8>, a: u8, b: u8, c: u8) -> (r: bool)
    ensures
        r == starts_with(response@, a, b, c),
{
    response.len() >= 3 && response[0] == a && response[1] == b && response[2] == c
}

/// What a response says.
pub fn classify_raw_response(response: &Vec<u8>) -> (r: RawClientOutcome)
    ensures
        r == outcome_of(response@),
{
    if has_prefix(response, 50, 48, 48) {
        RawClientOutcome::Success
    } else if has_prefix(response, 53, 48, 51) || has_prefix(response, 52, 50, 57) {
        RawClientOutcome::AppRejected
    } else {
        RawClientOutcome::Error
    }
}

// ---------------------------------------------------------------------------
// Requests
// ---------------------------------------------------------------------------

/// How much of a request is handed to a stream at once.
pub const RAW_STREAM_CHUNK_SIZE: usize = 4096;

/// How far the numbers of two streams are apart.
pub const STREAM_STEP: u64 = 4;

/// Where the part of a request ends that is handed to its stream next.
pub open spec fn chunk_end(written: nat, len: nat) -> nat {
    if written + RAW_STREAM_CHUNK_SIZE < len {
        written + RAW_STREAM_CHUNK_SIZE as nat
    } else {
        len
    }
}

/// A part of a request, from its first byte to behind its last one, and whether the
/// request ends with it.
#[derive(Debug, Clone, Copy, PartialEq, Eq, Structural)]
pub struct Chunk {
    pub from: usize,
    pub to: usize,
    pub fin: bool,
}

/// The part of a request that is handed to its stream next, if any is left.
pub open spec fn next_chunk(written: nat, len: nat) -> Option<Chunk> {
    if written >= len {
        None
    } else {
        Some(
            Chunk {
                from: written as usize,
                to: chunk_end(written, len) as usize,
                fin: chunk_end(written, len) == len,
            },
        )
    }
}

/// The part of a request that is handed to its stream next, if any is left.
pub fn request_chunk(written: usize, len: usize) -> (r: Option<Chunk>)
    ensures
        r == next_chunk(written as nat, len as nat),
{
    if written >= len {
        return None;
    }
    let to: usize = if len - written > RAW_STREAM_CHUNK_SIZE {
        written + RAW_STREAM_CHUNK_SIZE
    } else {
        len
    };
    Some(Chunk { from: written, to, fin: to == len })
}

/// What came of handing a part of a request to its stream.
#[derive(Debug, Clone, Copy, PartialEq, Eq, Structural)]
pub enum SendResult {
    /// The stream took so many bytes.
    Took(usize),
    /// The stream takes nothing now, or no stream may be opened.
    Blocked,
    /// The peer does not read the stream.
    Stopped,
    Failed,
}

/// How far a request has been written.
#[derive(Debug, Clone, Copy, PartialEq, Eq, Structural)]
pub enum RawWriteProgress {
    Written(usize),
    Blocked,
    Reset,
}

/// How far a request has been written after its stream took, or did not take, a
/// part of it; none where that failed.
pub open spec fn write_progress(written: nat, result: SendResult) -> Option<RawWriteProgress> {
    match result {
        SendResult::Took(n) => if n == 0 {
            Some(RawWriteProgress::Blocked)
        } else {
            Some(RawWriteProgress::Written((written + n) as usize))
        },
        SendResult::Blocked => Some(RawWriteProgress::Blocked),
        SendResult::Stopped => Some(RawWriteProgress::Reset),
        SendResult::Failed => None,
    }
}

/// How far a request has been written after its stream took, or did not take, a
/// part of it.
pub fn after_send(written: usize, result: SendResult) -> (r: Option<RawWriteProgress>)
    requires
        result matches SendResult::Took(n) ==> written + n <= usize::MAX,
    ensures
        r == write_progress(written as nat, result),
{
    match result {
        SendResult::Took(n) => if n == 0 {
            Some(RawWriteProgress::Blocked)
        } else {
            Some(RawWriteProgress::Written(written + n))
        },
        SendResult::Blocked => Some(RawWriteProgress::Blocked),
        SendResult::Stopped => Some(RawWriteProgress::Reset),
        SendResult::Failed => None,
    }
}

/// A request that has not been answered.
#[derive(Debug)]
pub struct RawPendingRequest<B> {
    pub started: u128,
    pub payload: B,
    /// The length of the payload.
    pub len: usize,
    /// How much of it has been sent.
    pub written: usize,
    /// Whether the peer does not read it.
    pub stopped_sending: bool,
    pub response: Vec<u8>,
}

/// The values of a `RawPendingRequest`.
#[verifier::ext_equal]
pub struct PendingModel<B> {
    pub started: u128,
    pub payload: B,
    pub len: nat,
    pub written: nat,
    pub stopped_sending: bool,
    pub response: Seq<u8>,
}

impl<B> View for RawPendingRequest<B> {
    type V = PendingModel<B>;

    open spec fn view(&self) -> PendingModel<B> {
        PendingModel {
            started: self.started,
            payload: self.payload,
            len: self.len as nat,
            written: self.written as nat,
            stopped_sending: self.stopped_sending,
            response: self.response@,
        }
    }
}

/// The end of a request.
#[derive(Debug, Clone, Copy, PartialEq, Eq, Structural)]
pub struct RawClientCompletion {
    pub latency: u128,
    pub outcome: RawClientOutcome,
}

/// The requests of a client, as values.
#[verifier::ext_equal]
pub struct ClientModel<B> {
    /// The stream that is opened next.
    pub next_stream: nat,
    pub pending: Map<u64, PendingModel<B>>,
}

/// A request was opened.
pub open spec fn client_opened<B>(
    m: ClientModel<B>,
    payload: B,
    len: nat,
    written: nat,
    now: u128,
) -> ClientModel<B> {
    ClientModel {
        next_stream: m.next_stream + STREAM_STEP as nat,
        pending: m.pending.insert(
            m.next_stream as u64,
            PendingModel {
                started: now,
                payload,
                len,
                written,
                stopped_sending: false,
                response: seq![],
            },
        ),
    }
}

/// Another part of a request was, or was not, taken. One that fails is over.
pub open spec fn client_flushed<B>(
    m: ClientModel<B>,
    stream: u64,
    result: SendResult,
) -> ClientModel<B> {
    let request = m.pending[stream];
    match write_progress(request.written, result) {
        Some(RawWriteProgress::Written(n)) => ClientModel {
            pending: m.pending.insert(stream, PendingModel { written: n as nat, ..request }),
            ..m
        },
        Some(RawWriteProgress::Blocked) => m,
        Some(RawWriteProgress::Reset) => ClientModel {
            pending: m.pending.insert(stream, PendingModel { stopped_sending: true, ..request }),
            ..m
        },
        None => ClientModel { pending: m.pending.remove(stream), ..m },
    }
}

/// Bytes of an answer came, and perhaps its end, with which the request is over.
pub open spec fn client_received<B>(
    m: ClientModel<B>,
    stream: u64,
    bytes: Seq<u8>,
    fin: bool,
) -> ClientModel<B> {
    if !m.pending.contains_key(stream) {
        m
    } else if fin {
        ClientModel { pending: m.pending.remove(stream), ..m }
    } else {
        let request = m.pending[stream];
        ClientModel {
            pending: m.pending.insert(
                stream,
                PendingModel { response: request.response + bytes, ..request },
            ),
            ..m
        }
    }
}

/// The peer reset a stream, with which the request is over.
pub open spec fn client_reset<B>(m: ClientModel<B>, stream: u64) -> ClientModel<B> {
    ClientModel { pending: m.pending.remove(stream), ..m }
}

/// What the end of a stream completes.
pub open spec fn client_completion<B>(
    m: ClientModel<B>,
    stream: u64,
    outcome: RawClientOutcome,
    now: u128,
) -> Option<RawClientCompletion> {
    if m.pending.contains_key(stream) {
        Some(RawClientCompletion { latency: elapsed(m.pending[stream].started, now), outcome })
    } else {
        None
    }
}

/// The requests of a client.
#[derive(Debug)]
pub struct RawRequests<B> {
    next_stream: u64,
    pending: HashMap<u64, RawPendingRequest<B>>,
}

impl<B> View for RawRequests<B> {
    type V = ClientModel<B>;

    closed spec fn view(&self) -> ClientModel<B> {
        ClientModel {
            next_stream: self.next_stream as nat,
            pending: self.pending@.map_values(|r: RawPendingRequest<B>| r@),
        }
    }
}

impl<B> RawRequests<B> {
    /// No request yet.
    pub fn start() -> (r: RawRequests<B>)
        ensures
            r@ == (ClientModel::<B> { next_stream: 0, pending: Map::empty() }),
    {
        let r = RawRequests { next_stream: 0, pending: HashMap::new() };
        assert(r@.pending =~= Map::<u64, PendingModel<B>>::empty());
        r
    }

    /// How many requests are unanswered.
    pub fn inflight(&self) -> (r: usize)
        ensures
            r == self@.pending.len(),
    {
        broadcast use vstd::std_specs::hash::group_hash_axioms;

        assert(self@.pending.dom() =~= self.pending@.dom());
        self.pending.len()
    }

    /// The stream that is opened next.
    pub fn next_stream(&self) -> (r: u64)
        ensures
            r == self@.next_stream,
    {
        self.next_stream
    }

    /// A request was opened, and its stream took so much of it.
    pub fn on_opened(&mut self, payload: B, len: usize, written: usize, now: u128)
        requires
            old(self)@.next_stream + STREAM_STEP <= u64::MAX,
        ensures
            final(self)@ == client_opened(
                old(self)@,
                payload,
                len as nat,
                written as nat,
                now,
            ),
    {
        broadcast use vstd::std_specs::hash::group_hash_axioms;

        let ghost before = self@;
        let stream: u64 = self.next_stream;
        let response: Vec<u8> = Vec::new();
        self.next_stream = stream + STREAM_STEP;
        self.pending.insert(
            stream,
            RawPendingRequest {
                started: now,
                payload,
                len,
                written,
                stopped_sending: false,
                response,
            },
        );
        assert(response@ =~= seq![]);
        assert(self@.pending =~= client_opened(
            before,
            payload,
            len as nat,
            written as nat,
            now,
        ).pending);
    }

    /// The streams of the requests that are unanswered.
    pub fn streams(&self) -> (r: Vec<u64>)
        ensures
            r@.no_duplicates(),
            forall|id: u64| #[trigger] r@.contains(id) <==> self@.pending.contains_key(id),
    {
        let ids = stream_ids(&self.pending);
        proof {
            assert forall|id: u64| #[trigger] ids@.contains(id) <==> self@.pending.contains_key(
                id,
            ) by {
                assert(ids@.contains(id) <==> self.pending@.contains_key(id));
            }
        }
        ids
    }

    /// The part of a request that is handed to its stream next, unless all of it has
    /// been taken or the peer does not read it.
    pub fn unsent(&self, stream: u64) -> (r: Option<Chunk>)
        ensures
            r == if self@.pending.contains_key(stream) && !self@.pending[stream].stopped_sending {
                next_chunk(self@.pending[stream].written, self@.pending[stream].len)
            } else {
                None
            },
    {
        broadcast use vstd::std_specs::hash::group_hash_axioms;

        match self.pending.get(&stream) {
            Some(request) => {
                assert(self@.pending[stream] == request@);
                if request.stopped_sending {
                    None
                } else {
                    request_chunk(request.written, request.len)
                }
            },
            None => None,
        }
    }

    /// The payload of a request.
    pub fn payload(&self, stream: u64) -> (r: Option<&B>)
        ensures
            match r {
                Some(payload) => self@.pending.contains_key(stream) && *payload
                    == self@.pending[stream].payload,
                None => !self@.pending.contains_key(stream),
            },
    {
        broadcast use vstd::std_specs::hash::group_hash_axioms;

        match self.pending.get(&stream) {
            Some(request) => Some(&request.payload),
            None => None,
        }
    }

    /// Another part of a request was, or was not, taken.
    pub fn on_flush(&mut self, stream: u64, result: SendResult, now: u128) -> (r: Option<
        RawClientCompletion,
    >)
        requires
            old(self)@.pending.contains_key(stream),
            result matches SendResult::Took(n) ==> old(self)@.pending[stream].written + n
                <= usize::MAX,
        ensures
            final(self)@ == client_flushed(old(self)@, stream, result),
            r == if result == SendResult::Failed {
                client_completion(old(self)@, stream, RawClientOutcome::Error, now)
            } else {
                None
            },
    {
        broadcast use vstd::std_specs::hash::group_hash_axioms;

        let ghost before = self@;
        match self.pending.remove(&stream) {
            None => None,
            Some(mut request) => {
                let ghost was = request@;
                assert(before.pending[stream] == was);
                match after_send(request.written, result) {
                    Some(RawWriteProgress::Written(n)) => {
                        request.written = n;
                    },
                    Some(RawWriteProgress::Blocked) => {},
                    Some(RawWriteProgress::Reset) => {
                        request.stopped_sending = true;
                    },
                    None => {
                        assert(self@.pending =~= before.pending.remove(stream));
                        return Some(
                            RawClientCompletion {
                                latency: time_between(request.started, now),
                                outcome: RawClientOutcome::Error,
                            },
                        );
                    },
                }
                self.pending.insert(stream, request);
                assert(self@.pending =~= client_flushed(before, stream, result).pending);
                None
            },
        }
    }

    /// Bytes of an answer came, and perhaps its end.
    pub fn on_data(&mut self, stream: u64, bytes: Vec<u8>, fin: bool, now: u128) -> (r: Option<
        RawClientCompletion,
    >)
        ensures
            final(self)@ == client_received(old(self)@, stream, bytes@, fin),
            r == if fin {
                client_completion(
                    old(self)@,
                    stream,
                    outcome_of(old(self)@.pending[stream].response + bytes@),
                    now,
                )
            } else {
                None
            },
    {
        broadcast use vstd::std_specs::hash::group_hash_axioms;

        let ghost before = self@;
        match self.pending.remove(&stream) {
            None => {
                assert(self@.pending =~= before.pending);
                None
            },
            Some(mut request) => {
                let ghost was = request@;
                assert(before.pending[stream] == was);
                let mut more = bytes;
                request.response.append(&mut more);
                if fin {
                    assert(self@.pending =~= before.pending.remove(stream));
                    return Some(
                        RawClientCompletion {
                            latency: time_between(request.started, now),
                            outcome: classify_raw_response(&request.response),
                        },
                    );
                }
                self.pending.insert(stream, request);
                assert(self@.pending =~= client_received(before, stream, bytes@, fin).pending);
                None
            },
        }
    }

    /// The peer reset a stream.
    pub fn on_reset(&mut self, stream: u64, now: u128) -> (r: Option<RawClientCompletion>)
        ensures
            final(self)@ == client_reset(old(self)@, stream),
            r == client_completion(old(self)@, stream, RawClientOutcome::Reset, now),
    {
        broadcast use vstd::std_specs::hash::group_hash_axioms;

        let ghost before = self@;
        match self.pending.remove(&stream) {
            None => {
                assert(self@.pending =~= before.pending.remove(stream));
                None
            },
            Some(request) => {
                assert(before.pending[stream] == request@);
                assert(self@.pending =~= before.pending.remove(stream));
                Some(
                    RawClientCompletion {
                        latency: time_between(request.started, now),
                        outcome: RawClientOutcome::Reset,
                    },
                )
            },
        }
    }
}

fn time_between(start: u128, now: u128) -> (r: u128)
    ensures
        r == elapsed(start, now),
{
    if now >= start {
        now - start
    } else {
        0
    }
}

/// The parts of a request follow one another without a gap, none is longer than a
/// chunk, and the last one alone ends the request.
pub proof fn law_chunks_cover_request(written: nat, len: nat)
    requires
        written < len <= usize::MAX,
    ensures
        ({
            let chunk = next_chunk(written, len)->0;
            &&& next_chunk(written, len) is Some
            &&& chunk.from == written
            &&& written < chunk.to <= len
            &&& chunk.to - written <= RAW_STREAM_CHUNK_SIZE
            &&& chunk.fin <==> next_chunk(chunk.to as nat, len) is None
        }),
{
}

/// A request is over once: after its end its stream completes nothing.
pub proof fn law_request_is_over_once<B>(
    m: ClientModel<B>,
    stream: u64,
    bytes: Seq<u8>,
    outcome: RawClientOutcome,
    now: u128,
)
    ensures
        client_completion(client_received(m, stream, bytes, true), stream, outcome, now) is None,
        client_completion(client_reset(m, stream), stream, outcome, now) is None,
        m.pending.contains_key(stream) ==> client_completion(
            client_flushed(m, stream, SendResult::Failed),
            stream,
            outcome,
            now,
        ) is None,
{
}

/// The requests after the pieces of an answer have come, one after the other, and the
/// answer has not ended.
pub open spec fn client_received_pieces<B>(
    m: ClientModel<B>,
    stream: u64,
    pieces: Seq<Seq<u8>>,
) -> ClientModel<B>
    decreases pieces.len(),
{
    if pieces.len() == 0 {
        m
    } else {
        client_received(
            client_received_pieces(m, stream, pieces.drop_last()),
            stream,
            pieces.last(),
            false,
        )
    }
}

proof fn lemma_received_pieces<B>(m: ClientModel<B>, stream: u64, pieces: Seq<Seq<u8>>)
    requires
        m.pending.contains_key(stream),
    ensures
        ({
            let after = client_received_pieces(m, stream, pieces);
            &&& after.pending.contains_key(stream)
            &&& after.pending[stream].started == m.pending[stream].started
            &&& after.pending[stream].response == m.pending[stream].response
                + pieces.flatten_alt()
        }),
    decreases pieces.len(),
{
    if pieces.len() > 0 {
        lemma_received_pieces(m, stream, pieces.drop_last());
    }
    let after = client_received_pieces(m, stream, pieces);
    assert(after.pending[stream].response =~= m.pending[stream].response + pieces.flatten_alt());
}

/// The client understands the server: a request that was processed is a success,
/// and one that was turned away by a response is turned away, however the response
/// is cut into pieces.
pub proof fn law_responses_are_understood<B>(
    m: ClientModel<B>,
    stream: u64,
    pieces: Seq<Seq<u8>>,
    last: Seq<u8>,
    now: u128,
    response: RawResponse,
)
    requires
        m.pending.contains_key(stream),
        m.pending[stream].response == Seq::<u8>::empty(),
        pieces.flatten_alt() + last == response.bytes(),
    ensures
        ({
            let before = client_received_pieces(m, stream, pieces);
            client_completion(
                before,
                stream,
                outcome_of(before.pending[stream].response + last),
                now,
            ) == Some(
                RawClientCompletion {
                    latency: elapsed(m.pending[stream].started, now),
                    outcome: match response {
                        RawResponse::Done => RawClientOutcome::Success,
                        RawResponse::Overloaded => RawClientOutcome::AppRejected,
                    },
                },
            )
        }),
{
    lemma_received_pieces(m, stream, pieces);
    let before = client_received_pieces(m, stream, pieces);
    assert(before.pending[stream].response + last =~= response.bytes());
}

/// A client learns that its request was refused, and how: where the server answers, the
/// bytes that it owes, however they are cut into pieces, say that the request was turned
/// away; where the server resets the stream, nothing is owed, and the reset says so.
pub proof fn law_refusal_is_understood<B>(
    server: ServerModel,
    m: ClientModel<B>,
    stream: u64,
    refused: u128,
    pieces: Seq<Seq<u8>>,
    last: Seq<u8>,
    now: u128,
)
    requires
        server_valid(server),
        server.seen < usize::MAX,
        arrival_of(server, stream) == Arrival::Reject(server.mode),
        m.pending.contains_key(stream),
        m.pending[stream].response == Seq::<u8>::empty(),
    ensures
        ({
            let refusal = refusal_of(server.mode);
            let after = server_arrived(server, stream, refused);
            let before = client_received_pieces(m, stream, pieces);
            let latency = elapsed(m.pending[stream].started, now);
            match server.mode {
                OverloadMode::App503 => {
                    &&& !refusal.close_write
                    &&& after.owed.contains_key(stream)
                    &&& refusal.response == Some(after.owed[stream])
                    &&& pieces.flatten_alt() + last == after.owed[stream].bytes()
                        ==> client_completion(
                        before,
                        stream,
                        outcome_of(before.pending[stream].response + last),
                        now,
                    ) == Some(
                        RawClientCompletion { latency, outcome: RawClientOutcome::AppRejected },
                    )
                },
                OverloadMode::Reset => {
                    &&& refusal.close_write
                    &&& refusal.response is None
                    &&& after.owed == server.owed
                    &&& client_completion(m, stream, RawClientOutcome::Reset, now) == Some(
                        RawClientCompletion { latency, outcome: RawClientOutcome::Reset },
                    )
                },
            }
        }),
{
    if server.mode == OverloadMode::App503 && pieces.flatten_alt() + last
        == RawResponse::Overloaded.bytes() {
        law_responses_are_understood(m, stream, pieces, last, now, RawResponse::Overloaded);
    }
}

/// A client learns that its request was processed: the bytes that the server owes then,
/// however they are cut into pieces, are a success.
pub proof fn law_processed_is_understood<B>(
    server: ServerModel,
    m: ClientModel<B>,
    stream: u64,
    done: u128,
    pieces: Seq<Seq<u8>>,
    last: Seq<u8>,
    now: u128,
)
    requires
        server_valid(server),
        server.processing.contains_key(stream),
        m.pending.contains_key(stream),
        m.pending[stream].response == Seq::<u8>::empty(),
        pieces.flatten_alt() + last == server_finished(server, stream, done).owed[stream].bytes(),
    ensures
        ({
            let before = client_received_pieces(m, stream, pieces);
            client_completion(
                before,
                stream,
                outcome_of(before.pending[stream].response + last),
                now,
            ) == Some(
                RawClientCompletion {
                    latency: elapsed(m.pending[stream].started, now),
                    outcome: RawClientOutcome::Success,
                },
            )
        }),
{
    law_responses_are_understood(m, stream, pieces, last, now, RawResponse::Done);
}

// ---------------------------------------------------------------------------
// A run
// ---------------------------------------------------------------------------

/// A run of the experiment, as values.
#[verifier::ext_equal]
pub struct LoadModel {
    /// How many requests are sent in all.
    pub total: nat,
    /// How many may be unanswered at once.
    pub concurrency: nat,
    pub sent: nat,
    pub completed: nat,
    pub successes: nat,
    pub rejected: nat,
    pub reset_streams: nat,
    pub errors: nat,
    pub latencies: Seq<u128>,
    pub rejection_latencies: Seq<u128>,
    /// When something last went on.
    pub last_progress: nat,
}

/// A run that has just begun.
pub open spec fn load_started(total: nat, concurrency: nat, now: nat) -> LoadModel {
    LoadModel {
        total,
        concurrency,
        sent: 0,
        completed: 0,
        successes: 0,
        rejected: 0,
        reset_streams: 0,
        errors: 0,
        latencies: seq![],
        rejection_latencies: seq![],
        last_progress: now,
    }
}

/// What holds at every moment of a run: every request that is over is a success,
/// turned away, reset or an error, and the ones that were turned away or reset have
/// a latency of their own.
pub open spec fn load_valid(m: LoadModel) -> bool {
    &&& m.sent <= m.total
    &&& m.successes + m.rejected + m.reset_streams + m.errors == m.completed
    &&& m.latencies.len() <= m.completed
    &&& m.rejection_latencies.len() == m.rejected + m.reset_streams
}

/// Whether another request may be opened.
pub open spec fn load_may_open(m: LoadModel, inflight: nat) -> bool {
    m.sent < m.total && inflight < m.concurrency
}

/// A request was opened.
pub open spec fn load_opened(m: LoadModel, now: nat) -> LoadModel {
    LoadModel { sent: m.sent + 1, last_progress: now, ..m }
}

/// A request could not be opened: it is over, and an error.
pub open spec fn load_open_failed(m: LoadModel, now: nat) -> LoadModel {
    LoadModel {
        sent: m.sent + 1,
        completed: m.completed + 1,
        errors: m.errors + 1,
        last_progress: now,
        ..m
    }
}

/// A request is over.
pub open spec fn load_completed(m: LoadModel, c: RawClientCompletion, now: nat) -> LoadModel {
    let turned_away = c.outcome == RawClientOutcome::AppRejected || c.outcome
        == RawClientOutcome::Reset;
    LoadModel {
        completed: m.completed + 1,
        latencies: m.latencies.push(c.latency),
        successes: m.successes + if c.outcome == RawClientOutcome::Success {
            1nat
        } else {
            0nat
        },
        rejected: m.rejected + if c.outcome == RawClientOutcome::AppRejected {
            1nat
        } else {
            0nat
        },
        reset_streams: m.reset_streams + if c.outcome == RawClientOutcome::Reset {
            1nat
        } else {
            0nat
        },
        errors: m.errors + if c.outcome == RawClientOutcome::Error {
            1nat
        } else {
            0nat
        },
        rejection_latencies: if turned_away {
            m.rejection_latencies.push(c.latency)
        } else {
            m.rejection_latencies
        },
        last_progress: now,
        ..m
    }
}

/// Whether nothing can happen any more: nothing did, nothing is unanswered, and all
/// was sent.
pub open spec fn load_drained(m: LoadModel, nothing_happened: bool, inflight: nat) -> bool {
    nothing_happened && inflight == 0 && m.sent >= m.total
}

/// Whether nothing has gone on for too long.
pub open spec fn load_stalled(m: LoadModel, now: nat) -> bool {
    now > m.last_progress + PATIENCE
}

/// Where a loop is in its round: requests are opened while they may be, then answers
/// are waited for.
#[derive(Debug, Clone, Copy, PartialEq, Eq, Structural)]
pub enum LoadPhase {
    /// A round begins.
    RoundStart,
    /// Requests are being opened.
    Opening,
    /// The connection took no more requests in this round.
    Blocked,
    /// Answers were waited for.
    Driven,
    /// Nothing can happen any more.
    Drained,
}

/// What a loop does next.
#[derive(Debug, Clone, Copy, PartialEq, Eq, Structural)]
pub enum LoadStep {
    /// Opens a request.
    Open,
    /// Waits for answers.
    Drive,
    /// Ends the run.
    Stop,
    /// Gives the run up.
    GiveUp,
}

/// What is done while requests are being opened.
pub open spec fn load_opening(m: LoadModel, inflight: nat) -> (LoadPhase, LoadStep) {
    if load_may_open(m, inflight) {
        (LoadPhase::Opening, LoadStep::Open)
    } else {
        (LoadPhase::Driven, LoadStep::Drive)
    }
}

/// What is done when a round begins.
pub open spec fn load_round(m: LoadModel, inflight: nat) -> (LoadPhase, LoadStep) {
    if m.completed < m.total {
        load_opening(m, inflight)
    } else {
        (LoadPhase::RoundStart, LoadStep::Stop)
    }
}

/// What a loop does next, and where in its round it is then.
pub open spec fn load_step(m: LoadModel, phase: LoadPhase, now: nat, inflight: nat) -> (
    LoadPhase,
    LoadStep,
) {
    match phase {
        LoadPhase::RoundStart => load_round(m, inflight),
        LoadPhase::Opening => load_opening(m, inflight),
        LoadPhase::Blocked => (LoadPhase::Driven, LoadStep::Drive),
        LoadPhase::Driven => if load_stalled(m, now) {
            (LoadPhase::Driven, LoadStep::GiveUp)
        } else {
            load_round(m, inflight)
        },
        LoadPhase::Drained => (LoadPhase::Drained, LoadStep::Stop),
    }
}

/// What a run came to.
#[derive(Debug)]
pub struct LoadCounts {
    pub completed: usize,
    pub successes: usize,
    pub rejected: usize,
    pub reset_streams: usize,
    pub errors: usize,
    pub latencies: Vec<u128>,
    pub rejection_latencies: Vec<u128>,
}

/// Whether `counts` are those of a run with `missing` requests given up.
pub open spec fn load_counts(counts: LoadCounts, m: LoadModel, missing: nat) -> bool {
    &&& counts.completed == m.completed
    &&& counts.successes == m.successes
    &&& counts.rejected == m.rejected
    &&& counts.reset_streams == m.reset_streams
    &&& counts.errors == m.errors + missing
    &&& counts.latencies@ == m.latencies
    &&& counts.rejection_latencies@ == m.rejection_latencies
}

/// A run of the experiment.
#[derive(Debug)]
pub struct OverloadLoad {
    total: usize,
    concurrency: usize,
    sent: usize,
    completed: usize,
    successes: usize,
    rejected: usize,
    reset_streams: usize,
    errors: usize,
    latencies: Vec<u128>,
    rejection_latencies: Vec<u128>,
    last_progress: u128,
    phase: LoadPhase,
}

impl View for OverloadLoad {
    type V = LoadModel;

    closed spec fn view(&self) -> LoadModel {
        LoadModel {
            total: self.total as nat,
            concurrency: self.concurrency as nat,
            sent: self.sent as nat,
            completed: self.completed as nat,
            successes: self.successes as nat,
            rejected: self.rejected as nat,
            reset_streams: self.reset_streams as nat,
            errors: self.errors as nat,
            latencies: self.latencies@,
            rejection_latencies: self.rejection_latencies@,
            last_progress: self.last_progress as nat,
        }
    }
}

impl OverloadLoad {
    /// Where in its round the loop is.
    pub closed spec fn phase(self) -> LoadPhase {
        self.phase
    }

    /// Begins a run; none where there are too many requests to keep the latencies,
    /// of sixteen bytes each, of.
    pub fn start(total: usize, concurrency: usize, now: u128) -> (r: Option<OverloadLoad>)
        ensures
            match r {
                Some(load) => {
                    &&& total * 16 <= isize::MAX
                    &&& load_valid(load@)
                    &&& load.phase() == LoadPhase::RoundStart
                    &&& load@ == load_started(total as nat, concurrency as nat, now as nat)
                },
                None => total * 16 > isize::MAX,
            },
    {
        if total > isize::MAX as usize / 16 {
            return None;
        }
        Some(
            OverloadLoad {
                total,
                concurrency,
                sent: 0,
                completed: 0,
                successes: 0,
                rejected: 0,
                reset_streams: 0,
                errors: 0,
                latencies: Vec::new(),
                rejection_latencies: Vec::new(),
                last_progress: now,
                phase: LoadPhase::RoundStart,
            },
        )
    }

    fn opening(&mut self, inflight: usize) -> (r: LoadStep)
        ensures
            final(self)@ == old(self)@,
            (final(self).phase(), r) == load_opening(old(self)@, inflight as nat),
    {
        if self.sent < self.total && inflight < self.concurrency {
            self.phase = LoadPhase::Opening;
            LoadStep::Open
        } else {
            self.phase = LoadPhase::Driven;
            LoadStep::Drive
        }
    }

    fn round(&mut self, inflight: usize) -> (r: LoadStep)
        ensures
            final(self)@ == old(self)@,
            (final(self).phase(), r) == load_round(old(self)@, inflight as nat),
    {
        if self.completed < self.total {
            self.opening(inflight)
        } else {
            self.phase = LoadPhase::RoundStart;
            LoadStep::Stop
        }
    }

    /// What the loop does next.
    pub fn step(&mut self, now: u128, inflight: usize) -> (r: LoadStep)
        ensures
            final(self)@ == old(self)@,
            (final(self).phase(), r) == load_step(
                old(self)@,
                old(self).phase(),
                now as nat,
                inflight as nat,
            ),
    {
        match self.phase {
            LoadPhase::RoundStart => self.round(inflight),
            LoadPhase::Opening => self.opening(inflight),
            LoadPhase::Blocked => {
                self.phase = LoadPhase::Driven;
                LoadStep::Drive
            },
            LoadPhase::Driven => if now > self.last_progress && now - self.last_progress
                > PATIENCE {
                LoadStep::GiveUp
            } else {
                self.round(inflight)
            },
            LoadPhase::Drained => LoadStep::Stop,
        }
    }

    /// The connection took no more requests in this round.
    pub fn on_blocked(&mut self)
        ensures
            final(self)@ == old(self)@,
            final(self).phase() == LoadPhase::Blocked,
    {
        self.phase = LoadPhase::Blocked;
    }

    /// Answers were waited for. Where none came, none is due and all was sent, the
    /// run is over.
    pub fn on_driven(&mut self, nothing_happened: bool, inflight: usize)
        ensures
            final(self)@ == old(self)@,
            final(self).phase() == if load_drained(
                old(self)@,
                nothing_happened,
                inflight as nat,
            ) {
                LoadPhase::Drained
            } else {
                old(self).phase()
            },
    {
        if nothing_happened && inflight == 0 && self.sent >= self.total {
            self.phase = LoadPhase::Drained;
        }
    }

    /// Whether a request is still to be opened.
    pub fn unopened(&self) -> (r: bool)
        ensures
            r == (self@.sent < self@.total),
    {
        self.sent < self.total
    }

    /// Whether one more request can be counted as over.
    pub fn can_count(&self) -> (r: bool)
        ensures
            r == (self@.completed < usize::MAX),
    {
        self.completed < usize::MAX
    }

    /// A request was opened.
    pub fn on_opened(&mut self, now: u128)
        requires
            load_valid(old(self)@),
            old(self)@.sent < old(self)@.total,
        ensures
            load_valid(final(self)@),
            final(self)@ == load_opened(old(self)@, now as nat),
            final(self).phase() == old(self).phase(),
    {
        self.sent = self.sent + 1;
        self.last_progress = now;
    }

    /// A request could not be opened.
    pub fn on_open_failed(&mut self, now: u128)
        requires
            load_valid(old(self)@),
            old(self)@.sent < old(self)@.total,
            old(self)@.completed < usize::MAX,
        ensures
            load_valid(final(self)@),
            final(self)@ == load_open_failed(old(self)@, now as nat),
            final(self).phase() == old(self).phase(),
    {
        self.sent = self.sent + 1;
        self.completed = self.completed + 1;
        self.errors = self.errors + 1;
        self.last_progress = now;
    }

    /// A request is over.
    pub fn on_completion(&mut self, c: RawClientCompletion, now: u128)
        requires
            load_valid(old(self)@),
            old(self)@.completed < usize::MAX,
        ensures
            load_valid(final(self)@),
            final(self)@ == load_completed(old(self)@, c, now as nat),
            final(self).phase() == old(self).phase(),
    {
        self.completed = self.completed + 1;
        self.latencies.push(c.latency);
        self.last_progress = now;
        match c.outcome {
            RawClientOutcome::Success => {
                self.successes = self.successes + 1;
            },
            RawClientOutcome::AppRejected => {
                self.rejected = self.rejected + 1;
                self.rejection_latencies.push(c.latency);
            },
            RawClientOutcome::Reset => {
                self.reset_streams = self.reset_streams + 1;
                self.rejection_latencies.push(c.latency);
            },
            RawClientOutcome::Error => {
                self.errors = self.errors + 1;
            },
        }
    }

    /// Whether no more requests are over than there are.
    pub fn can_give_up(&self) -> (r: bool)
        ensures
            r == (self@.completed <= self@.total),
    {
        self.completed <= self.total
    }

    /// Gives the run up: every request that is not over is an error.
    pub fn give_up(self) -> (r: LoadCounts)
        requires
            load_valid(self@),
            self@.completed <= self@.total,
        ensures
            load_counts(r, self@, (self@.total - self@.completed) as nat),
    {
        let missing: usize = self.total - self.completed;
        LoadCounts {
            completed: self.completed,
            successes: self.successes,
            rejected: self.rejected,
            reset_streams: self.reset_streams,
            errors: self.errors + missing,
            latencies: self.latencies,
            rejection_latencies: self.rejection_latencies,
        }
    }

    /// Ends the run.
    pub fn finish(self) -> (r: LoadCounts)
        ensures
            load_counts(r, self@, 0),
    {
        LoadCounts {
            completed: self.completed,
            successes: self.successes,
            rejected: self.rejected,
            reset_streams: self.reset_streams,
            errors: self.errors,
            latencies: self.latencies,
            rejection_latencies: self.rejection_latencies,
        }
    }
}

/// The loop opens only what may be opened, gives up only when nothing has gone on for
/// too long, and stops only when every request is over or nothing can happen any
/// more.
pub proof fn law_load_step(m: LoadModel, phase: LoadPhase, now: nat, inflight: nat)
    ensures
        match load_step(m, phase, now, inflight).1 {
            LoadStep::Open => load_may_open(m, inflight),
            LoadStep::Drive => !load_may_open(m, inflight) || phase == LoadPhase::Blocked,
            LoadStep::Stop => m.completed >= m.total || phase == LoadPhase::Drained,
            LoadStep::GiveUp => load_stalled(m, now),
        },
{
}

/// Every step keeps a run's counts in agreement.
pub proof fn law_load_steps_keep_valid(m: LoadModel, c: RawClientCompletion, now: nat)
    requires
        load_valid(m),
    ensures
        m.sent < m.total ==> load_valid(load_opened(m, now)),
        m.sent < m.total ==> load_valid(load_open_failed(m, now)),
        load_valid(load_completed(m, c, now)),
{
}

/// A run that is given up accounts for all its requests.
pub proof fn law_load_given_up(m: LoadModel, counts: LoadCounts)
    requires
        load_valid(m),
        m.completed <= m.total,
        load_counts(counts, m, (m.total - m.completed) as nat),
    ensures
        counts.successes + counts.rejected + counts.reset_streams + counts.errors == m.total,
{
}

/// Whether the table of a client is in order: it is finite, and every stream in it
/// comes before the one that is opened next.
pub open spec fn client_valid<B>(c: ClientModel<B>) -> bool {
    &&& c.pending.dom().finite()
    &&& forall|id: u64| #[trigger] c.pending.contains_key(id) ==> id < c.next_stream
}

/// Whether a run and the table of its client agree: every request that was sent is
/// over, or over and not counted yet, or unanswered.
pub open spec fn load_accounts<B>(m: LoadModel, c: ClientModel<B>, uncounted: nat) -> bool {
    &&& load_valid(m)
    &&& client_valid(c)
    &&& m.completed + uncounted + c.pending.len() == m.sent
}

/// A run and its client begin in agreement.
pub proof fn law_start_accounts<B>(total: nat, concurrency: nat, now: nat)
    ensures
        load_accounts(
            load_started(total, concurrency, now),
            ClientModel::<B> { next_stream: 0, pending: Map::empty() },
            0,
        ),
{
}

/// Whatever comes of a stream, the run and the table agree: a request that leaves the
/// table is one that is over and not counted yet.
pub proof fn law_table_steps_keep_accounts<B>(
    m: LoadModel,
    c: ClientModel<B>,
    uncounted: nat,
    stream: u64,
    bytes: Seq<u8>,
    fin: bool,
    result: SendResult,
)
    requires
        load_accounts(m, c, uncounted),
    ensures
        load_accounts(
            m,
            client_received(c, stream, bytes, fin),
            uncounted + if fin && c.pending.contains_key(stream) {
                1nat
            } else {
                0nat
            },
        ),
        load_accounts(
            m,
            client_reset(c, stream),
            uncounted + if c.pending.contains_key(stream) {
                1nat
            } else {
                0nat
            },
        ),
        c.pending.contains_key(stream) ==> load_accounts(
            m,
            client_flushed(c, stream, result),
            uncounted + if result == SendResult::Failed {
                1nat
            } else {
                0nat
            },
        ),
{
    let gone = c.pending.remove(stream);
    assert(gone.dom() =~= c.pending.dom().remove(stream));
    assert forall|id: u64| #[trigger] gone.contains_key(id) implies id < c.next_stream by {
        assert(c.pending.contains_key(id));
    }
    let received = client_received(c, stream, bytes, fin);
    assert(received.pending.dom() =~= if fin && c.pending.contains_key(stream) {
        gone.dom()
    } else {
        c.pending.dom()
    });
    if c.pending.contains_key(stream) {
        let flushed = client_flushed(c, stream, result);
        assert(flushed.pending.dom() =~= if result == SendResult::Failed {
            gone.dom()
        } else {
            c.pending.dom()
        });
        assert forall|id: u64| #[trigger] flushed.pending.contains_key(id) implies id
            < c.next_stream by {
            assert(c.pending.contains_key(id));
        }
    }
    assert forall|id: u64| #[trigger] received.pending.contains_key(id) implies id
        < c.next_stream by {
        assert(c.pending.contains_key(id));
    }
}

/// Whatever a run does, it and the table agree, and never are more requests over than
/// there are: a request that is opened enters the table, one that cannot be opened
/// does not, and one that is counted was over.
pub proof fn law_load_steps_keep_accounts<B>(
    m: LoadModel,
    c: ClientModel<B>,
    uncounted: nat,
    payload: B,
    len: nat,
    written: nat,
    started: u128,
    completion: RawClientCompletion,
    now: nat,
)
    requires
        load_accounts(m, c, uncounted),
    ensures
        m.completed <= m.sent <= m.total,
        m.sent < m.total && c.next_stream + STREAM_STEP <= u64::MAX ==> load_accounts(
            load_opened(m, now),
            client_opened(c, payload, len, written, started),
            uncounted,
        ),
        m.sent < m.total ==> load_accounts(load_open_failed(m, now), c, uncounted),
        uncounted > 0 ==> load_accounts(
            load_completed(m, completion, now),
            c,
            (uncounted - 1) as nat,
        ),
{
    if c.next_stream + STREAM_STEP <= u64::MAX {
        let opened = client_opened(c, payload, len, written, started);
        assert(opened.pending.dom() =~= c.pending.dom().insert(c.next_stream as u64));
        assert(!c.pending.contains_key(c.next_stream as u64));
        assert forall|id: u64| #[trigger] opened.pending.contains_key(id) implies id
            < opened.next_stream by {
            if id != c.next_stream {
                assert(c.pending.contains_key(id));
            }
        }
    }
}

/// A run that stops accounts for all its requests: each is a success, turned away,
/// reset or an error, and none is left unanswered.
pub proof fn law_load_stopped<B>(
    m: LoadModel,
    c: ClientModel<B>,
    phase: LoadPhase,
    now: nat,
    counts: LoadCounts,
)
    requires
        load_accounts(m, c, 0),
        phase == LoadPhase::Drained ==> load_drained(m, true, c.pending.len()),
        load_step(m, phase, now, c.pending.len()).1 == LoadStep::Stop,
        load_counts(counts, m, 0),
    ensures
        counts.successes + counts.rejected + counts.reset_streams + counts.errors == m.total,
        counts.completed == m.total,
        c.pending.len() == 0,
{
}

// ---------------------------------------------------------------------------
// What a response, a request and a whole run come to
// ---------------------------------------------------------------------------

/// The first three bytes of a response decide, whatever follows them: `200` alone is a
/// success, `503` and `429` alone turn away, and anything else, or less, is an error. No
/// response is a reset.
pub proof fn law_outcome_by_status(response: Seq<u8>, more: Seq<u8>)
    ensures
        outcome_of(response) == RawClientOutcome::Success <==> response.len() >= 3
            && response.take(3) == seq!['2' as u8, '0' as u8, '0' as u8],
        outcome_of(response) == RawClientOutcome::AppRejected <==> response.len() >= 3 && (
        response.take(3) == seq!['5' as u8, '0' as u8, '3' as u8] || response.take(3) == seq![
            '4' as u8,
            '2' as u8,
            '9' as u8,
        ]),
        outcome_of(response) != RawClientOutcome::Reset,
        response.len() >= 3 ==> outcome_of(response + more) == outcome_of(response),
{
    let a = seq!['2' as u8, '0' as u8, '0' as u8];
    let b = seq!['5' as u8, '0' as u8, '3' as u8];
    let c = seq!['4' as u8, '2' as u8, '9' as u8];
    if response.len() >= 3 {
        let t = response.take(3);
        assert(t[0] == response[0] && t[1] == response[1] && t[2] == response[2]);
        if starts_with(response, 50, 48, 48) {
            assert(t =~= a);
        }
        if starts_with(response, 53, 48, 51) {
            assert(t =~= b);
        }
        if starts_with(response, 52, 50, 57) {
            assert(t =~= c);
        }
    }
}

/// A request is handed to its stream in parts of 4096 bytes, but for what is left at its
/// end; one of which nothing is left is handed on no more.
pub proof fn law_chunks_are_full(written: nat, len: nat)
    requires
        len <= usize::MAX,
    ensures
        next_chunk(written, len) is None <==> written >= len,
        next_chunk(written, len) matches Some(chunk) ==> {
            &&& chunk.from == written
            &&& chunk.fin <==> chunk.to == len
            &&& chunk.to - chunk.from == 4096 || chunk.to - chunk.from < 4096 && chunk.fin
        },
{
}

/// What happens to the requests of a client.
pub enum ClientEvent<B> {
    /// A request was opened: its payload, its length, what was taken of it, and when.
    Opened(B, nat, nat, u128),
    /// Another part of a request was, or was not, taken.
    Flushed(u64, SendResult),
    /// Bytes of an answer came, and perhaps its end.
    Received(u64, Seq<u8>, bool),
    /// The peer reset a stream.
    Reset(u64),
}

/// The requests of a client after something happened.
pub open spec fn client_after<B>(m: ClientModel<B>, e: ClientEvent<B>) -> ClientModel<B> {
    match e {
        ClientEvent::Opened(payload, len, written, now) => client_opened(
            m,
            payload,
            len,
            written,
            now,
        ),
        ClientEvent::Flushed(stream, result) => client_flushed(m, stream, result),
        ClientEvent::Received(stream, bytes, fin) => client_received(m, stream, bytes, fin),
        ClientEvent::Reset(stream) => client_reset(m, stream),
    }
}

/// Whether something can happen to the requests of a client, and fits in the machine.
pub open spec fn client_may<B>(m: ClientModel<B>, e: ClientEvent<B>) -> bool {
    match e {
        ClientEvent::Opened(_, _, _, _) => m.next_stream + 4 <= u64::MAX,
        ClientEvent::Flushed(stream, result) => m.pending.contains_key(stream) && (
        result matches SendResult::Took(n) ==> m.pending[stream].written + n <= usize::MAX),
        ClientEvent::Received(_, _, _) => true,
        ClientEvent::Reset(_) => true,
    }
}

/// The requests of a client after all that happened, in its order.
pub open spec fn client_run<B>(m: ClientModel<B>, events: Seq<ClientEvent<B>>) -> ClientModel<B>
    decreases events.len(),
{
    if events.len() == 0 {
        m
    } else {
        client_after(client_run(m, events.drop_last()), events.last())
    }
}

/// Whether all that happened could happen when it did.
pub open spec fn client_may_run<B>(m: ClientModel<B>, events: Seq<ClientEvent<B>>) -> bool
    decreases events.len(),
{
    events.len() > 0 ==> client_may_run(m, events.drop_last()) && client_may(
        client_run(m, events.drop_last()),
        events.last(),
    )
}

/// How many bytes a stream took of its request.
pub open spec fn bytes_taken<B>(events: Seq<ClientEvent<B>>, stream: u64) -> int {
    events.fold_left(
        0int,
        |total: int, e: ClientEvent<B>|
            match e {
                ClientEvent::Flushed(id, SendResult::Took(n)) if id == stream => total + n,
                _ => total,
            },
    )
}

/// The bytes of the answer that came on a stream, in their order.
pub open spec fn answer_bytes<B>(events: Seq<ClientEvent<B>>, stream: u64) -> Seq<u8> {
    events.fold_left(
        Seq::<u8>::empty(),
        |all: Seq<u8>, e: ClientEvent<B>|
            match e {
                ClientEvent::Received(id, bytes, _) if id == stream => all + bytes,
                _ => all,
            },
    )
}

/// Whether something ends the request of a stream.
pub open spec fn ends_request<B>(e: ClientEvent<B>, stream: u64) -> bool {
    match e {
        ClientEvent::Flushed(id, result) => id == stream && result == SendResult::Failed,
        ClientEvent::Received(id, _, fin) => id == stream && fin,
        ClientEvent::Reset(id) => id == stream,
        ClientEvent::Opened(_, _, _, _) => false,
    }
}

/// No byte of a request or of its answer is lost: as long as nothing ends it, as much of it
/// is written as its stream took, the answer is all that came on its stream, in its order,
/// it started when it was opened, and it is handed on no more exactly when the peer said
/// that it does not read it. What happens to other requests does not matter.
pub proof fn law_request_adds_up<B>(
    m: ClientModel<B>,
    events: Seq<ClientEvent<B>>,
    stream: u64,
)
    requires
        client_valid(m),
        m.pending.contains_key(stream),
        client_may_run(m, events),
        forall|i: int| 0 <= i < events.len() ==> !ends_request(#[trigger] events[i], stream),
    ensures
        ({
            let r = client_run(m, events);
            let was = m.pending[stream];
            let now = r.pending[stream];
            &&& r.pending.contains_key(stream)
            &&& now.written == was.written + bytes_taken(events, stream)
            &&& now.response == was.response + answer_bytes(events, stream)
            &&& now.started == was.started && now.payload == was.payload && now.len == was.len
            &&& now.stopped_sending <==> was.stopped_sending || exists|i: int|
                0 <= i < events.len() && #[trigger] events[i] == ClientEvent::<B>::Flushed(
                    stream,
                    SendResult::Stopped,
                )
            &&& r.next_stream == m.next_stream + 4 * events.filter(
                |e: ClientEvent<B>| e is Opened,
            ).len()
        }),
    decreases events.len(),
{
    reveal(Seq::filter);
    reveal_with_fuel(Seq::fold_left, 2);
    let r = client_run(m, events);
    let was = m.pending[stream];
    if events.len() == 0 {
        assert(r.pending[stream].response =~= was.response + answer_bytes(events, stream));
    } else {
        let rest = events.drop_last();
        let e = events[events.len() - 1];
        assert forall|i: int| 0 <= i < rest.len() implies !ends_request(
            #[trigger] rest[i],
            stream,
        ) by {
            assert(rest[i] == events[i]);
        }
        law_request_adds_up(m, rest, stream);
        let before = client_run(m, rest);
        assert(stream < m.next_stream);
        let halted = ClientEvent::<B>::Flushed(stream, SendResult::Stopped);
        if exists|i: int| 0 <= i < rest.len() && #[trigger] rest[i] == halted {
            let i = choose|i: int| 0 <= i < rest.len() && #[trigger] rest[i] == halted;
            assert(events[i] == halted);
        }
        if exists|i: int| 0 <= i < events.len() && #[trigger] events[i] == halted {
            let i = choose|i: int| 0 <= i < events.len() && #[trigger] events[i] == halted;
            if i < rest.len() {
                assert(rest[i] == halted);
            }
        }
        assert(!ends_request(e, stream));
        assert(r.pending[stream].response =~= was.response + answer_bytes(events, stream));
        match e {
            ClientEvent::Flushed(id, result) => {
                if id == stream {
                    match result {
                        SendResult::Took(n) => {},
                        SendResult::Blocked => {},
                        SendResult::Stopped => {},
                        SendResult::Failed => {},
                    }
                }
            },
            _ => {},
        }
    }
}

/// A request that is opened starts now, on the stream that was to be opened next, with what
/// was taken of it and no answer yet. What happens on a stream changes nothing of another
/// request, and what ends a request takes it, and it alone, out of the table.
pub proof fn law_requests_are_apart<B>(m: ClientModel<B>, e: ClientEvent<B>, other: u64)
    requires
        client_may(m, e),
    ensures
        ({
            let r = client_after(m, e);
            &&& e matches ClientEvent::Opened(payload, len, written, now) ==> {
                let id = m.next_stream as u64;
                &&& r.pending.contains_key(id)
                &&& r.pending[id].started == now && r.pending[id].payload == payload
                &&& r.pending[id].len == len && r.pending[id].written == written
                &&& r.pending[id].response.len() == 0 && !r.pending[id].stopped_sending
                &&& other != m.next_stream ==> (r.pending.contains_key(other)
                    <==> m.pending.contains_key(other))
            }
            &&& !(e is Opened) ==> (r.pending.contains_key(other) <==> m.pending.contains_key(
                other,
            ) && !ends_request(e, other))
            &&& r.pending.contains_key(other) && !(e is Opened && other == m.next_stream)
                && match e {
                ClientEvent::Flushed(id, _) => id != other,
                ClientEvent::Received(id, _, _) => id != other,
                _ => true,
            } ==> r.pending[other] == m.pending[other]
        }),
{
}

/// A request that is over took from when it was opened until now, and comes to what is said
/// of it; a stream without a request completes nothing.
pub proof fn law_completion<B>(
    m: ClientModel<B>,
    stream: u64,
    outcome: RawClientOutcome,
    now: u128,
)
    ensures
        client_completion(m, stream, outcome, now) is Some <==> m.pending.contains_key(stream),
        client_completion(m, stream, outcome, now) matches Some(c) ==> {
            &&& c.outcome == outcome
            &&& now >= m.pending[stream].started ==> m.pending[stream].started + c.latency == now
            &&& now < m.pending[stream].started ==> c.latency == 0
        },
{
}

/// What happens in a run.
pub enum LoadEvent {
    /// A request was opened at this time.
    Opened(nat),
    /// A request could not be opened at this time.
    OpenFailed(nat),
    /// A request was over, and counted at this time.
    Completed(RawClientCompletion, nat),
}

/// A run after something happened.
pub open spec fn load_after(m: LoadModel, e: LoadEvent) -> LoadModel {
    match e {
        LoadEvent::Opened(now) => load_opened(m, now),
        LoadEvent::OpenFailed(now) => load_open_failed(m, now),
        LoadEvent::Completed(c, now) => load_completed(m, c, now),
    }
}

/// A run after all that happened, in its order.
pub open spec fn load_run(m: LoadModel, events: Seq<LoadEvent>) -> LoadModel {
    events.fold_left(m, |m: LoadModel, e: LoadEvent| load_after(m, e))
}

/// What was over, in the order in which it was counted.
pub open spec fn completions(events: Seq<LoadEvent>) -> Seq<RawClientCompletion> {
    events.filter(|e: LoadEvent| e is Completed).map_values(|e: LoadEvent| e->Completed_0)
}

/// How many of the requests came to this.
pub open spec fn outcome_count(all: Seq<RawClientCompletion>, outcome: RawClientOutcome) -> nat {
    all.filter(|c: RawClientCompletion| c.outcome == outcome).len()
}

/// The latencies of what was over.
pub open spec fn latencies_of(all: Seq<RawClientCompletion>) -> Seq<u128> {
    all.map_values(|c: RawClientCompletion| c.latency)
}

/// What was turned away, by a response or by a reset.
pub open spec fn turned_away_among(all: Seq<RawClientCompletion>) -> Seq<RawClientCompletion> {
    all.filter(
        |c: RawClientCompletion|
            c.outcome == RawClientOutcome::AppRejected || c.outcome == RawClientOutcome::Reset,
    )
}

/// Whatever happens in a run, it has the latency of everything that was over, as it was
/// measured and in the order in which it was counted, and once more of everything that was
/// turned away; it counts each by what it came to, and a request that could not be opened
/// as an error without a latency.
pub proof fn law_load_adds_up(m: LoadModel, events: Seq<LoadEvent>)
    ensures
        ({
            let r = load_run(m, events);
            let all = completions(events);
            let unopened = events.filter(|e: LoadEvent| e is OpenFailed).len();
            &&& r.latencies == m.latencies + latencies_of(all)
            &&& r.rejection_latencies == m.rejection_latencies + latencies_of(
                turned_away_among(all),
            )
            &&& r.sent == m.sent + events.filter(|e: LoadEvent| !(e is Completed)).len()
            &&& r.completed == m.completed + all.len() + unopened
            &&& r.successes == m.successes + outcome_count(all, RawClientOutcome::Success)
            &&& r.rejected == m.rejected + outcome_count(all, RawClientOutcome::AppRejected)
            &&& r.reset_streams == m.reset_streams + outcome_count(all, RawClientOutcome::Reset)
            &&& r.errors == m.errors + outcome_count(all, RawClientOutcome::Error) + unopened
            &&& r.total == m.total && r.concurrency == m.concurrency
            &&& r.last_progress == if events.len() == 0 {
                m.last_progress
            } else {
                match events.last() {
                    LoadEvent::Opened(now) => now,
                    LoadEvent::OpenFailed(now) => now,
                    LoadEvent::Completed(_, now) => now,
                }
            }
        }),
    decreases events.len(),
{
    reveal(Seq::filter);
    reveal_with_fuel(Seq::fold_left, 2);
    let r = load_run(m, events);
    let all = completions(events);
    if events.len() == 0 {
        assert(all =~= Seq::<RawClientCompletion>::empty());
        assert(r.latencies =~= m.latencies + latencies_of(all));
        assert(r.rejection_latencies =~= m.rejection_latencies + latencies_of(
            turned_away_among(all),
        ));
    } else {
        let rest = events.drop_last();
        let e = events.last();
        law_load_adds_up(m, rest);
        assert(r == load_after(load_run(m, rest), e));
        let before = completions(rest);
        let p = |e: LoadEvent| e is Completed;
        let q = |c: RawClientCompletion|
            c.outcome == RawClientOutcome::AppRejected || c.outcome == RawClientOutcome::Reset;
        if e is Completed {
            let c = e->Completed_0;
            assert(events.filter(p) =~= rest.filter(p).push(e));
            assert(all =~= before.push(c));
            assert(all.drop_last() =~= before);
            assert(latencies_of(all) =~= latencies_of(before).push(c.latency));
            if q(c) {
                assert(turned_away_among(all) =~= turned_away_among(before).push(c));
                assert(latencies_of(turned_away_among(all)) =~= latencies_of(
                    turned_away_among(before),
                ).push(c.latency));
            } else {
                assert(turned_away_among(all) =~= turned_away_among(before));
            }
        } else {
            assert(events.filter(p) =~= rest.filter(p));
        }
        assert(r.latencies =~= m.latencies + latencies_of(all));
        assert(r.rejection_latencies =~= m.rejection_latencies + latencies_of(
            turned_away_among(all),
        ));
    }
}

/// What a run comes to from its beginning, with so many requests given up: the counts are
/// those of what happened, and each request that was given up is one more error.
pub proof fn law_run_counts(
    total: nat,
    concurrency: nat,
    now: nat,
    events: Seq<LoadEvent>,
    missing: nat,
    counts: LoadCounts,
)
    requires
        load_counts(counts, load_run(load_started(total, concurrency, now), events), missing),
    ensures
        ({
            let all = completions(events);
            let unopened = events.filter(|e: LoadEvent| e is OpenFailed).len();
            &&& counts.latencies@ == latencies_of(all)
            &&& counts.rejection_latencies@ == latencies_of(turned_away_among(all))
            &&& counts.completed == all.len() + unopened
            &&& counts.successes == outcome_count(all, RawClientOutcome::Success)
            &&& counts.rejected == outcome_count(all, RawClientOutcome::AppRejected)
            &&& counts.reset_streams == outcome_count(all, RawClientOutcome::Reset)
            &&& counts.errors == outcome_count(all, RawClientOutcome::Error) + unopened + missing
        }),
{
    let m = load_started(total, concurrency, now);
    law_load_adds_up(m, events);
    let all = completions(events);
    assert(m.latencies + latencies_of(all) =~= latencies_of(all));
    assert(m.rejection_latencies + latencies_of(turned_away_among(all)) =~= latencies_of(
        turned_away_among(all),
    ));
}

/// When a loop opens, waits, stops and gives up. It opens whenever a request is left and
/// fewer are unanswered than may be; it gives up after half a minute without progress,
/// which it looks for once answers were waited for; it stops when as many are over as there
/// are, or when nothing can happen any more: nothing did, nothing is unanswered, and all
/// was sent.
pub proof fn law_load_step_when(
    m: LoadModel,
    phase: LoadPhase,
    now: nat,
    inflight: nat,
    nothing_happened: bool,
)
    ensures
        ({
            let (after, step) = load_step(m, phase, now, inflight);
            let room = m.sent < m.total && inflight < m.concurrency;
            let lost = phase == LoadPhase::Driven && now - m.last_progress > 30_000_000_000;
            let round = phase == LoadPhase::RoundStart || phase == LoadPhase::Driven;
            let over = round && m.completed >= m.total || phase == LoadPhase::Drained;
            &&& step is GiveUp <==> lost
            &&& step is Stop <==> over && !lost
            &&& step is Open <==> room && phase != LoadPhase::Blocked && !over && !lost
            &&& step is Open ==> after == LoadPhase::Opening
            &&& step is Drive ==> after == LoadPhase::Driven
        }),
        load_drained(m, nothing_happened, inflight) <==> nothing_happened && inflight == 0
            && m.sent >= m.total,
{
}

/// A run begins as it was planned, with nothing counted.
pub proof fn law_run_begins(total: nat, concurrency: nat, now: nat)
    ensures
        ({
            let m = load_started(total, concurrency, now);
            &&& m.total == total && m.concurrency == concurrency && m.last_progress == now
            &&& m.sent == 0 && m.completed == 0 && m.successes == 0 && m.rejected == 0
            &&& m.reset_streams == 0 && m.errors == 0
            &&& m.latencies.len() == 0 && m.rejection_latencies.len() == 0
        }),
{
}

/// How far a request has been written: as much further as its stream took, if it took anything;
/// a stream that took nothing is blocked, one that the peer does not read is a reset, and a
/// failure is no progress at all.
pub proof fn law_write_progress(written: nat, n: usize)
    requires
        written + n <= usize::MAX,
    ensures
        n > 0 ==> (write_progress(written, SendResult::Took(n)) matches Some(
            RawWriteProgress::Written(further),
        ) && further == written + n),
        n == 0 ==> write_progress(written, SendResult::Took(n)) == Some(RawWriteProgress::Blocked),
        write_progress(written, SendResult::Blocked) == Some(RawWriteProgress::Blocked),
        write_progress(written, SendResult::Stopped) == Some(RawWriteProgress::Reset),
        write_progress(written, SendResult::Failed) is None,
{
}

} // verus!
