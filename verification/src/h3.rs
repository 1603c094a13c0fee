//! HTTP/3 over QUIC: what a client keeps of its requests, and a server of its
//! responses. Times are nanoseconds on one clock.
use crate::number::{
    count_text, decimal, law_only_digits_read, law_read_undoes_print, read_u16, unsigned_number,
};
use crate::streams::stream_ids;
use std::collections::{HashMap, HashSet};
use vstd::prelude::*;
use vstd::string::*;

verus! {

// ---------------------------------------------------------------------------
// Requests
// ---------------------------------------------------------------------------

/// A header's name and value.
pub type Header = (String, String);

/// The headers of a request with a body of `length` bytes.
pub open spec fn request_headers_of(authority: Seq<char>, path: Seq<char>, length: nat) -> Seq<
    (Seq<char>, Seq<char>),
> {
    seq![
        (":method"@, "POST"@),
        (":scheme"@, "https"@),
        (":authority"@, authority),
        (":path"@, path),
        ("content-type"@, "application/json"@),
        ("content-length"@, decimal(length)),
    ]
}

fn header(name: &str, value: &str) -> (r: Header)
    ensures
        r.0@ == name@,
        r.1@ == value@,
{
    (name.to_owned(), value.to_owned())
}

/// The headers of a request with a body of `length` bytes.
pub fn request_headers(authority: &str, path: &str, length: usize) -> (r: Vec<Header>)
    ensures
        r@.len() == request_headers_of(authority@, path@, length as nat).len(),
        forall|i: int|
            0 <= i < r@.len() ==> ((#[trigger] r@[i]).0@, r@[i].1@) == request_headers_of(
                authority@,
                path@,
                length as nat,
            )[i],
{
    let digits = count_text(length);
    vec![
        header(":method", "POST"),
        header(":scheme", "https"),
        header(":authority", authority),
        header(":path", path),
        header("content-type", "application/json"),
        header("content-length", digits.as_str()),
    ]
}

/// Whether a status reports success.
pub open spec fn success(status: u16) -> bool {
    200 <= status < 300
}

/// Whether a status reports success.
pub fn is_success(status: u16) -> (r: bool)
    ensures
        r == success(status),
{
    200 <= status && status < 300
}

/// The characters that bytes below 128 stand for.
pub open spec fn ascii(bytes: Seq<u8>) -> Seq<char> {
    bytes.map_values(|b: u8| b as char)
}

/// Whether all bytes are below 128.
pub open spec fn all_ascii(bytes: Seq<u8>) -> bool {
    forall|i: int| 0 <= i < bytes.len() ==> #[trigger] bytes[i] < 128
}

/// The name of the header that holds the status.
pub open spec fn status_name() -> Seq<u8> {
    seq![58u8, 115, 116, 97, 116, 117, 115]
}

/// The position of the first header that holds a status.
pub open spec fn status_position(headers: Seq<(Vec<u8>, Vec<u8>)>) -> int
    decreases headers.len(),
{
    if headers.len() == 0 || headers[0].0@ == status_name() {
        0
    } else {
        1 + status_position(headers.drop_first())
    }
}

/// The number that the bytes of a status spell.
pub open spec fn status_number(value: Seq<u8>) -> Option<nat> {
    if all_ascii(value) {
        unsigned_number(ascii(value), u16::MAX as nat)
    } else {
        None
    }
}

/// The status of a response, if its first status header holds a number.
pub open spec fn status_in(headers: Seq<(Vec<u8>, Vec<u8>)>) -> Option<nat> {
    let at = status_position(headers);
    if 0 <= at < headers.len() {
        status_number(headers[at].1@)
    } else {
        None
    }
}

fn is_status_name(name: &Vec<u8>) -> (r: bool)
    ensures
        r == (name@ == status_name()),
{
    let wanted: Vec<u8> = vec![58, 115, 116, 97, 116, 117, 115];
    assert(wanted@ =~= status_name());
    if name.len() != wanted.len() {
        return false;
    }
    let mut i: usize = 0;
    while i < wanted.len()
        invariant
            i <= wanted@.len(),
            wanted@ == status_name(),
            name@.len() == wanted@.len(),
            forall|k: int| 0 <= k < i ==> name@[k] == wanted@[k],
        decreases wanted@.len() - i,
    {
        if name[i] != wanted[i] {
            return false;
        }
        i = i + 1;
    }
    assert(name@ =~= wanted@);
    true
}

fn read_status(value: &Vec<u8>) -> (r: Option<u16>)
    ensures
        match r {
            Some(n) => status_number(value@) == Some(n as nat),
            None => status_number(value@) is None,
        },
{
    let mut text = String::new();
    let mut i: usize = 0;
    while i < value.len()
        invariant
            i <= value@.len(),
            forall|k: int| 0 <= k < i ==> #[trigger] value@[k] < 128,
            text@ == ascii(value@.take(i as int)),
        decreases value@.len() - i,
    {
        if value[i] >= 128 {
            return None;
        }
        text.push(value[i] as char);
        i = i + 1;
        assert(text@ =~= ascii(value@.take(i as int)));
    }
    assert(value@.take(i as int) =~= value@);
    read_u16(text.as_str())
}

/// The status of a response.
pub fn status_from_headers(headers: &Vec<(Vec<u8>, Vec<u8>)>) -> (r: Option<u16>)
    ensures
        match r {
            Some(n) => status_in(headers@) == Some(n as nat),
            None => status_in(headers@) is None,
        },
{
    let mut i: usize = 0;
    assert(headers@.skip(0) =~= headers@);
    while i < headers.len()
        invariant
            i <= headers@.len(),
            status_position(headers@) == i + status_position(headers@.skip(i as int)),
        decreases headers@.len() - i,
    {
        if is_status_name(&headers[i].0) {
            return read_status(&headers[i].1);
        }
        assert(headers@.skip(i as int).drop_first() =~= headers@.skip(i + 1));
        i = i + 1;
    }
    None
}

// ---------------------------------------------------------------------------
// The client
// ---------------------------------------------------------------------------

/// A body that has not been wholly sent.
#[derive(Debug, Clone)]
pub struct PendingBody<B> {
    pub data: B,
    /// The length of the body.
    pub len: usize,
    /// How much of it has been sent.
    pub written: usize,
}

/// What a client keeps of its requests, as values.
#[verifier::ext_equal]
pub struct H3Model<B> {
    /// When each unanswered request was sent.
    pub starts: Map<u64, u128>,
    /// For which user.
    pub users: Map<u64, usize>,
    /// The status of the response, once it is known.
    pub statuses: Map<u64, u16>,
    pub bodies: Map<u64, PendingBody<B>>,
}

/// Nothing sent yet.
pub open spec fn h3_idle<B>() -> H3Model<B> {
    H3Model {
        starts: Map::empty(),
        users: Map::empty(),
        statuses: Map::empty(),
        bodies: Map::empty(),
    }
}

/// A request was opened on a stream.
pub open spec fn h3_opened<B>(m: H3Model<B>, stream: u64, user: usize, now: u128) -> H3Model<B> {
    H3Model { starts: m.starts.insert(stream, now), users: m.users.insert(stream, user), ..m }
}

/// A body was handed to a stream, which took `written` bytes of it.
pub open spec fn h3_body_sent<B>(
    m: H3Model<B>,
    stream: u64,
    data: B,
    len: usize,
    written: usize,
    blocked: bool,
) -> H3Model<B> {
    if blocked || written != len {
        H3Model { bodies: m.bodies.insert(stream, PendingBody { data, len, written }), ..m }
    } else {
        m
    }
}

/// A stream took `written` more bytes of its body.
pub open spec fn h3_body_progress<B>(m: H3Model<B>, stream: u64, written: usize) -> H3Model<B> {
    let body = m.bodies[stream];
    H3Model {
        bodies: m.bodies.insert(
            stream,
            PendingBody { written: (body.written + written) as usize, ..body },
        ),
        ..m
    }
}

/// A body is forgotten once it has been wholly sent.
pub open spec fn h3_body_settled<B>(m: H3Model<B>, stream: u64) -> H3Model<B> {
    if m.bodies.contains_key(stream) && m.bodies[stream].written == m.bodies[stream].len {
        H3Model { bodies: m.bodies.remove(stream), ..m }
    } else {
        m
    }
}

/// A response's headers came; a status that cannot be read counts as zero.
pub open spec fn h3_status_known<B>(m: H3Model<B>, stream: u64, status: Option<u16>) -> H3Model<B> {
    H3Model {
        statuses: m.statuses.insert(
            stream,
            match status {
                Some(n) => n,
                None => 0,
            },
        ),
        ..m
    }
}

/// An answered request.
#[derive(Debug, Clone, Copy, PartialEq, Eq, Structural)]
pub struct H3Completion {
    pub user: usize,
    pub latency: u128,
    pub ok: bool,
}

/// The time from `start` to `now`.
pub open spec fn elapsed(start: u128, now: u128) -> u128 {
    if now >= start {
        (now - start) as u128
    } else {
        0
    }
}

/// What the end of a stream completes: its request, if it has one.
pub open spec fn h3_completion<B>(m: H3Model<B>, stream: u64, now: u128) -> Option<H3Completion> {
    if m.starts.contains_key(stream) {
        Some(
            H3Completion {
                user: if m.users.contains_key(stream) {
                    m.users[stream]
                } else {
                    usize::MAX
                },
                latency: elapsed(m.starts[stream], now),
                ok: m.statuses.contains_key(stream) && success(m.statuses[stream]),
            },
        )
    } else {
        None
    }
}

/// A stream ended: all that was kept of its request is forgotten.
pub open spec fn h3_finished<B>(m: H3Model<B>, stream: u64) -> H3Model<B> {
    if m.starts.contains_key(stream) {
        H3Model {
            starts: m.starts.remove(stream),
            users: m.users.remove(stream),
            statuses: m.statuses.remove(stream),
            bodies: m.bodies.remove(stream),
        }
    } else {
        m
    }
}

/// What a client keeps of its requests.
#[derive(Debug)]
pub struct H3Requests<B> {
    starts: HashMap<u64, u128>,
    users: HashMap<u64, usize>,
    statuses: HashMap<u64, u16>,
    bodies: HashMap<u64, PendingBody<B>>,
}

impl<B> View for H3Requests<B> {
    type V = H3Model<B>;

    closed spec fn view(&self) -> H3Model<B> {
        H3Model {
            starts: self.starts@,
            users: self.users@,
            statuses: self.statuses@,
            bodies: self.bodies@,
        }
    }
}

/// Whether nothing has been sent beyond the end of a body.
pub open spec fn h3_valid<B>(m: H3Model<B>) -> bool {
    forall|stream: u64| #[trigger]
        m.bodies.contains_key(stream) ==> m.bodies[stream].written <= m.bodies[stream].len
}

proof fn lemma_h3_valid<B>(m: H3Model<B>, next: H3Model<B>, stream: u64)
    requires
        h3_valid(m),
        next.bodies == m.bodies || next.bodies == m.bodies.remove(stream) || exists|
            body: PendingBody<B>,
        |
            next.bodies == #[trigger] m.bodies.insert(stream, body) && body.written <= body.len,
    ensures
        h3_valid(next),
{
    assert forall|s: u64| #[trigger] next.bodies.contains_key(s) implies next.bodies[s].written
        <= next.bodies[s].len by {
        if s != stream {
            assert(m.bodies.contains_key(s));
        } else if next.bodies == m.bodies {
            assert(m.bodies.contains_key(s));
        }
    }
}

impl<B> H3Requests<B> {
    /// Nothing sent yet.
    pub fn start() -> (r: H3Requests<B>)
        ensures
            r@ == h3_idle::<B>(),
            h3_valid(r@),
    {
        H3Requests {
            starts: HashMap::new(),
            users: HashMap::new(),
            statuses: HashMap::new(),
            bodies: HashMap::new(),
        }
    }

    /// How many requests are unanswered.
    pub fn inflight(&self) -> (r: usize)
        ensures
            r == self@.starts.len(),
    {
        broadcast use vstd::std_specs::hash::group_hash_axioms;

        self.starts.len()
    }

    /// A request was opened on a stream.
    pub fn on_opened(&mut self, stream: u64, user: usize, now: u128)
        requires
            h3_valid(old(self)@),
        ensures
            h3_valid(final(self)@),
            final(self)@ == h3_opened(old(self)@, stream, user, now),
    {
        broadcast use vstd::std_specs::hash::group_hash_axioms;

        self.starts.insert(stream, now);
        self.users.insert(stream, user);
    }

    /// A body of `len` bytes was handed to a stream, which took so many of them, or
    /// was blocked.
    pub fn on_body(&mut self, stream: u64, data: B, len: usize, written: Option<usize>)
        requires
            h3_valid(old(self)@),
            written matches Some(n) ==> n <= len,
        ensures
            h3_valid(final(self)@),
            final(self)@ == h3_body_sent(
                old(self)@,
                stream,
                data,
                len,
                match written {
                    Some(n) => n,
                    None => 0,
                },
                written is None,
            ),
    {
        broadcast use vstd::std_specs::hash::group_hash_axioms;

        match written {
            Some(n) => {
                if n != len {
                    self.bodies.insert(stream, PendingBody { data, len, written: n });
                }
            },
            None => {
                self.bodies.insert(stream, PendingBody { data, len, written: 0 });
            },
        }
        proof {
            lemma_h3_valid(old(self)@, self@, stream);
        }
    }

    /// The streams whose bodies have not been wholly sent.
    pub fn blocked_streams(&self) -> (r: Vec<u64>)
        ensures
            r@.no_duplicates(),
            forall|id: u64| #[trigger] r@.contains(id) <==> self@.bodies.contains_key(id),
    {
        stream_ids(&self.bodies)
    }

    /// Where a stream's body goes on, unless it has been wholly sent.
    pub fn unsent_from(&self, stream: u64) -> (r: Option<usize>)
        ensures
            match r {
                Some(n) => self@.bodies.contains_key(stream) && n == self@.bodies[stream].written
                    && n < self@.bodies[stream].len,
                None => self@.bodies.contains_key(stream) ==> self@.bodies[stream].written
                    >= self@.bodies[stream].len,
            },
    {
        broadcast use vstd::std_specs::hash::group_hash_axioms;

        match self.bodies.get(&stream) {
            Some(body) => if body.written < body.len {
                Some(body.written)
            } else {
                None
            },
            None => None,
        }
    }

    /// A stream's body.
    pub fn body(&self, stream: u64) -> (r: Option<&B>)
        ensures
            match r {
                Some(data) => self@.bodies.contains_key(stream) && *data
                    == self@.bodies[stream].data,
                None => !self@.bodies.contains_key(stream),
            },
    {
        broadcast use vstd::std_specs::hash::group_hash_axioms;

        match self.bodies.get(&stream) {
            Some(body) => Some(&body.data),
            None => None,
        }
    }

    /// A stream took more of its body.
    pub fn on_body_progress(&mut self, stream: u64, written: usize)
        requires
            h3_valid(old(self)@),
            old(self)@.bodies.contains_key(stream),
            old(self)@.bodies[stream].written + written <= old(self)@.bodies[stream].len,
        ensures
            h3_valid(final(self)@),
            final(self)@ == h3_body_progress(old(self)@, stream, written),
    {
        broadcast use vstd::std_specs::hash::group_hash_axioms;

        match self.bodies.remove(&stream) {
            Some(body) => {
                let sent: usize = body.written + written;
                self.bodies.insert(
                    stream,
                    PendingBody { data: body.data, len: body.len, written: sent },
                );
                assert(self@.bodies =~= h3_body_progress(old(self)@, stream, written).bodies);
            },
            None => {},
        }
    }

    /// Forgets a body that has been wholly sent.
    pub fn on_body_settled(&mut self, stream: u64)
        requires
            h3_valid(old(self)@),
        ensures
            h3_valid(final(self)@),
            final(self)@ == h3_body_settled(old(self)@, stream),
    {
        broadcast use vstd::std_specs::hash::group_hash_axioms;

        let whole = match self.bodies.get(&stream) {
            Some(body) => body.written == body.len,
            None => false,
        };
        if whole {
            self.bodies.remove(&stream);
        }
        proof {
            lemma_h3_valid(old(self)@, self@, stream);
        }
    }

    /// A response's headers came.
    pub fn on_status(&mut self, stream: u64, status: Option<u16>)
        requires
            h3_valid(old(self)@),
        ensures
            h3_valid(final(self)@),
            final(self)@ == h3_status_known(old(self)@, stream, status),
    {
        broadcast use vstd::std_specs::hash::group_hash_axioms;

        let known: u16 = match status {
            Some(n) => n,
            None => 0,
        };
        self.statuses.insert(stream, known);
        proof {
            lemma_h3_valid(old(self)@, self@, stream);
        }
    }

    /// A stream ended.
    pub fn on_finished(&mut self, stream: u64, now: u128) -> (r: Option<H3Completion>)
        requires
            h3_valid(old(self)@),
        ensures
            h3_valid(final(self)@),
            r == h3_completion(old(self)@, stream, now),
            final(self)@ == h3_finished(old(self)@, stream),
    {
        broadcast use vstd::std_specs::hash::group_hash_axioms;

        match self.starts.remove(&stream) {
            None => {
                assert(self@.starts =~= old(self)@.starts);
                assert(self@ == old(self)@);
                None
            },
            Some(start) => {
                self.bodies.remove(&stream);
                let user: usize = match self.users.remove(&stream) {
                    Some(user) => user,
                    None => usize::MAX,
                };
                let ok = match self.statuses.remove(&stream) {
                    Some(status) => is_success(status),
                    None => false,
                };
                let latency: u128 = if now >= start {
                    now - start
                } else {
                    0
                };
                proof {
                    lemma_h3_valid(old(self)@, self@, stream);
                }
                Some(H3Completion { user, latency, ok })
            },
        }
    }
}

/// A request is answered once: it completes with the user for whom it was sent and
/// the time since, as a success exactly where the status says so, and its stream
/// completes nothing after that.
pub proof fn law_request_completes_once<B>(
    m: H3Model<B>,
    stream: u64,
    user: usize,
    sent: u128,
    status: Option<u16>,
    now: u128,
    later: u128,
)
    ensures
        ({
            let open = h3_status_known(h3_opened(m, stream, user, sent), stream, status);
            let done = h3_finished(open, stream);
            &&& h3_completion(open, stream, now) == Some(
                H3Completion {
                    user,
                    latency: elapsed(sent, now),
                    ok: status matches Some(n) && success(n),
                },
            )
            &&& h3_completion(done, stream, later) is None
            &&& !done.bodies.contains_key(stream)
        }),
{
}

/// A request counts as unanswered from when it is opened until its stream ends.
pub proof fn law_inflight<B>(m: H3Model<B>, stream: u64, user: usize, now: u128)
    requires
        m.starts.dom().finite(),
    ensures
        !m.starts.contains_key(stream) ==> h3_opened(m, stream, user, now).starts.len()
            == m.starts.len() + 1,
        m.starts.contains_key(stream) ==> h3_finished(m, stream).starts.len() + 1
            == m.starts.len(),
        !m.starts.contains_key(stream) ==> h3_finished(m, stream) == m,
{
    assert(h3_opened(m, stream, user, now).starts.dom() =~= m.starts.dom().insert(stream));
    if m.starts.contains_key(stream) {
        assert(h3_finished(m, stream).starts.dom() =~= m.starts.dom().remove(stream));
    }
}

/// Backpressure loses nothing: a body that a stream did not take at once is kept,
/// at the point where it goes on, until the last byte has been taken.
pub proof fn law_blocked_body_is_kept<B>(
    m: H3Model<B>,
    stream: u64,
    data: B,
    len: usize,
    first: usize,
    more: usize,
)
    requires
        first + more <= len,
        first < len,
    ensures
        ({
            let waiting = h3_body_sent(m, stream, data, len, first, first == 0);
            let further = h3_body_progress(waiting, stream, more);
            let settled = h3_body_settled(further, stream);
            &&& waiting.bodies[stream] == (PendingBody { data, len, written: first })
            &&& further.bodies[stream] == (PendingBody {
                data,
                len,
                written: (first + more) as usize,
            })
            &&& settled.bodies.contains_key(stream) <==> first + more < len
        }),
{
}

// ---------------------------------------------------------------------------
// The server
// ---------------------------------------------------------------------------

/// The status of every response.
pub const RESPONSE_STATUS: u16 = 204;

/// The headers of every response, which has no body.
pub open spec fn response_headers_of() -> Seq<(Seq<u8>, Seq<u8>)> {
    seq![(status_name(), seq![50u8, 48, 52])]
}

/// The headers of every response.
pub fn response_headers() -> (r: Vec<(Vec<u8>, Vec<u8>)>)
    ensures
        r@.len() == response_headers_of().len(),
        forall|i: int|
            0 <= i < r@.len() ==> ((#[trigger] r@[i]).0@, r@[i].1@) == response_headers_of()[i],
{
    let name: Vec<u8> = vec![58, 115, 116, 97, 116, 117, 115];
    let value: Vec<u8> = vec![50, 48, 52];
    assert(name@ =~= status_name());
    assert(value@ =~= seq![50u8, 48, 52]);
    vec![(name, value)]
}

/// The client takes every response of the server for a success: it reads their status
/// from their headers, and the request completes as one that went well.
pub proof fn law_responses_are_successes<B>(
    headers: Seq<(Vec<u8>, Vec<u8>)>,
    m: H3Model<B>,
    stream: u64,
    now: u128,
)
    requires
        headers.len() == response_headers_of().len(),
        forall|i: int|
            0 <= i < headers.len() ==> ((#[trigger] headers[i]).0@, headers[i].1@)
                == response_headers_of()[i],
        m.starts.contains_key(stream),
    ensures
        status_in(headers) == Some(RESPONSE_STATUS as nat),
        success(RESPONSE_STATUS),
        ({
            let known = h3_status_known(m, stream, Some(RESPONSE_STATUS));
            h3_completion(known, stream, now) matches Some(c) && c.ok
        }),
{
    assert((headers[0].0@, headers[0].1@) == response_headers_of()[0]);
    let value = headers[0].1@;
    assert(value == seq![50u8, 48, 52]);
    let text = ascii(value);
    law_read_undoes_print(204, u16::MAX as nat);
    reveal_with_fuel(decimal, 4);
    assert(decimal(204) =~= seq!['2', '0', '4']);
    assert(text =~= seq!['2', '0', '4']);
}

/// What a server keeps of its responses, as values.
#[verifier::ext_equal]
pub struct H3ServerModel {
    /// The streams whose requests have come to their end.
    pub finished: Set<u64>,
    /// The streams whose responses could not be sent yet.
    pub pending: Set<u64>,
}

/// Whether a request that comes to its end is answered.
pub open spec fn server_answers(m: H3ServerModel, stream: u64) -> bool {
    !m.finished.contains(stream)
}

/// A request came to its end.
pub open spec fn server_ended(m: H3ServerModel, stream: u64) -> H3ServerModel {
    H3ServerModel { finished: m.finished.insert(stream), ..m }
}

/// A response was blocked.
pub open spec fn server_blocked(m: H3ServerModel, stream: u64) -> H3ServerModel {
    H3ServerModel { pending: m.pending.insert(stream), ..m }
}

/// A response that was to be sent again was sent.
pub open spec fn server_sent(m: H3ServerModel, stream: u64) -> H3ServerModel {
    H3ServerModel { pending: m.pending.remove(stream), ..m }
}

/// What a server keeps of its responses.
#[derive(Debug)]
pub struct H3Responses {
    finished: HashSet<u64>,
    pending: HashSet<u64>,
}

impl View for H3Responses {
    type V = H3ServerModel;

    closed spec fn view(&self) -> H3ServerModel {
        H3ServerModel { finished: self.finished@, pending: self.pending@ }
    }
}

impl H3Responses {
    /// No request yet.
    pub fn start() -> (r: H3Responses)
        ensures
            r@ == (H3ServerModel { finished: Set::empty(), pending: Set::empty() }),
    {
        H3Responses { finished: HashSet::new(), pending: HashSet::new() }
    }

    /// A request came to its end. Returns whether it is to be answered, which it is
    /// the first time only.
    pub fn on_finished(&mut self, stream: u64) -> (r: bool)
        ensures
            r == server_answers(old(self)@, stream),
            final(self)@ == server_ended(old(self)@, stream),
    {
        broadcast use vstd::std_specs::hash::group_hash_axioms;

        self.finished.insert(stream)
    }

    /// A response was blocked: it is to be sent again.
    pub fn on_blocked(&mut self, stream: u64)
        ensures
            final(self)@ == server_blocked(old(self)@, stream),
    {
        broadcast use vstd::std_specs::hash::group_hash_axioms;

        self.pending.insert(stream);
    }

    /// Whether a stream's response is to be sent again.
    pub fn is_pending(&self, stream: u64) -> (r: bool)
        ensures
            r == self@.pending.contains(stream),
    {
        broadcast use vstd::std_specs::hash::group_hash_axioms;

        self.pending.contains(&stream)
    }

    /// A response that was to be sent again was sent.
    pub fn on_sent(&mut self, stream: u64)
        ensures
            final(self)@ == server_sent(old(self)@, stream),
    {
        broadcast use vstd::std_specs::hash::group_hash_axioms;

        self.pending.remove(&stream);
    }
}

/// A request is answered once, whatever comes after its end, and a response that is
/// blocked is to be sent again until it was sent.
pub proof fn law_responses_are_sent_once(m: H3ServerModel, stream: u64)
    ensures
        ({
            let ended = server_ended(m, stream);
            let waiting = server_blocked(ended, stream);
            let sent = server_sent(waiting, stream);
            &&& !server_answers(ended, stream)
            &&& waiting.pending.contains(stream) && !server_answers(waiting, stream)
            &&& !sent.pending.contains(stream) && !server_answers(sent, stream)
        }),
{
}

// ---------------------------------------------------------------------------
// What a request and its answer come to
// ---------------------------------------------------------------------------

/// A status is a success exactly when its hundreds are two.
pub proof fn law_success(status: u16)
    ensures
        success(status) <==> status / 100 == 2,
{
}

/// The time that passed makes up what lies between the start and now; none did where now
/// comes first.
pub proof fn law_elapsed(start: u128, now: u128)
    ensures
        now >= start ==> start + elapsed(start, now) == now,
        now <= start ==> elapsed(start, now) == 0,
{
}

/// The status of an answer is the number in the first header that is named `:status`, and
/// there is none where no header is.
pub proof fn law_first_status(headers: Seq<(Vec<u8>, Vec<u8>)>, k: int)
    ensures
        0 <= k < headers.len() && headers[k].0@ == status_name() && (forall|i: int|
            0 <= i < k ==> (#[trigger] headers[i]).0@ != status_name()) ==> status_in(headers)
            == status_number(headers[k].1@),
        (forall|i: int| 0 <= i < headers.len() ==> (#[trigger] headers[i]).0@ != status_name())
            ==> status_in(headers) is None,
        ascii(status_name()) == seq![':', 's', 't', 'a', 't', 'u', 's'],
{
    lemma_status_position(headers);
    let at = status_position(headers);
    if 0 <= k < headers.len() && headers[k].0@ == status_name() && (forall|i: int|
        0 <= i < k ==> (#[trigger] headers[i]).0@ != status_name()) {
        if at < k {
            assert(headers[at].0@ != status_name());
        }
        assert(at == k);
    }
    if forall|i: int| 0 <= i < headers.len() ==> (#[trigger] headers[i]).0@ != status_name() {
        if at < headers.len() {
            assert(headers[at].0@ != status_name());
        }
    }
    assert(ascii(status_name()) =~= seq![':', 's', 't', 'a', 't', 'u', 's']);
}

proof fn lemma_status_position(headers: Seq<(Vec<u8>, Vec<u8>)>)
    ensures
        0 <= status_position(headers) <= headers.len(),
        status_position(headers) < headers.len() ==> headers[status_position(headers)].0@
            == status_name(),
        forall|i: int|
            0 <= i < status_position(headers) ==> (#[trigger] headers[i]).0@ != status_name(),
    decreases headers.len(),
{
    if headers.len() > 0 && headers[0].0@ != status_name() {
        let rest = headers.drop_first();
        lemma_status_position(rest);
        assert forall|i: int| 0 <= i < status_position(headers) implies (
        #[trigger] headers[i]).0@ != status_name() by {
            if i > 0 {
                assert(rest[i - 1] == headers[i]);
            }
        }
    }
}

/// A status is read from its digits, up to what sixteen bits hold; bytes that are no digits,
/// but for a plus sign in front, are no status.
pub proof fn law_status_number(status: nat, value: Seq<u8>)
    ensures
        status <= 0xffff && all_ascii(value) && ascii(value) == decimal(status) ==> status_number(
            value,
        ) == Some(status),
        status_number(value) matches Some(n) ==> n <= 0xffff,
        status_number(value) is Some ==> value.len() > 0 && forall|i: int|
            0 < i < value.len() ==> '0' as u8 <= #[trigger] value[i] <= '9' as u8,
        status_number(value) is Some ==> value[0] == '+' as u8 || '0' as u8 <= value[0]
            <= '9' as u8,
{
    if status <= 0xffff {
        law_read_undoes_print(status, 0xffff);
    }
    if status_number(value) is Some {
        let text = ascii(value);
        law_only_digits_read(text, 0xffff);
        assert(text[0] == value[0] as char);
        assert forall|i: int| 0 < i < value.len() implies '0' as u8 <= #[trigger] value[i]
            <= '9' as u8 by {
            assert(text[i] == value[i] as char);
        }
    }
}

/// The headers of a request: where it goes is what it was asked for, and its length is the
/// number that is read back from the last of them.
pub proof fn law_request_headers(authority: Seq<char>, path: Seq<char>, length: nat, limit: nat)
    requires
        length <= limit,
    ensures
        ({
            let all = request_headers_of(authority, path, length);
            &&& all.len() == 6
            &&& all[0] == (":method"@, "POST"@) && all[1] == (":scheme"@, "https"@)
            &&& all[2] == (":authority"@, authority) && all[3] == (":path"@, path)
            &&& all[4] == ("content-type"@, "application/json"@)
            &&& all[5].0 == "content-length"@
            &&& unsigned_number(all[5].1, limit) == Some(length)
        }),
{
    law_read_undoes_print(length, limit);
}

/// What happens to the requests of a client.
pub enum H3Event<B> {
    /// A request of this user was opened at this time.
    Opened(u64, usize, u128),
    /// A body of this length was handed to its stream, which took so much of it or was
    /// blocked.
    BodySent(u64, B, usize, usize, bool),
    /// A stream took so much more of its body.
    BodyProgress(u64, usize),
    /// A body is forgotten if it was wholly sent.
    BodySettled(u64),
    /// The status of an answer came.
    StatusKnown(u64, Option<u16>),
    /// A stream ended.
    Finished(u64),
}

/// The requests after something happened.
pub open spec fn h3_after<B>(m: H3Model<B>, e: H3Event<B>) -> H3Model<B> {
    match e {
        H3Event::Opened(stream, user, now) => h3_opened(m, stream, user, now),
        H3Event::BodySent(stream, data, len, written, blocked) => h3_body_sent(
            m,
            stream,
            data,
            len,
            written,
            blocked,
        ),
        H3Event::BodyProgress(stream, written) => h3_body_progress(m, stream, written),
        H3Event::BodySettled(stream) => h3_body_settled(m, stream),
        H3Event::StatusKnown(stream, status) => h3_status_known(m, stream, status),
        H3Event::Finished(stream) => h3_finished(m, stream),
    }
}

/// The stream that something happens on.
pub open spec fn h3_stream<B>(e: H3Event<B>) -> u64 {
    match e {
        H3Event::Opened(stream, _, _) => stream,
        H3Event::BodySent(stream, _, _, _, _) => stream,
        H3Event::BodyProgress(stream, _) => stream,
        H3Event::BodySettled(stream) => stream,
        H3Event::StatusKnown(stream, _) => stream,
        H3Event::Finished(stream) => stream,
    }
}

/// The requests after all that happened, in its order.
pub open spec fn h3_run<B>(m: H3Model<B>, events: Seq<H3Event<B>>) -> H3Model<B> {
    events.fold_left(m, |m: H3Model<B>, e: H3Event<B>| h3_after(m, e))
}

/// What happens on one stream changes nothing of a request on another.
pub proof fn law_h3_streams_are_apart<B>(m: H3Model<B>, e: H3Event<B>, other: u64)
    requires
        h3_stream(e) != other,
    ensures
        ({
            let r = h3_after(m, e);
            &&& r.starts.contains_key(other) <==> m.starts.contains_key(other)
            &&& m.starts.contains_key(other) ==> r.starts[other] == m.starts[other]
            &&& r.users.contains_key(other) <==> m.users.contains_key(other)
            &&& m.users.contains_key(other) ==> r.users[other] == m.users[other]
            &&& r.statuses.contains_key(other) <==> m.statuses.contains_key(other)
            &&& m.statuses.contains_key(other) ==> r.statuses[other] == m.statuses[other]
            &&& r.bodies.contains_key(other) <==> m.bodies.contains_key(other)
            &&& m.bodies.contains_key(other) ==> r.bodies[other] == m.bodies[other]
        }),
{
}

/// A request that was opened, whatever happens until its stream ends, completes for its
/// user, with the time since it was opened, and well exactly when the last status that came
/// has two hundreds. Before its end nothing takes it out of the table.
pub proof fn law_request_completes<B>(
    m: H3Model<B>,
    events: Seq<H3Event<B>>,
    stream: u64,
    user: usize,
    opened: u128,
    now: u128,
)
    requires
        forall|i: int|
            0 <= i < events.len() ==> !(#[trigger] events[i] is Finished && h3_stream(events[i])
                == stream) && !(events[i] is Opened && h3_stream(events[i]) == stream),
    ensures
        ({
            let r = h3_run(h3_opened(m, stream, user, opened), events);
            let known = |e: H3Event<B>| e is StatusKnown && h3_stream(e) == stream;
            let statuses = events.filter(known);
            h3_completion(r, stream, now) matches Some(c) && {
                &&& c.user == user
                &&& now >= opened ==> opened + c.latency == now
                &&& now < opened ==> c.latency == 0
                &&& statuses.len() > 0 ==> (c.ok <==> match statuses.last()->StatusKnown_1 {
                    Some(n) => n / 100 == 2,
                    None => false,
                })
                &&& statuses.len() == 0 && !m.statuses.contains_key(stream) ==> !c.ok
            }
        }),
    decreases events.len(),
{
    reveal(Seq::filter);
    reveal_with_fuel(Seq::fold_left, 2);
    let start = h3_opened(m, stream, user, opened);
    let known = |e: H3Event<B>| e is StatusKnown && h3_stream(e) == stream;
    lemma_request_open(start, events, stream);
    if events.len() > 0 {
        let rest = events.drop_last();
        let e = events[events.len() - 1];
        assert forall|i: int| 0 <= i < rest.len() implies !(#[trigger] rest[i] is Finished
            && h3_stream(rest[i]) == stream) && !(rest[i] is Opened && h3_stream(rest[i])
            == stream) by {
            assert(rest[i] == events[i]);
        }
        law_request_completes(m, rest, stream, user, opened, now);
        assert(h3_run(start, events) == h3_after(h3_run(start, rest), e));
        if known(e) {
            assert(events.filter(known) =~= rest.filter(known).push(e));
        } else {
            assert(events.filter(known) =~= rest.filter(known));
        }
    }
}

proof fn lemma_request_open<B>(m: H3Model<B>, events: Seq<H3Event<B>>, stream: u64)
    requires
        m.starts.contains_key(stream),
        m.users.contains_key(stream),
        forall|i: int|
            0 <= i < events.len() ==> !(#[trigger] events[i] is Finished && h3_stream(events[i])
                == stream) && !(events[i] is Opened && h3_stream(events[i]) == stream),
    ensures
        ({
            let r = h3_run(m, events);
            &&& r.starts.contains_key(stream) && r.starts[stream] == m.starts[stream]
            &&& r.users.contains_key(stream) && r.users[stream] == m.users[stream]
        }),
    decreases events.len(),
{
    reveal_with_fuel(Seq::fold_left, 2);
    if events.len() > 0 {
        let rest = events.drop_last();
        let e = events[events.len() - 1];
        assert forall|i: int| 0 <= i < rest.len() implies !(#[trigger] rest[i] is Finished
            && h3_stream(rest[i]) == stream) && !(rest[i] is Opened && h3_stream(rest[i])
            == stream) by {
            assert(rest[i] == events[i]);
        }
        lemma_request_open(m, rest, stream);
        assert(h3_run(m, events) == h3_after(h3_run(m, rest), e));
    }
}

/// A body that its stream does not take at once is kept, with what was taken of it, and one
/// that it does is not; what is taken later is added, and the body stays the same until all
/// of it was taken. A stream that ended has nothing left, unless it had no request.
pub proof fn law_bodies<B>(
    m: H3Model<B>,
    stream: u64,
    data: B,
    len: usize,
    written: usize,
    blocked: bool,
    more: usize,
)
    ensures
        ({
            let r = h3_body_sent(m, stream, data, len, written, blocked);
            &&& r == (H3Model { bodies: r.bodies, ..m })
            &&& !blocked && written == len ==> r == m
            &&& blocked || written != len ==> r.bodies.contains_key(stream)
                && r.bodies[stream].data == data && r.bodies[stream].len == len
                && r.bodies[stream].written == written
        }),
        m.bodies.contains_key(stream) && m.bodies[stream].written + more <= usize::MAX ==> ({
            let r = h3_body_progress(m, stream, more);
            &&& r == (H3Model { bodies: r.bodies, ..m })
            &&& r.bodies.contains_key(stream)
            &&& r.bodies[stream].data == m.bodies[stream].data
            &&& r.bodies[stream].len == m.bodies[stream].len
            &&& r.bodies[stream].written == m.bodies[stream].written + more
        }),
        ({
            let r = h3_body_settled(m, stream);
            &&& r == (H3Model { bodies: r.bodies, ..m })
            &&& r.bodies.contains_key(stream) <==> m.bodies.contains_key(stream)
                && m.bodies[stream].written != m.bodies[stream].len
            &&& r.bodies.contains_key(stream) ==> r == m
        }),
        ({
            let r = h3_finished(m, stream);
            &&& m.starts.contains_key(stream) ==> !r.starts.contains_key(stream)
                && !r.users.contains_key(stream) && !r.statuses.contains_key(stream)
                && !r.bodies.contains_key(stream)
            &&& !m.starts.contains_key(stream) ==> r == m && h3_completion(
                m,
                stream,
                0,
            ) is None
        }),
{
}

/// A server answers each stream that ends, and none twice; a response that a stream did not
/// take waits until it did, and neither touches another stream.
pub proof fn law_responses_wait(m: H3ServerModel, stream: u64, other: u64)
    ensures
        server_answers(server_ended(m, stream), other) <==> server_answers(m, other) && other
            != stream,
        server_ended(m, stream).pending == m.pending,
        server_blocked(m, stream).pending.contains(other) <==> m.pending.contains(other) || other
            == stream,
        server_sent(m, stream).pending.contains(other) <==> m.pending.contains(other) && other
            != stream,
        server_answers(server_blocked(m, stream), other) <==> server_answers(m, other),
        server_answers(server_sent(m, stream), other) <==> server_answers(m, other),
        server_answers(H3ServerModel { finished: Set::empty(), pending: Set::empty() }, other),
{
}

} // verus!
