//! Users that send one message after another: the next one goes out when the last
//! one is answered. Times are nanoseconds on one clock.
use crate::fixed_rate::PATIENCE;
use crate::h3::{
    h3_body_progress, h3_body_sent, h3_body_settled, h3_completion, h3_finished, h3_opened,
    h3_status_known, H3Completion, H3Model,
};
use vstd::prelude::*;

verus! {

/// How many requests warm a connection up before anything is measured.
pub const WARM_UP_REQUESTS: usize = 8;

/// Whether the latency of every message, in sixteen bytes, fits in memory.
pub open spec fn measurable(users: nat, per_user: nat) -> bool {
    users * per_user * 16 <= isize::MAX
}

/// How many messages all users send together; none where their latencies do not
/// fit in memory.
pub fn message_count(users: usize, per_user: usize) -> (r: Option<usize>)
    ensures
        match r {
            Some(total) => measurable(users as nat, per_user as nat) && total == users * per_user,
            None => !measurable(users as nat, per_user as nat),
        },
{
    assert(users * per_user <= 0xffff_ffff_ffff_ffff * 0xffff_ffff_ffff_ffff) by (nonlinear_arith)
        requires
            0 <= users <= 0xffff_ffff_ffff_ffff,
            0 <= per_user <= 0xffff_ffff_ffff_ffff,
    ;
    let total: u128 = users as u128 * per_user as u128;
    if total > isize::MAX as u128 / 16 {
        None
    } else {
        Some(total as usize)
    }
}

// ---------------------------------------------------------------------------
// All users in one loop
// ---------------------------------------------------------------------------

/// The users of one connection, as values.
#[verifier::ext_equal]
pub struct UsersModel {
    /// How many messages each user sends.
    pub per_user: nat,
    /// How many messages of each user have come to their end.
    pub next: Seq<usize>,
    /// Whether a message of the user is unanswered.
    pub inflight: Seq<bool>,
    pub completed: nat,
    pub errors: nat,
    pub latencies: Seq<u128>,
    /// When something last went on.
    pub last_progress: nat,
}

impl UsersModel {
    /// How many messages there are in all.
    pub open spec fn total(self) -> nat {
        self.next.len() * self.per_user
    }

    /// Whether a user has a message to send and none unanswered.
    pub open spec fn ready(self, user: int) -> bool {
        &&& 0 <= user < self.next.len()
        &&& !self.inflight[user]
        &&& self.next[user] < self.per_user
    }
}

/// The sum of the numbers.
pub open spec fn sum(counts: Seq<usize>) -> nat
    decreases counts.len(),
{
    if counts.len() == 0 {
        0
    } else {
        sum(counts.drop_last()) + counts.last() as nat
    }
}

/// What holds as long as every answer is to an unanswered message: no user is ahead
/// of its messages, and every message that came to its end is an error or has a
/// latency.
pub open spec fn users_consistent(m: UsersModel) -> bool {
    &&& m.inflight.len() == m.next.len()
    &&& forall|u: int| 0 <= u < m.next.len() ==> #[trigger] m.next[u] <= m.per_user
    &&& forall|u: int| 0 <= u < m.next.len() && #[trigger] m.inflight[u] ==> m.next[u] < m.per_user
    &&& m.completed == sum(m.next)
    &&& m.errors + m.latencies.len() == m.completed
}

/// Users that have not sent anything.
pub open spec fn users_started(users: nat, per_user: nat, now: nat) -> UsersModel {
    UsersModel {
        per_user,
        next: Seq::new(users, |u: int| 0usize),
        inflight: Seq::new(users, |u: int| false),
        completed: 0,
        errors: 0,
        latencies: seq![],
        last_progress: now,
    }
}

/// A user's message was sent.
pub open spec fn users_sent(m: UsersModel, user: int, now: nat) -> UsersModel {
    UsersModel { inflight: m.inflight.update(user, true), last_progress: now, ..m }
}

/// A user's message could not be sent: it and all that were to follow are errors.
pub open spec fn users_send_failed(m: UsersModel, user: int) -> UsersModel {
    let left = (m.per_user - m.next[user]) as nat;
    UsersModel {
        next: m.next.update(user, m.per_user as usize),
        inflight: m.inflight.update(user, false),
        errors: m.errors + left,
        completed: m.completed + left,
        ..m
    }
}

/// An answer came, for one of the users or for none of them.
pub open spec fn users_answered(
    m: UsersModel,
    user: int,
    latency: u128,
    ok: bool,
    now: nat,
) -> UsersModel {
    let known = 0 <= user < m.next.len();
    UsersModel {
        next: if known {
            m.next.update(user, (m.next[user] + 1) as usize)
        } else {
            m.next
        },
        inflight: if known {
            m.inflight.update(user, false)
        } else {
            m.inflight
        },
        completed: m.completed + 1,
        errors: if ok {
            m.errors
        } else {
            m.errors + 1
        },
        latencies: if ok {
            m.latencies.push(latency)
        } else {
            m.latencies
        },
        last_progress: now,
        ..m
    }
}

/// Whether nothing has gone on for too long.
pub open spec fn users_stalled(m: UsersModel, now: nat) -> bool {
    now > m.last_progress + PATIENCE
}

/// The rest is given up: every message that has not come to its end is an error.
pub open spec fn users_given_up(m: UsersModel) -> UsersModel {
    UsersModel { errors: (m.errors + (m.total() - m.completed)) as nat, ..m }
}

/// Where a loop is in its round: every user that is ready sends, then answers are
/// waited for.
#[derive(Debug, Clone, Copy, PartialEq, Eq, Structural)]
pub enum UsersPhase {
    /// A round begins.
    RoundStart,
    /// The users from this one on may send.
    Sending(usize),
    /// The connection took no more messages in this round.
    Blocked,
    /// Answers were waited for.
    Driven,
}

/// What a loop does next.
#[derive(Debug, Clone, Copy, PartialEq, Eq, Structural)]
pub enum UsersStep {
    /// Sends a message of a user: the user, and the number of the message.
    Send(usize, usize),
    /// Waits for answers.
    Drive,
    /// Ends the run.
    Stop,
    /// Gives the rest up.
    GiveUp,
}

/// The first user from `from` on that is ready; as many as there are where none is.
pub open spec fn first_ready(m: UsersModel, from: nat) -> nat
    decreases m.next.len() - from,
{
    if from >= m.next.len() {
        m.next.len()
    } else if m.ready(from as int) {
        from
    } else {
        first_ready(m, from + 1)
    }
}

/// What is done while the users from `from` on may send.
pub open spec fn users_sending(m: UsersModel, from: nat) -> (UsersPhase, UsersStep) {
    let user = first_ready(m, from);
    if user < m.next.len() {
        (
            UsersPhase::Sending((user + 1) as usize),
            UsersStep::Send(user as usize, m.next[user as int]),
        )
    } else {
        (UsersPhase::Driven, UsersStep::Drive)
    }
}

/// What is done when a round begins.
pub open spec fn users_round(m: UsersModel) -> (UsersPhase, UsersStep) {
    if m.completed < m.total() {
        users_sending(m, 0)
    } else {
        (UsersPhase::RoundStart, UsersStep::Stop)
    }
}

/// What a loop does next, and where in its round it is then.
pub open spec fn users_step(m: UsersModel, phase: UsersPhase, now: nat) -> (UsersPhase, UsersStep) {
    match phase {
        UsersPhase::RoundStart => users_round(m),
        UsersPhase::Sending(from) => users_sending(m, from as nat),
        UsersPhase::Blocked => (UsersPhase::Driven, UsersStep::Drive),
        UsersPhase::Driven => if users_stalled(m, now) {
            (UsersPhase::Driven, UsersStep::GiveUp)
        } else {
            users_round(m)
        },
    }
}

/// The users of one connection.
#[derive(Debug)]
pub struct SerialUsers {
    per_user: usize,
    total: usize,
    next: Vec<usize>,
    inflight: Vec<bool>,
    completed: usize,
    errors: usize,
    latencies: Vec<u128>,
    last_progress: u128,
    phase: UsersPhase,
}

impl View for SerialUsers {
    type V = UsersModel;

    closed spec fn view(&self) -> UsersModel {
        UsersModel {
            per_user: self.per_user as nat,
            next: self.next@,
            inflight: self.inflight@,
            completed: self.completed as nat,
            errors: self.errors as nat,
            latencies: self.latencies@,
            last_progress: self.last_progress as nat,
        }
    }
}

impl SerialUsers {
    /// Where in its round the loop is.
    pub closed spec fn phase(self) -> UsersPhase {
        self.phase
    }

    /// Whether the parts belong together.
    pub closed spec fn valid(self) -> bool {
        &&& self.inflight@.len() == self.next@.len()
        &&& self.total == self.next@.len() * self.per_user
        &&& self.errors <= self.completed
        &&& forall|u: int|
            0 <= u < self.next@.len() ==> #[trigger] self.next@[u] <= self.completed
    }

    /// Users that have not sent anything; none where there are too many messages to
    /// keep the latencies of.
    pub fn start(users: usize, per_user: usize, now: u128) -> (r: Option<SerialUsers>)
        ensures
            match r {
                Some(s) => {
                    &&& measurable(users as nat, per_user as nat)
                    &&& s.valid()
                    &&& s.phase() == UsersPhase::RoundStart
                    &&& s@ == users_started(users as nat, per_user as nat, now as nat)
                },
                None => !measurable(users as nat, per_user as nat),
            },
    {
        let total: usize = match message_count(users, per_user) {
            Some(total) => total,
            None => {
                return None;
            },
        };
        let mut next: Vec<usize> = Vec::new();
        let mut inflight: Vec<bool> = Vec::new();
        let mut u: usize = 0;
        while u < users
            invariant
                u <= users,
                next@ == Seq::new(u as nat, |i: int| 0usize),
                inflight@ == Seq::new(u as nat, |i: int| false),
            decreases users - u,
        {
            next.push(0);
            inflight.push(false);
            u = u + 1;
            assert(next@ =~= Seq::new(u as nat, |i: int| 0usize));
            assert(inflight@ =~= Seq::new(u as nat, |i: int| false));
        }
        let s = SerialUsers {
            per_user,
            total,
            next,
            inflight,
            completed: 0,
            errors: 0,
            latencies: Vec::new(),
            last_progress: now,
            phase: UsersPhase::RoundStart,
        };
        assert(s@.latencies =~= seq![]);
        Some(s)
    }

    fn sending(&mut self, from: usize) -> (r: UsersStep)
        requires
            old(self).valid(),
        ensures
            final(self).valid(),
            final(self)@ == old(self)@,
            (final(self).phase(), r) == users_sending(old(self)@, from as nat),
    {
        let mut user: usize = from;
        while user < self.next.len() && (self.inflight[user] || self.next[user] >= self.per_user)
            invariant
                from <= user,
                self.valid(),
                self@ == old(self)@,
                first_ready(self@, from as nat) == first_ready(self@, user as nat),
            decreases self.next@.len() - user,
        {
            user = user + 1;
        }
        if user < self.next.len() {
            self.phase = UsersPhase::Sending(user + 1);
            UsersStep::Send(user, self.next[user])
        } else {
            self.phase = UsersPhase::Driven;
            UsersStep::Drive
        }
    }

    fn round(&mut self) -> (r: UsersStep)
        requires
            old(self).valid(),
        ensures
            final(self).valid(),
            final(self)@ == old(self)@,
            (final(self).phase(), r) == users_round(old(self)@),
    {
        if self.completed < self.total {
            self.sending(0)
        } else {
            self.phase = UsersPhase::RoundStart;
            UsersStep::Stop
        }
    }

    /// What the loop does next.
    pub fn step(&mut self, now: u128) -> (r: UsersStep)
        requires
            old(self).valid(),
        ensures
            final(self).valid(),
            final(self)@ == old(self)@,
            (final(self).phase(), r) == users_step(old(self)@, old(self).phase(), now as nat),
            r matches UsersStep::Send(user, _) ==> final(self)@.ready(user as int),
    {
        proof {
            lemma_first_ready(self@, 0);
            assert(self.next@.len() == self.next.len());
        }
        match self.phase {
            UsersPhase::RoundStart => self.round(),
            UsersPhase::Sending(from) => {
                proof {
                    lemma_first_ready(self@, from as nat);
                }
                self.sending(from)
            },
            UsersPhase::Blocked => {
                self.phase = UsersPhase::Driven;
                UsersStep::Drive
            },
            UsersPhase::Driven => if now > self.last_progress && now - self.last_progress
                > PATIENCE {
                UsersStep::GiveUp
            } else {
                self.round()
            },
        }
    }

    /// The connection took no more messages in this round.
    pub fn on_blocked(&mut self)
        requires
            old(self).valid(),
        ensures
            final(self).valid(),
            final(self)@ == old(self)@,
            final(self).phase() == UsersPhase::Blocked,
    {
        self.phase = UsersPhase::Blocked;
    }

    /// Whether a user has a message to send and none unanswered.
    pub fn is_ready(&self, user: usize) -> (r: bool)
        requires
            self.valid(),
        ensures
            r == self@.ready(user as int),
    {
        user < self.next.len() && !self.inflight[user] && self.next[user] < self.per_user
    }

    /// A user's message was sent.
    pub fn on_sent(&mut self, user: usize, now: u128)
        requires
            old(self).valid(),
            old(self)@.ready(user as int),
        ensures
            final(self).valid(),
            final(self)@ == users_sent(old(self)@, user as int, now as nat),
            final(self).phase() == old(self).phase(),
    {
        self.inflight.set(user, true);
        self.last_progress = now;
    }

    /// Whether the counts have room for one more user that fails.
    pub fn has_room(&self) -> (r: bool)
        ensures
            r == (self@.completed + self@.per_user < usize::MAX),
    {
        self.completed < usize::MAX - self.per_user
    }

    /// A user's message could not be sent.
    pub fn on_send_failed(&mut self, user: usize)
        requires
            old(self).valid(),
            old(self)@.ready(user as int),
            old(self)@.completed + old(self)@.per_user < usize::MAX,
        ensures
            final(self).valid(),
            final(self)@ == users_send_failed(old(self)@, user as int),
            final(self).phase() == old(self).phase(),
    {
        let ghost before = self.next@;
        let left: usize = self.per_user - self.next[user];
        assert(before[user as int] <= self.completed);
        self.errors = self.errors + left;
        self.completed = self.completed + left;
        self.next.set(user, self.per_user);
        self.inflight.set(user, false);
        assert forall|u: int| 0 <= u < self.next@.len() implies #[trigger] self.next@[u]
            <= self.completed by {
            assert(before[u] <= old(self).completed);
        }
    }

    /// An answer came.
    pub fn on_answer(&mut self, user: usize, latency: u128, ok: bool, now: u128)
        requires
            old(self).valid(),
            old(self)@.completed < usize::MAX,
        ensures
            final(self).valid(),
            final(self)@ == users_answered(old(self)@, user as int, latency, ok, now as nat),
            final(self).phase() == old(self).phase(),
    {
        let ghost before = self.next@;
        if user < self.next.len() {
            let done: usize = self.next[user];
            assert(before[user as int] <= self.completed);
            self.inflight.set(user, false);
            self.next.set(user, done + 1);
        }
        self.completed = self.completed + 1;
        self.last_progress = now;
        if ok {
            self.latencies.push(latency);
        } else {
            self.errors = self.errors + 1;
        }
        assert forall|u: int| 0 <= u < self.next@.len() implies #[trigger] self.next@[u]
            <= self.completed by {
            assert(before[u] <= old(self).completed);
        }
    }

    /// Gives the rest up, and returns the latencies and the number of errors.
    pub fn give_up(self) -> (r: (Vec<u128>, usize))
        requires
            self.valid(),
            self@.completed <= self@.total(),
        ensures
            r.0@ == users_given_up(self@).latencies,
            r.1 == users_given_up(self@).errors,
    {
        let missing: usize = self.total - self.completed;
        (self.latencies, self.errors + missing)
    }

    /// How many messages have come to their end, and how many there are.
    pub fn progress(&self) -> (r: (usize, usize))
        requires
            self.valid(),
        ensures
            r.0 == self@.completed,
            r.1 == self@.total(),
    {
        (self.completed, self.total)
    }

    /// The latencies, and the number of errors.
    pub fn finish(self) -> (r: (Vec<u128>, usize))
        ensures
            r.0@ == self@.latencies,
            r.1 == self@.errors,
    {
        (self.latencies, self.errors)
    }
}

proof fn lemma_first_ready(m: UsersModel, from: nat)
    ensures
        first_ready(m, from) < m.next.len() ==> m.ready(first_ready(m, from) as int)
            && first_ready(m, from) >= from,
        forall|u: int| from <= u < first_ready(m, from) ==> !#[trigger] m.ready(u),
    decreases m.next.len() - from,
{
    if from < m.next.len() && !m.ready(from as int) {
        lemma_first_ready(m, from + 1);
    }
}

/// In a round every user that is ready gets its turn, in order: the loop waits only
/// when no user from where it is on is ready or the connection took no more, and it
/// stops only when every message has come to its end.
pub proof fn law_users_step(m: UsersModel, phase: UsersPhase, now: nat)
    requires
        m.next.len() <= usize::MAX,
    ensures
        match users_step(m, phase, now).1 {
            UsersStep::Send(user, message) => m.ready(user as int) && message
                == m.next[user as int],
            UsersStep::Drive => phase == UsersPhase::Blocked || forall|u: int|
                (phase matches UsersPhase::Sending(from) ==> from <= u) && 0 <= u
                    < m.next.len() ==> !#[trigger] m.ready(u),
            UsersStep::Stop => m.completed >= m.total(),
            UsersStep::GiveUp => users_stalled(m, now),
        },
{
    lemma_first_ready(m, 0);
    if let UsersPhase::Sending(from) = phase {
        lemma_first_ready(m, from as nat);
    }
}

proof fn lemma_sum_update(counts: Seq<usize>, i: int, v: usize)
    requires
        0 <= i < counts.len(),
    ensures
        sum(counts.update(i, v)) == sum(counts) - counts[i] + v,
    decreases counts.len(),
{
    let changed = counts.update(i, v);
    if i == counts.len() - 1 {
        assert(changed.drop_last() =~= counts.drop_last());
    } else {
        lemma_sum_update(counts.drop_last(), i, v);
        assert(changed.drop_last() =~= counts.drop_last().update(i, v));
    }
}

proof fn lemma_sum_bound(counts: Seq<usize>, limit: nat)
    requires
        forall|u: int| 0 <= u < counts.len() ==> #[trigger] counts[u] <= limit,
    ensures
        sum(counts) <= counts.len() * limit,
        sum(counts) == counts.len() * limit ==> forall|u: int|
            0 <= u < counts.len() ==> #[trigger] counts[u] == limit,
    decreases counts.len(),
{
    let n = counts.len();
    if n == 0 {
        assert(n * limit == 0) by (nonlinear_arith)
            requires
                n == 0,
        ;
    } else {
        let head = counts.drop_last();
        assert forall|u: int| 0 <= u < head.len() implies #[trigger] head[u] <= limit by {
            assert(head[u] == counts[u]);
        }
        lemma_sum_bound(head, limit);
        assert(n * limit == (n - 1) * limit + limit) by (nonlinear_arith);
        assert(counts[n - 1] <= limit);
        if sum(counts) == n * limit {
            assert forall|u: int| 0 <= u < n implies #[trigger] counts[u] == limit by {
                if u < n - 1 {
                    assert(head[u] == counts[u]);
                }
            }
        }
    }
}

proof fn lemma_sum_zeros(n: nat)
    ensures
        sum(Seq::new(n, |u: int| 0usize)) == 0,
    decreases n,
{
    let zeros = Seq::new(n, |u: int| 0usize);
    if n > 0 {
        lemma_sum_zeros((n - 1) as nat);
        assert(zeros.drop_last() =~= Seq::new((n - 1) as nat, |u: int| 0usize));
    }
}

/// Users start consistent.
pub proof fn law_users_start_consistent(users: nat, per_user: nat, now: nat)
    ensures
        users_consistent(users_started(users, per_user, now)),
{
    lemma_sum_zeros(users);
}

/// Every step keeps users consistent, as long as an answer is to an unanswered
/// message.
pub proof fn law_users_steps_keep_consistent(
    m: UsersModel,
    user: int,
    latency: u128,
    ok: bool,
    now: nat,
)
    requires
        users_consistent(m),
        m.per_user <= usize::MAX,
    ensures
        m.ready(user) ==> users_consistent(users_sent(m, user, now)),
        m.ready(user) ==> users_consistent(users_send_failed(m, user)),
        0 <= user < m.next.len() && m.inflight[user] ==> users_consistent(
            users_answered(m, user, latency, ok, now),
        ),
{
    if m.ready(user) {
        lemma_sum_update(m.next, user, m.per_user as usize);
    }
    if 0 <= user < m.next.len() && m.inflight[user] {
        assert(m.next[user] < m.per_user);
        lemma_sum_update(m.next, user, (m.next[user] + 1) as usize);
    }
}

/// A user has at most one unanswered message: while one is, none is sent.
pub proof fn law_one_unanswered_per_user(m: UsersModel, user: int, now: nat)
    requires
        m.inflight.len() == m.next.len(),
        m.ready(user),
    ensures
        !users_sent(m, user, now).ready(user),
        users_sent(m, user, now).next == m.next,
{
}

/// When consistent users are done, every user has sent all its messages, none is
/// unanswered, and each message is an error or has a latency.
pub proof fn law_users_done(m: UsersModel)
    requires
        users_consistent(m),
        m.completed >= m.total(),
    ensures
        m.completed == m.total(),
        m.errors + m.latencies.len() == m.total(),
        forall|u: int|
            0 <= u < m.next.len() ==> #[trigger] m.next[u] == m.per_user && !m.inflight[u],
{
    lemma_sum_bound(m.next, m.per_user);
    assert forall|u: int| 0 <= u < m.next.len() implies #[trigger] m.next[u] == m.per_user
        && !m.inflight[u] by {
        assert(m.next[u] == m.per_user);
        if m.inflight[u] {
            assert(m.next[u] < m.per_user);
        }
    }
}

/// When the rest is given up, too, each message is an error or has a latency.
pub proof fn law_users_given_up(m: UsersModel)
    requires
        users_consistent(m),
    ensures
        m.completed <= m.total(),
        users_given_up(m).errors + users_given_up(m).latencies.len() == m.total(),
{
    lemma_sum_bound(m.next, m.per_user);
}

/// Whether a stream is that of an unanswered request of this user.
pub open spec fn serves<B>(c: H3Model<B>, stream: u64, user: int) -> bool {
    c.starts.contains_key(stream) && c.users.contains_key(stream) && c.users[stream] == user
}

/// Whether users agree with the requests of their client. Every unanswered request, and
/// every answer in `uncounted`, those that have come and are not counted yet, is for a
/// user of its own that waits for it; and every user that waits is one of these.
pub open spec fn users_agree<B>(
    m: UsersModel,
    c: H3Model<B>,
    uncounted: Seq<H3Completion>,
) -> bool {
    &&& m.inflight.len() == m.next.len() <= usize::MAX
    &&& forall|stream: u64| #[trigger]
        c.starts.contains_key(stream) ==> c.users.contains_key(stream) && c.users[stream]
            < m.next.len() && m.inflight[c.users[stream] as int]
    &&& forall|stream: u64, other: u64|
        #![trigger c.starts.contains_key(stream), c.starts.contains_key(other)]
        c.starts.contains_key(stream) && c.starts.contains_key(other) && stream != other
            ==> c.users[stream] != c.users[other]
    &&& forall|i: int|
        0 <= i < uncounted.len() ==> (#[trigger] uncounted[i]).user < m.next.len()
            && m.inflight[uncounted[i].user as int]
    &&& forall|i: int, j: int|
        0 <= i < j < uncounted.len() ==> (#[trigger] uncounted[i]).user != (
        #[trigger] uncounted[j]).user
    &&& forall|stream: u64, i: int|
        #![trigger c.starts.contains_key(stream), uncounted[i]]
        c.starts.contains_key(stream) && 0 <= i < uncounted.len() ==> c.users[stream]
            != uncounted[i].user
    &&& forall|u: int|
        0 <= u < m.next.len() && #[trigger] m.inflight[u] ==> (exists|stream: u64|
            serves(c, stream, u)) || (exists|i: int|
            0 <= i < uncounted.len() && (#[trigger] uncounted[i]).user == u)
}

/// Users begin in agreement with a client that has no unanswered request.
pub proof fn law_users_start_agrees<B>(users: nat, per_user: nat, now: nat, c: H3Model<B>)
    requires
        users <= usize::MAX,
        forall|stream: u64| !#[trigger] c.starts.contains_key(stream),
    ensures
        users_agree(users_started(users, per_user, now), c, seq![]),
{
}

/// Users stay in agreement with their client while it sends: a message that is sent is
/// an unanswered request of its user, on a stream of its own, and one that could not be
/// sent is none.
pub proof fn law_sending_keeps_agreement<B>(
    m: UsersModel,
    c: H3Model<B>,
    uncounted: Seq<H3Completion>,
    user: usize,
    stream: u64,
    sent: u128,
    now: nat,
)
    requires
        users_agree(m, c, uncounted),
        m.ready(user as int),
    ensures
        !c.starts.contains_key(stream) ==> users_agree(
            users_sent(m, user as int, now),
            h3_opened(c, stream, user, sent),
            uncounted,
        ),
        users_agree(users_send_failed(m, user as int), c, uncounted),
{
    if !c.starts.contains_key(stream) {
        let after = users_sent(m, user as int, now);
        let opened = h3_opened(c, stream, user, sent);
        assert forall|u: int| 0 <= u < after.next.len() && #[trigger] after.inflight[u] implies (
        exists|s: u64| serves(opened, s, u)) || (exists|i: int|
            0 <= i < uncounted.len() && (#[trigger] uncounted[i]).user == u) by {
            if u == user {
                assert(serves(opened, stream, u));
            } else {
                assert(m.inflight[u]);
                if exists|s: u64| serves(c, s, u) {
                    let s = choose|s: u64| serves(c, s, u);
                    assert(serves(opened, s, u));
                }
            }
        }
    }
    let failed = users_send_failed(m, user as int);
    assert forall|u: int| 0 <= u < failed.next.len() && #[trigger] failed.inflight[u] implies (
    exists|s: u64| serves(c, s, u)) || (exists|i: int|
        0 <= i < uncounted.len() && (#[trigger] uncounted[i]).user == u) by {
        assert(m.inflight[u]);
    }
}

/// Users stay in agreement with their client while answers come: only the end of a stream
/// changes what is unanswered, and what it completes is an answer to a user that waits
/// for it.
pub proof fn law_answers_keep_agreement<B>(
    m: UsersModel,
    c: H3Model<B>,
    uncounted: Seq<H3Completion>,
    stream: u64,
    now: u128,
    status: Option<u16>,
    data: B,
    len: usize,
    written: usize,
    blocked: bool,
)
    requires
        users_agree(m, c, uncounted),
    ensures
        users_agree(m, h3_status_known(c, stream, status), uncounted),
        users_agree(m, h3_body_sent(c, stream, data, len, written, blocked), uncounted),
        users_agree(m, h3_body_progress(c, stream, written), uncounted),
        users_agree(m, h3_body_settled(c, stream), uncounted),
        match h3_completion(c, stream, now) {
            Some(answer) => {
                &&& answer.user < m.next.len() && m.inflight[answer.user as int]
                &&& users_agree(m, h3_finished(c, stream), uncounted.push(answer))
            },
            None => h3_finished(c, stream) == c,
        },
{
    lemma_same_table(m, c, h3_status_known(c, stream, status), uncounted);
    lemma_same_table(m, c, h3_body_sent(c, stream, data, len, written, blocked), uncounted);
    lemma_same_table(m, c, h3_body_progress(c, stream, written), uncounted);
    lemma_same_table(m, c, h3_body_settled(c, stream), uncounted);
    if let Some(answer) = h3_completion(c, stream, now) {
        let done = h3_finished(c, stream);
        let more = uncounted.push(answer);
        assert forall|u: int| 0 <= u < m.next.len() && #[trigger] m.inflight[u] implies (exists|
            s: u64,
        | serves(done, s, u)) || (exists|i: int|
            0 <= i < more.len() && (#[trigger] more[i]).user == u) by {
            if exists|s: u64| serves(c, s, u) {
                let s = choose|s: u64| serves(c, s, u);
                if s == stream {
                    assert(more[uncounted.len() as int].user == u);
                } else {
                    assert(serves(done, s, u));
                }
            } else {
                let i = choose|i: int|
                    0 <= i < uncounted.len() && (#[trigger] uncounted[i]).user == u;
                assert(more[i].user == u);
            }
        }
        assert forall|s: u64| #[trigger] done.starts.contains_key(s) implies done.users.contains_key(
            s,
        ) && done.users[s] < m.next.len() && m.inflight[done.users[s] as int] by {
            assert(c.starts.contains_key(s));
        }
        assert forall|s: u64, i: int|
            #![trigger done.starts.contains_key(s), more[i]]
            done.starts.contains_key(s) && 0 <= i < more.len() implies done.users[s]
            != more[i].user by {
            assert(c.starts.contains_key(s) && c.starts.contains_key(stream));
            if i < uncounted.len() {
                assert(more[i] == uncounted[i]);
            }
        }
        assert forall|i: int, j: int| 0 <= i < j < more.len() implies (#[trigger] more[i]).user != (
        #[trigger] more[j]).user by {
            assert(more[i] == uncounted[i]);
            if j < uncounted.len() {
                assert(more[j] == uncounted[j]);
            } else {
                assert(c.starts.contains_key(stream));
            }
        }
        assert forall|s: u64, t: u64|
            #![trigger done.starts.contains_key(s), done.starts.contains_key(t)]
            done.starts.contains_key(s) && done.starts.contains_key(t) && s
                != t implies done.users[s] != done.users[t] by {
            assert(c.starts.contains_key(s) && c.starts.contains_key(t));
        }
    }
}

proof fn lemma_same_table<B>(
    m: UsersModel,
    c: H3Model<B>,
    d: H3Model<B>,
    uncounted: Seq<H3Completion>,
)
    requires
        users_agree(m, c, uncounted),
        d.starts == c.starts,
        d.users == c.users,
    ensures
        users_agree(m, d, uncounted),
{
    assert forall|u: int| 0 <= u < m.next.len() && #[trigger] m.inflight[u] implies (exists|s: u64|
        serves(d, s, u)) || (exists|i: int|
        0 <= i < uncounted.len() && (#[trigger] uncounted[i]).user == u) by {
        if exists|s: u64| serves(c, s, u) {
            let s = choose|s: u64| serves(c, s, u);
            assert(serves(d, s, u));
        }
    }
}

/// Users stay in agreement with their client while answers are counted, and consistent:
/// each answer is to an unanswered message of its user.
pub proof fn law_counting_keeps_agreement<B>(
    m: UsersModel,
    c: H3Model<B>,
    uncounted: Seq<H3Completion>,
    now: nat,
)
    requires
        users_agree(m, c, uncounted),
        uncounted.len() > 0,
        m.per_user <= usize::MAX,
    ensures
        ({
            let answer = uncounted[0];
            let after = users_answered(m, answer.user as int, answer.latency, answer.ok, now);
            &&& 0 <= answer.user < m.next.len() && m.inflight[answer.user as int]
            &&& users_agree(after, c, uncounted.skip(1))
            &&& users_consistent(m) ==> users_consistent(after)
        }),
{
    let answer = uncounted[0];
    let rest = uncounted.skip(1);
    let after = users_answered(m, answer.user as int, answer.latency, answer.ok, now);
    if users_consistent(m) {
        law_users_steps_keep_consistent(m, answer.user as int, answer.latency, answer.ok, now);
    }
    assert forall|s: u64| #[trigger] c.starts.contains_key(s) implies c.users.contains_key(s)
        && c.users[s] < after.next.len() && after.inflight[c.users[s] as int] by {
        assert(c.users[s] != uncounted[0].user);
    }
    assert forall|i: int| 0 <= i < rest.len() implies (#[trigger] rest[i]).user < after.next.len()
        && after.inflight[rest[i].user as int] by {
        assert(rest[i] == uncounted[i + 1]);
        assert(uncounted[0].user != uncounted[i + 1].user);
    }
    assert forall|i: int, j: int| 0 <= i < j < rest.len() implies (#[trigger] rest[i]).user != (
    #[trigger] rest[j]).user by {
        assert(rest[i] == uncounted[i + 1] && rest[j] == uncounted[j + 1]);
    }
    assert forall|s: u64, i: int|
        #![trigger c.starts.contains_key(s), rest[i]]
        c.starts.contains_key(s) && 0 <= i < rest.len() implies c.users[s] != rest[i].user by {
        assert(rest[i] == uncounted[i + 1]);
    }
    assert forall|u: int| 0 <= u < after.next.len() && #[trigger] after.inflight[u] implies (exists|
        s: u64,
    | serves(c, s, u)) || (exists|i: int|
        0 <= i < rest.len() && (#[trigger] rest[i]).user == u) by {
        assert(m.inflight[u]);
        if !(exists|s: u64| serves(c, s, u)) {
            let i = choose|i: int| 0 <= i < uncounted.len() && (#[trigger] uncounted[i]).user == u;
            assert(i > 0);
            assert(rest[i - 1] == uncounted[i]);
        }
    }
}

/// A user has at most one unanswered request, and none while it may send: the one that
/// waits is the one whose request is unanswered.
pub proof fn law_one_request_per_user<B>(
    m: UsersModel,
    c: H3Model<B>,
    uncounted: Seq<H3Completion>,
    user: int,
    stream: u64,
    other: u64,
)
    requires
        users_agree(m, c, uncounted),
        serves(c, stream, user),
    ensures
        serves(c, other, user) ==> other == stream,
        !m.ready(user),
{
    assert(c.starts.contains_key(stream));
    if serves(c, other, user) {
        assert(c.starts.contains_key(other));
    }
}

/// When users that agree with their client are done, no request is unanswered and no
/// answer uncounted.
pub proof fn law_users_done_leave_nothing<B>(
    m: UsersModel,
    c: H3Model<B>,
    uncounted: Seq<H3Completion>,
)
    requires
        users_agree(m, c, uncounted),
        users_consistent(m),
        m.completed >= m.total(),
    ensures
        uncounted.len() == 0,
        forall|stream: u64| !#[trigger] c.starts.contains_key(stream),
{
    law_users_done(m);
    if uncounted.len() > 0 {
        assert(m.inflight[uncounted[0].user as int]);
        assert(m.next[uncounted[0].user as int] == m.per_user);
    }
    assert forall|stream: u64| !#[trigger] c.starts.contains_key(stream) by {
        if c.starts.contains_key(stream) {
            assert(m.inflight[c.users[stream] as int]);
            assert(m.next[c.users[stream] as int] == m.per_user);
        }
    }
}

// ---------------------------------------------------------------------------
// One task for each user
// ---------------------------------------------------------------------------

/// A user in a task of its own, as values.
#[verifier::ext_equal]
pub struct TaskModel {
    pub per_user: nat,
    /// How many messages have been sent.
    pub sent: nat,
    pub errors: nat,
    pub latencies: Seq<u128>,
    /// Whether a message failed, after which the user sends no more.
    pub failed: bool,
}

/// Whether a user sends another message.
pub open spec fn task_running(m: TaskModel) -> bool {
    m.sent < m.per_user && !m.failed
}

/// A message came to its end. If it failed, it and all that were to follow are
/// errors. Its latency counts either way.
pub open spec fn task_answered(m: TaskModel, latency: u128, ok: bool) -> TaskModel {
    TaskModel {
        sent: m.sent + 1,
        errors: if ok {
            m.errors
        } else {
            (m.errors + (m.per_user - m.sent)) as nat
        },
        latencies: m.latencies.push(latency),
        failed: !ok,
        ..m
    }
}

/// What holds of a task at every moment.
pub open spec fn task_valid(m: TaskModel) -> bool {
    &&& m.sent <= m.per_user
    &&& m.latencies.len() == m.sent
    &&& m.failed ==> m.sent > 0 && m.errors == m.per_user - m.sent + 1
    &&& !m.failed ==> m.errors == 0
}

/// A user in a task of its own.
#[derive(Debug)]
pub struct UserTask {
    per_user: usize,
    sent: usize,
    errors: usize,
    latencies: Vec<u128>,
    failed: bool,
}

impl View for UserTask {
    type V = TaskModel;

    closed spec fn view(&self) -> TaskModel {
        TaskModel {
            per_user: self.per_user as nat,
            sent: self.sent as nat,
            errors: self.errors as nat,
            latencies: self.latencies@,
            failed: self.failed,
        }
    }
}

impl UserTask {
    /// A user that has not sent anything.
    pub fn start(per_user: usize) -> (r: UserTask)
        ensures
            task_valid(r@),
            r@ == (TaskModel {
                per_user: per_user as nat,
                sent: 0,
                errors: 0,
                latencies: seq![],
                failed: false,
            }),
    {
        UserTask { per_user, sent: 0, errors: 0, latencies: Vec::new(), failed: false }
    }

    /// The number of the message that is sent next, if one is.
    pub fn next_message(&self) -> (r: Option<usize>)
        ensures
            r == if task_running(self@) {
                Some(self@.sent as usize)
            } else {
                None
            },
    {
        if self.sent < self.per_user && !self.failed {
            Some(self.sent)
        } else {
            None
        }
    }

    /// A message came to its end.
    pub fn on_answer(&mut self, latency: u128, ok: bool)
        requires
            task_valid(old(self)@),
            task_running(old(self)@),
        ensures
            task_valid(final(self)@),
            final(self)@ == task_answered(old(self)@, latency, ok),
    {
        if !ok {
            self.errors = self.errors + (self.per_user - self.sent);
            self.failed = true;
        }
        self.sent = self.sent + 1;
        self.latencies.push(latency);
    }

    /// The latencies, and the number of errors.
    pub fn finish(self) -> (r: (Vec<u128>, usize))
        ensures
            r.0@ == self@.latencies,
            r.1 == self@.errors,
    {
        (self.latencies, self.errors)
    }
}

/// A user that is done accounts for each of its messages: those that were answered
/// have a latency, the others are errors, and a message that failed is both.
pub proof fn law_task_done(m: TaskModel)
    requires
        task_valid(m),
        !task_running(m),
    ensures
        m.failed ==> m.errors + m.latencies.len() == m.per_user + 1,
        !m.failed ==> m.errors == 0 && m.latencies.len() == m.per_user,
{
}

/// What the tasks of all users came to.
#[derive(Debug)]
pub struct TaskTotals {
    pub latencies: Vec<u128>,
    pub errors: usize,
}

impl TaskTotals {
    /// No task yet.
    pub fn start() -> (r: TaskTotals)
        ensures
            r.latencies@ == Seq::<u128>::empty(),
            r.errors == 0,
    {
        TaskTotals { latencies: Vec::new(), errors: 0 }
    }

    /// Adds what one task came to.
    pub fn join(&mut self, worker: (Vec<u128>, usize))
        requires
            old(self).errors + worker.1 <= usize::MAX,
        ensures
            final(self).latencies@ == old(self).latencies@ + worker.0@,
            final(self).errors == old(self).errors + worker.1,
    {
        let mut latencies = worker.0;
        self.latencies.append(&mut latencies);
        self.errors = self.errors + worker.1;
    }
}

// ---------------------------------------------------------------------------
// What the answers add up to
// ---------------------------------------------------------------------------

/// What happens to the users of a loop.
pub enum UsersEvent {
    /// A message of this user was sent at this time.
    Sent(int, nat),
    /// No message of this user can be sent any more.
    SendFailed(int),
    /// A message of this user was answered so late, well or not, at this time.
    Answered(int, u128, bool, nat),
}

/// The users after something happened.
pub open spec fn users_after(m: UsersModel, e: UsersEvent) -> UsersModel {
    match e {
        UsersEvent::Sent(user, now) => users_sent(m, user, now),
        UsersEvent::SendFailed(user) => users_send_failed(m, user),
        UsersEvent::Answered(user, latency, ok, now) => users_answered(m, user, latency, ok, now),
    }
}

/// The users after all that happened, in its order.
pub open spec fn users_run(m: UsersModel, events: Seq<UsersEvent>) -> UsersModel {
    events.fold_left(m, |m: UsersModel, e: UsersEvent| users_after(m, e))
}

/// Whether something happens to one of so many users; an answer may come to no user.
pub open spec fn of_users(e: UsersEvent, users: nat) -> bool {
    match e {
        UsersEvent::Sent(user, _) => 0 <= user < users,
        UsersEvent::SendFailed(user) => 0 <= user < users,
        UsersEvent::Answered(_, _, _, _) => true,
    }
}

/// The latencies of the good answers, in their order.
pub open spec fn good_latencies(events: Seq<UsersEvent>) -> Seq<u128> {
    events.filter(|e: UsersEvent| e is Answered && e->Answered_2).map_values(
        |e: UsersEvent| e->Answered_1,
    )
}

/// How many messages of a user were answered.
pub open spec fn answers_to(events: Seq<UsersEvent>, user: int) -> nat {
    events.filter(|e: UsersEvent| e is Answered && e->Answered_0 == user).len()
}

/// Whatever happens, the latencies are those of exactly the good answers, as they were
/// measured and in the order in which they were counted. As long as every message can be
/// sent, as many are over as answers came, and as many are errors as bad ones did.
pub proof fn law_users_add_up(m: UsersModel, events: Seq<UsersEvent>)
    requires
        m.inflight.len() == m.next.len(),
        forall|i: int| 0 <= i < events.len() ==> of_users(#[trigger] events[i], m.next.len()),
    ensures
        ({
            let r = users_run(m, events);
            let answers = events.filter(|e: UsersEvent| e is Answered);
            let bad = events.filter(|e: UsersEvent| e is Answered && !e->Answered_2);
            let sendable = events.filter(|e: UsersEvent| e is SendFailed).len() == 0;
            &&& r.latencies == m.latencies + good_latencies(events)
            &&& sendable ==> r.completed == m.completed + answers.len()
            &&& sendable ==> r.errors == m.errors + bad.len()
            &&& r.per_user == m.per_user && r.next.len() == m.next.len()
            &&& r.inflight.len() == m.inflight.len()
        }),
    decreases events.len(),
{
    reveal(Seq::filter);
    reveal_with_fuel(Seq::fold_left, 2);
    let r = users_run(m, events);
    if events.len() == 0 {
        assert(good_latencies(events) =~= Seq::<u128>::empty());
        assert(r.latencies =~= m.latencies + good_latencies(events));
    } else {
        let rest = events.drop_last();
        let e = events[events.len() - 1];
        assert forall|i: int| 0 <= i < rest.len() implies of_users(
            #[trigger] rest[i],
            m.next.len(),
        ) by {
            assert(rest[i] == events[i]);
        }
        law_users_add_up(m, rest);
        assert(r == users_after(users_run(m, rest), e));
        let p = |e: UsersEvent| e is Answered && e->Answered_2;
        if p(e) {
            assert(events.filter(p) =~= rest.filter(p).push(e));
            assert(good_latencies(events) =~= good_latencies(rest).push(e->Answered_1));
        } else {
            assert(events.filter(p) =~= rest.filter(p));
        }
        assert(r.latencies =~= m.latencies + good_latencies(events));
    }
}

/// A user whose messages can be sent has moved on by one message for each answer to it, and
/// by no answer to another.
pub proof fn law_user_moves_on(m: UsersModel, events: Seq<UsersEvent>, user: int)
    requires
        0 <= user < m.next.len(),
        m.next[user] + events.len() <= usize::MAX,
        forall|i: int| 0 <= i < events.len() ==> #[trigger] events[i] != UsersEvent::SendFailed(
            user,
        ),
        forall|i: int| 0 <= i < events.len() ==> of_users(#[trigger] events[i], m.next.len()),
    ensures
        users_run(m, events).next.len() == m.next.len(),
        users_run(m, events).next[user] == m.next[user] + answers_to(events, user),
        answers_to(events, user) <= events.len(),
    decreases events.len(),
{
    reveal(Seq::filter);
    reveal_with_fuel(Seq::fold_left, 2);
    if events.len() > 0 {
        let rest = events.drop_last();
        assert forall|i: int| 0 <= i < rest.len() implies #[trigger] rest[i]
            != UsersEvent::SendFailed(user) && of_users(rest[i], m.next.len()) by {
            assert(rest[i] == events[i]);
        }
        law_user_moves_on(m, rest, user);
        assert(events[events.len() - 1] == events.last());
        assert(users_run(m, events) == users_after(users_run(m, rest), events.last()));
    }
}

/// What happens to one user. A message that is sent is unanswered, and its answer makes
/// room for the next one; a user who can send no more is done, and each message that was
/// left is over and an error. Nothing changes for another user.
pub proof fn law_users_are_apart(
    m: UsersModel,
    user: int,
    other: int,
    latency: u128,
    ok: bool,
    now: nat,
)
    requires
        m.inflight.len() == m.next.len(),
        0 <= user < m.next.len(),
        0 <= other < m.next.len(),
        m.next[user] < m.per_user <= usize::MAX,
    ensures
        ({
            let sent = users_sent(m, user, now);
            let failed = users_send_failed(m, user);
            let answered = users_answered(m, user, latency, ok, now);
            &&& sent.inflight[user] && sent.next == m.next && sent.last_progress == now
            &&& sent.completed == m.completed && sent.errors == m.errors
            &&& failed.next[user] == m.per_user && !failed.inflight[user]
            &&& failed.errors - m.errors == m.per_user - m.next[user]
            &&& failed.completed - m.completed == m.per_user - m.next[user]
            &&& failed.last_progress == m.last_progress && failed.latencies == m.latencies
            &&& answered.next[user] == m.next[user] + 1 && !answered.inflight[user]
            &&& answered.completed == m.completed + 1 && answered.last_progress == now
            &&& answered.errors == m.errors + if ok {
                0int
            } else {
                1int
            }
            &&& other != user ==> {
                &&& sent.inflight[other] == m.inflight[other]
                &&& failed.inflight[other] == m.inflight[other]
                &&& failed.next[other] == m.next[other]
                &&& answered.inflight[other] == m.inflight[other]
                &&& answered.next[other] == m.next[other]
            }
        }),
{
}

/// Every user begins with no message sent, and nothing counted.
pub proof fn law_users_begin(users: nat, per_user: nat, now: nat, user: int)
    ensures
        ({
            let m = users_started(users, per_user, now);
            &&& m.next.len() == users && m.inflight.len() == users
            &&& 0 <= user < users ==> m.next[user] == 0 && !m.inflight[user]
            &&& m.completed == 0 && m.errors == 0 && m.latencies.len() == 0
            &&& m.last_progress == now && m.per_user == per_user
            &&& m.total() == users * per_user
            &&& measurable(users, per_user) <==> users * per_user <= isize::MAX as int / 16
        }),
{
}

/// Which user sends next: in a round that goes on, the first one from where it stands who
/// has a message left and none unanswered, and it is the message that comes next. A round
/// begins with the first user, as long as messages are left; the loop gives up after half a
/// minute without progress, which it looks for once answers were waited for.
pub proof fn law_users_step_when(m: UsersModel, phase: UsersPhase, now: nat)
    requires
        m.next.len() <= usize::MAX,
        m.inflight.len() == m.next.len(),
    ensures
        ({
            let (after, step) = users_step(m, phase, now);
            let lost = phase == UsersPhase::Driven && now - m.last_progress > 30_000_000_000;
            let round = phase == UsersPhase::RoundStart || phase == UsersPhase::Driven;
            let over = round && m.completed >= m.next.len() * m.per_user;
            let from = match phase {
                UsersPhase::Sending(user) => user as int,
                _ => 0,
            };
            &&& step is GiveUp <==> lost
            &&& step is Stop <==> over && !lost
            &&& step is Send <==> !lost && !over && phase != UsersPhase::Blocked && exists|u: int|
                from <= u < m.next.len() && !#[trigger] m.inflight[u] && m.next[u] < m.per_user
            &&& step is Drive ==> after == UsersPhase::Driven
            &&& step matches UsersStep::Send(user, message) ==> {
                &&& from <= user < m.next.len()
                &&& !m.inflight[user as int] && m.next[user as int] < m.per_user
                &&& message == m.next[user as int]
                &&& forall|u: int|
                    from <= u < user ==> #[trigger] m.inflight[u] || m.next[u] >= m.per_user
                &&& after matches UsersPhase::Sending(next) && next == user + 1
            }
        }),
{
    let from: nat = match phase {
        UsersPhase::Sending(user) => user as nat,
        _ => 0,
    };
    lemma_first_ready(m, from);
    let first = first_ready(m, from);
    assert forall|u: int| from <= u < m.next.len() && !#[trigger] m.inflight[u] && m.next[u]
        < m.per_user implies m.ready(u) && first <= u by {
        assert(m.ready(u));
    }
    if first < m.next.len() {
        assert(m.ready(first as int));
        assert(!m.inflight[first as int]);
        assert forall|u: int| from <= u < first implies #[trigger] m.inflight[u] || m.next[u]
            >= m.per_user by {
            assert(!m.ready(u));
        }
    }
}

/// A task after its answers.
pub open spec fn task_run(m: TaskModel, answers: Seq<(u128, bool)>) -> TaskModel {
    answers.fold_left(m, |m: TaskModel, answer: (u128, bool)| task_answered(m, answer.0, answer.1))
}

/// The task of a user has the latency of every answer, in their order, and goes on until
/// the last message or the first bad answer: that one, and every message that is not sent
/// because of it, is an error.
pub proof fn law_task_adds_up(per_user: nat, answers: Seq<(u128, bool)>)
    requires
        answers.len() <= per_user,
        forall|i: int| 0 <= i < answers.len() - 1 ==> (#[trigger] answers[i]).1,
    ensures
        ({
            let start = TaskModel {
                per_user,
                sent: 0,
                errors: 0,
                latencies: seq![],
                failed: false,
            };
            let r = task_run(start, answers);
            let stopped = answers.len() > 0 && !answers.last().1;
            &&& r.latencies == answers.map_values(|answer: (u128, bool)| answer.0)
            &&& r.sent == answers.len() && r.per_user == per_user
            &&& stopped ==> r.errors == per_user - (answers.len() - 1)
            &&& !stopped ==> r.errors == 0
            &&& task_running(r) <==> !stopped && answers.len() < per_user
        }),
    decreases answers.len(),
{
    reveal_with_fuel(Seq::fold_left, 2);
    let start = TaskModel { per_user, sent: 0, errors: 0, latencies: seq![], failed: false };
    let f = |answer: (u128, bool)| answer.0;
    if answers.len() == 0 {
        assert(start.latencies =~= answers.map_values(f));
    } else {
        let rest = answers.drop_last();
        assert forall|i: int| 0 <= i < rest.len() - 1 implies (#[trigger] rest[i]).1 by {
            assert(rest[i] == answers[i]);
        }
        law_task_adds_up(per_user, rest);
        if rest.len() > 0 {
            assert(rest.last() == answers[answers.len() - 2]);
        }
        assert(answers.map_values(f) =~= rest.map_values(f).push(answers.last().0));
    }
}

/// A loop that is given up keeps the latencies that it has, and every message that is not over
/// is one more error.
pub proof fn law_users_given_up_counts(m: UsersModel)
    requires
        m.completed <= m.next.len() * m.per_user,
    ensures
        users_given_up(m).latencies == m.latencies,
        users_given_up(m).errors + m.completed == m.errors + m.next.len() * m.per_user,
{
}

} // verus!
