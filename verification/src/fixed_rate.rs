//! Sending requests at a fixed rate: when the next one is due, how long to wait,
//! and what the answers add up to. Times are nanoseconds on one clock.
use crate::h3::{
    h3_body_progress, h3_body_sent, h3_body_settled, h3_completion, h3_finished, h3_opened,
    h3_status_known, law_inflight, H3Model,
};
use vstd::prelude::*;

verus! {

/// A millisecond.
pub const MILLISECOND: u128 = 1_000_000;

/// A second.
pub const SECOND: u128 = 1_000_000_000;

/// How long a trial may go without progress.
pub const PATIENCE: u128 = 30_000_000_000;

/// What no clock reaches: 2^64 seconds.
pub const CLOCK_LIMIT: u128 = 18_446_744_073_709_551_616_000_000_000;

/// A trial at a fixed rate, as values.
#[verifier::ext_equal]
pub struct RateModel {
    /// How many requests are to be sent.
    pub scheduled: nat,
    /// The time between two requests.
    pub interval: nat,
    /// How many requests may be unanswered at once.
    pub max_inflight: nat,
    /// When the trial began.
    pub started: nat,
    /// When the last request should have been sent.
    pub deadline: nat,
    /// When the next request is due.
    pub next_send: nat,
    pub sent: nat,
    /// How many requests could not be sent.
    pub failed_sends: nat,
    pub completed: nat,
    pub successes: nat,
    pub errors: nat,
    pub latencies: Seq<u128>,
    /// When something last went on.
    pub last_progress: nat,
}

/// What holds at every moment of a trial.
pub open spec fn rate_valid(m: RateModel) -> bool {
    &&& m.sent <= m.scheduled
    &&& m.next_send == m.started + m.sent * m.interval
    &&& m.completed <= m.sent
    &&& m.failed_sends <= m.sent
    &&& m.successes + m.errors == m.completed + m.failed_sends
    &&& m.successes <= m.completed
    &&& m.latencies.len() <= m.completed
    &&& m.max_inflight > 0
}

/// A trial that has just begun.
pub open spec fn rate_started(
    scheduled: nat,
    interval: nat,
    max_inflight: nat,
    duration: nat,
    now: nat,
) -> RateModel {
    RateModel {
        scheduled,
        interval,
        max_inflight,
        started: now,
        deadline: now + duration,
        next_send: now,
        sent: 0,
        failed_sends: 0,
        completed: 0,
        successes: 0,
        errors: 0,
        latencies: seq![],
        last_progress: now,
    }
}

/// Whether a trial goes on while `inflight` requests are unanswered.
pub open spec fn rate_running(m: RateModel, inflight: nat) -> bool {
    m.sent < m.scheduled || inflight > 0
}

/// Whether a request may be sent.
pub open spec fn rate_may_send(m: RateModel, now: nat, inflight: nat) -> bool {
    m.sent < m.scheduled && now >= m.next_send && inflight < m.max_inflight
}

/// A request was sent.
pub open spec fn rate_sent(m: RateModel, now: nat) -> RateModel {
    RateModel {
        sent: m.sent + 1,
        next_send: m.next_send + m.interval,
        last_progress: now,
        ..m
    }
}

/// A request could not be sent: it counts as sent, and as an error.
pub open spec fn rate_send_failed(m: RateModel, now: nat) -> RateModel {
    RateModel {
        failed_sends: m.failed_sends + 1,
        errors: m.errors + 1,
        ..rate_sent(m, now)
    }
}

/// A request came to its end. Its latency is known unless its task was lost.
pub open spec fn rate_answered(
    m: RateModel,
    now: nat,
    latency: Option<u128>,
    ok: bool,
) -> RateModel {
    RateModel {
        completed: m.completed + 1,
        successes: if ok {
            m.successes + 1
        } else {
            m.successes
        },
        errors: if ok {
            m.errors
        } else {
            m.errors + 1
        },
        latencies: match latency {
            Some(t) => m.latencies.push(t),
            None => m.latencies,
        },
        last_progress: now,
        ..m
    }
}

/// Whether nothing has gone on for too long.
pub open spec fn rate_stalled(m: RateModel, now: nat) -> bool {
    now > m.last_progress + PATIENCE
}

/// The trial is given up: every request without an answer is an error.
pub open spec fn rate_given_up(m: RateModel) -> RateModel {
    RateModel { errors: (m.errors + (m.scheduled - m.completed)) as nat, ..m }
}

/// When the next request is due, but no later than the deadline.
pub open spec fn rate_next(m: RateModel) -> nat {
    if m.next_send <= m.deadline {
        m.next_send
    } else {
        m.deadline
    }
}

/// How long a readiness loop waits for packets.
pub open spec fn rate_poll_timeout(m: RateModel, now: nat, inflight: nat) -> nat {
    if m.sent < m.scheduled && inflight < m.max_inflight {
        if rate_next(m) > now {
            (rate_next(m) - now) as nat
        } else {
            0
        }
    } else {
        MILLISECOND as nat
    }
}

/// Where a readiness loop is in its round: requests are sent while they may be, then
/// packets are waited for.
#[derive(Debug, Clone, Copy, PartialEq, Eq, Structural)]
pub enum RatePhase {
    /// A round begins.
    RoundStart,
    /// Requests are being sent.
    Sending,
    /// The connection took no more requests in this round.
    Blocked,
    /// Packets were waited for.
    Polled,
}

/// What a readiness loop does next.
#[derive(Debug, Clone, Copy, PartialEq, Eq, Structural)]
pub enum RateStep {
    /// Sends a request for this user.
    Send(usize),
    /// Waits this long for packets, and counts the answers that they bring.
    Poll(u128),
    /// Ends the trial.
    Stop,
    /// Gives the trial up.
    GiveUp,
}

/// What is done while requests are being sent.
pub open spec fn rate_sending(m: RateModel, now: nat, inflight: nat) -> (RatePhase, RateStep) {
    if rate_may_send(m, now, inflight) {
        (RatePhase::Sending, RateStep::Send((m.sent % m.max_inflight) as usize))
    } else {
        (RatePhase::Polled, RateStep::Poll(rate_poll_timeout(m, now, inflight) as u128))
    }
}

/// What is done when a round begins.
pub open spec fn rate_round(m: RateModel, now: nat, inflight: nat) -> (RatePhase, RateStep) {
    if rate_running(m, inflight) {
        rate_sending(m, now, inflight)
    } else {
        (RatePhase::RoundStart, RateStep::Stop)
    }
}

/// What a readiness loop does next, and where in its round it is then.
pub open spec fn rate_step(m: RateModel, phase: RatePhase, now: nat, inflight: nat) -> (
    RatePhase,
    RateStep,
) {
    match phase {
        RatePhase::RoundStart => rate_round(m, now, inflight),
        RatePhase::Sending => rate_sending(m, now, inflight),
        RatePhase::Blocked => (
            RatePhase::Polled,
            RateStep::Poll(rate_poll_timeout(m, now, inflight) as u128),
        ),
        RatePhase::Polled => if rate_stalled(m, now) {
            (RatePhase::Polled, RateStep::GiveUp)
        } else {
            rate_round(m, now, inflight)
        },
    }
}

/// What a task loop does next.
#[derive(Debug, Clone, Copy, PartialEq, Eq, Structural)]
pub enum TaskStep {
    /// Sends a request.
    Send,
    /// Nothing: the trial is over.
    Finished,
    /// An answer alone.
    Answer,
    /// An answer, or this time.
    AnswerUntil(u128),
    /// This time.
    Until(u128),
}

/// What a task loop does next: it sends while it may, and waits for an answer or for
/// the next request to be due otherwise.
pub open spec fn rate_task_step(m: RateModel, now: nat, inflight: nat) -> TaskStep {
    if rate_may_send(m, now, inflight) {
        TaskStep::Send
    } else if m.sent >= m.scheduled {
        if inflight == 0 {
            TaskStep::Finished
        } else {
            TaskStep::Answer
        }
    } else if inflight == 0 {
        TaskStep::Until(m.next_send as u128)
    } else if inflight < m.max_inflight {
        TaskStep::AnswerUntil(rate_next(m) as u128)
    } else {
        TaskStep::AnswerUntil((now + MILLISECOND) as u128)
    }
}

/// A trial at a fixed rate.
#[derive(Debug)]
pub struct FixedRate {
    scheduled: usize,
    interval: u128,
    max_inflight: usize,
    started: u128,
    deadline: u128,
    next_send: u128,
    sent: usize,
    failed_sends: usize,
    completed: usize,
    successes: usize,
    errors: usize,
    latencies: Vec<u128>,
    last_progress: u128,
    phase: RatePhase,
}

impl View for FixedRate {
    type V = RateModel;

    closed spec fn view(&self) -> RateModel {
        RateModel {
            scheduled: self.scheduled as nat,
            interval: self.interval as nat,
            max_inflight: self.max_inflight as nat,
            started: self.started as nat,
            deadline: self.deadline as nat,
            next_send: self.next_send as nat,
            sent: self.sent as nat,
            failed_sends: self.failed_sends as nat,
            completed: self.completed as nat,
            successes: self.successes as nat,
            errors: self.errors as nat,
            latencies: self.latencies@,
            last_progress: self.last_progress as nat,
        }
    }
}

/// How many requests a rate makes in so many seconds.
pub open spec fn schedule(target_pps: nat, seconds: nat) -> nat {
    target_pps * seconds
}

/// Whether the latency of every scheduled request, in sixteen bytes, fits in
/// memory.
pub open spec fn schedulable(target_pps: nat, seconds: nat) -> bool {
    schedule(target_pps, seconds) * 16 <= isize::MAX
}

impl FixedRate {
    /// Where in its round a readiness loop is.
    pub closed spec fn phase(self) -> RatePhase {
        self.phase
    }

    /// Whether the counts agree with one another and fit in the machine.
    pub closed spec fn valid(self) -> bool {
        &&& rate_valid(self@)
        &&& self.scheduled * 16 <= isize::MAX
        &&& self.interval <= SECOND
        &&& self.started < CLOCK_LIMIT
    }

    /// Begins a trial; none where there are too many requests to keep the
    /// latencies of.
    pub fn start(
        target_pps: usize,
        seconds: u64,
        interval: u128,
        max_inflight: usize,
        now: u128,
    ) -> (r: Option<FixedRate>)
        requires
            interval <= SECOND,
            max_inflight > 0,
            now < CLOCK_LIMIT,
        ensures
            match r {
                Some(rate) => {
                    &&& schedulable(target_pps as nat, seconds as nat)
                    &&& rate.valid()
                    &&& rate.phase() == RatePhase::RoundStart
                    &&& rate@ == rate_started(
                        schedule(target_pps as nat, seconds as nat),
                        interval as nat,
                        max_inflight as nat,
                        (seconds * SECOND) as nat,
                        now as nat,
                    )
                },
                None => !schedulable(target_pps as nat, seconds as nat),
            },
    {
        assert(target_pps * seconds <= 0xffff_ffff_ffff_ffff * 0xffff_ffff_ffff_ffff)
            by (nonlinear_arith)
            requires
                0 <= target_pps <= 0xffff_ffff_ffff_ffff,
                0 <= seconds <= 0xffff_ffff_ffff_ffff,
        ;
        let scheduled: u128 = target_pps as u128 * seconds as u128;
        if scheduled > isize::MAX as u128 / 16 {
            return None;
        }
        let rate = FixedRate {
            scheduled: scheduled as usize,
            interval,
            max_inflight,
            started: now,
            deadline: now + seconds as u128 * SECOND,
            next_send: now,
            sent: 0,
            failed_sends: 0,
            completed: 0,
            successes: 0,
            errors: 0,
            latencies: Vec::new(),
            last_progress: now,
            phase: RatePhase::RoundStart,
        };
        assert(rate@.latencies =~= seq![]);
        assert(0 * interval == 0);
        Some(rate)
    }

    fn may_send(&self, now: u128, inflight: usize) -> (r: bool)
        ensures
            r == rate_may_send(self@, now as nat, inflight as nat),
    {
        self.sent < self.scheduled && now >= self.next_send && inflight < self.max_inflight
    }

    fn sending(&mut self, now: u128, inflight: usize) -> (r: RateStep)
        requires
            old(self).valid(),
        ensures
            final(self).valid(),
            final(self)@ == old(self)@,
            (final(self).phase(), r) == rate_sending(old(self)@, now as nat, inflight as nat),
    {
        if self.may_send(now, inflight) {
            self.phase = RatePhase::Sending;
            RateStep::Send(self.sent % self.max_inflight)
        } else {
            self.phase = RatePhase::Polled;
            RateStep::Poll(self.poll_timeout(now, inflight))
        }
    }

    fn round(&mut self, now: u128, inflight: usize) -> (r: RateStep)
        requires
            old(self).valid(),
        ensures
            final(self).valid(),
            final(self)@ == old(self)@,
            (final(self).phase(), r) == rate_round(old(self)@, now as nat, inflight as nat),
    {
        if self.sent < self.scheduled || inflight > 0 {
            self.sending(now, inflight)
        } else {
            self.phase = RatePhase::RoundStart;
            RateStep::Stop
        }
    }

    /// What a readiness loop does next.
    pub fn step(&mut self, now: u128, inflight: usize) -> (r: RateStep)
        requires
            old(self).valid(),
        ensures
            final(self).valid(),
            final(self)@ == old(self)@,
            (final(self).phase(), r) == rate_step(
                old(self)@,
                old(self).phase(),
                now as nat,
                inflight as nat,
            ),
    {
        match self.phase {
            RatePhase::RoundStart => self.round(now, inflight),
            RatePhase::Sending => self.sending(now, inflight),
            RatePhase::Blocked => {
                self.phase = RatePhase::Polled;
                RateStep::Poll(self.poll_timeout(now, inflight))
            },
            RatePhase::Polled => if now > self.last_progress && now - self.last_progress
                > PATIENCE {
                RateStep::GiveUp
            } else {
                self.round(now, inflight)
            },
        }
    }

    /// The connection took no more requests in this round.
    pub fn on_blocked(&mut self)
        requires
            old(self).valid(),
        ensures
            final(self).valid(),
            final(self)@ == old(self)@,
            final(self).phase() == RatePhase::Blocked,
    {
        self.phase = RatePhase::Blocked;
    }

    /// Whether a request is still to be sent.
    pub fn unsent(&self) -> (r: bool)
        ensures
            r == (self@.sent < self@.scheduled),
    {
        self.sent < self.scheduled
    }

    /// A request was sent.
    pub fn on_sent(&mut self, now: u128)
        requires
            old(self).valid(),
            old(self)@.sent < old(self)@.scheduled,
        ensures
            final(self).valid(),
            final(self)@ == rate_sent(old(self)@, now as nat),
            final(self).phase() == old(self).phase(),
    {
        proof {
            lemma_pace(self.sent as nat, self.interval as nat);
        }
        self.sent = self.sent + 1;
        self.next_send = self.next_send + self.interval;
        self.last_progress = now;
    }

    /// A request could not be sent.
    pub fn on_send_failed(&mut self, now: u128)
        requires
            old(self).valid(),
            old(self)@.sent < old(self)@.scheduled,
        ensures
            final(self).valid(),
            final(self)@ == rate_send_failed(old(self)@, now as nat),
            final(self).phase() == old(self).phase(),
    {
        self.on_sent(now);
        self.failed_sends = self.failed_sends + 1;
        self.errors = self.errors + 1;
    }

    /// Whether an answer is still to come.
    pub fn awaits_answer(&self) -> (r: bool)
        ensures
            r == (self@.completed < self@.sent),
    {
        self.completed < self.sent
    }

    /// A request came to its end.
    pub fn on_answer(&mut self, now: u128, latency: Option<u128>, ok: bool)
        requires
            old(self).valid(),
            old(self)@.completed < old(self)@.sent,
        ensures
            final(self).valid(),
            final(self)@ == rate_answered(old(self)@, now as nat, latency, ok),
            final(self).phase() == old(self).phase(),
    {
        self.completed = self.completed + 1;
        if ok {
            self.successes = self.successes + 1;
        } else {
            self.errors = self.errors + 1;
        }
        match latency {
            Some(t) => {
                self.latencies.push(t);
            },
            None => {},
        }
        self.last_progress = now;
    }

    /// Gives the trial up, and returns its counts.
    pub fn give_up(self) -> (r: RateCounts)
        requires
            self.valid(),
        ensures
            counts_of(r, rate_given_up(self@)),
    {
        let missing: usize = self.scheduled - self.completed;
        RateCounts {
            scheduled_requests: self.scheduled,
            sent_requests: self.sent,
            completed_requests: self.completed,
            successes: self.successes,
            errors: self.errors + missing,
            latencies: self.latencies,
        }
    }

    /// Ends the trial, and returns its counts.
    pub fn finish(self) -> (r: RateCounts)
        ensures
            counts_of(r, self@),
    {
        RateCounts {
            scheduled_requests: self.scheduled,
            sent_requests: self.sent,
            completed_requests: self.completed,
            successes: self.successes,
            errors: self.errors,
            latencies: self.latencies,
        }
    }

    fn next(&self) -> (r: u128)
        ensures
            r == rate_next(self@),
    {
        if self.next_send <= self.deadline {
            self.next_send
        } else {
            self.deadline
        }
    }

    fn poll_timeout(&self, now: u128, inflight: usize) -> (r: u128)
        ensures
            r == rate_poll_timeout(self@, now as nat, inflight as nat),
    {
        if self.sent < self.scheduled && inflight < self.max_inflight {
            let next: u128 = self.next();
            if next > now {
                next - now
            } else {
                0
            }
        } else {
            MILLISECOND
        }
    }

    /// What a task loop does next.
    pub fn task_step(&self, now: u128, inflight: usize) -> (r: TaskStep)
        requires
            now < CLOCK_LIMIT,
        ensures
            r == rate_task_step(self@, now as nat, inflight as nat),
    {
        if self.may_send(now, inflight) {
            TaskStep::Send
        } else if self.sent >= self.scheduled {
            if inflight == 0 {
                TaskStep::Finished
            } else {
                TaskStep::Answer
            }
        } else if inflight == 0 {
            TaskStep::Until(self.next_send)
        } else if inflight < self.max_inflight {
            TaskStep::AnswerUntil(self.next())
        } else {
            TaskStep::AnswerUntil(now + MILLISECOND)
        }
    }
}

/// What a trial came to.
#[derive(Debug)]
pub struct RateCounts {
    pub scheduled_requests: usize,
    pub sent_requests: usize,
    pub completed_requests: usize,
    pub successes: usize,
    pub errors: usize,
    pub latencies: Vec<u128>,
}

/// Whether `counts` are those of a trial.
pub open spec fn counts_of(counts: RateCounts, m: RateModel) -> bool {
    &&& counts.scheduled_requests == m.scheduled
    &&& counts.sent_requests == m.sent
    &&& counts.completed_requests == m.completed
    &&& counts.successes == m.successes
    &&& counts.errors == m.errors
    &&& counts.latencies@ == m.latencies
}

proof fn lemma_pace(sent: nat, interval: nat)
    ensures
        (sent + 1) * interval == sent * interval + interval,
        interval <= SECOND ==> sent * interval <= sent * SECOND,
{
    assert((sent + 1) * interval == sent * interval + interval) by (nonlinear_arith);
    if interval <= SECOND {
        assert(sent * interval <= sent * 1_000_000_000) by (nonlinear_arith)
            requires
                interval <= 1_000_000_000,
        ;
    }
}

/// No request is sent before its time, none beyond the schedule, and none while as
/// many are unanswered as may be.
pub proof fn law_pacing(m: RateModel, now: nat, inflight: nat)
    requires
        rate_valid(m),
        rate_may_send(m, now, inflight),
    ensures
        now >= m.started + m.sent * m.interval,
        rate_sent(m, now).sent <= m.scheduled,
        inflight + 1 <= m.max_inflight,
{
}

/// Whatever happens, the counts agree: every step keeps them valid.
pub proof fn law_rate_steps_keep_valid(m: RateModel, now: nat, latency: Option<u128>, ok: bool)
    requires
        rate_valid(m),
    ensures
        m.sent < m.scheduled ==> rate_valid(rate_sent(m, now)),
        m.sent < m.scheduled ==> rate_valid(rate_send_failed(m, now)),
        m.completed < m.sent ==> rate_valid(rate_answered(m, now, latency, ok)),
{
    lemma_pace(m.sent, m.interval);
}

/// Whether a trial agrees with the requests that are unanswered: every request that was
/// sent is answered, could not be sent, or is one of `inflight` or of the `uncounted`
/// whose answers are not counted yet.
pub open spec fn rate_accounts(m: RateModel, inflight: nat, uncounted: nat) -> bool {
    &&& rate_valid(m)
    &&& m.completed + m.failed_sends + uncounted + inflight == m.sent
}

/// A trial begins in agreement, with nothing unanswered.
pub proof fn law_rate_start_accounts(
    scheduled: nat,
    interval: nat,
    max_inflight: nat,
    duration: nat,
    now: nat,
)
    requires
        max_inflight > 0,
    ensures
        rate_accounts(rate_started(scheduled, interval, max_inflight, duration, now), 0, 0),
{
    assert(0 * interval == 0) by (nonlinear_arith);
}

/// Every step of a trial keeps it in agreement with the requests that are unanswered:
/// one that is sent is unanswered, one that cannot be sent is not, and an answer that is
/// counted has come.
pub proof fn law_rate_steps_keep_accounts(
    m: RateModel,
    inflight: nat,
    uncounted: nat,
    now: nat,
    latency: Option<u128>,
    ok: bool,
)
    requires
        rate_accounts(m, inflight, uncounted),
    ensures
        m.sent < m.scheduled ==> rate_accounts(rate_sent(m, now), inflight + 1, uncounted),
        m.sent < m.scheduled ==> rate_accounts(rate_send_failed(m, now), inflight, uncounted),
        inflight > 0 ==> rate_accounts(m, (inflight - 1) as nat, uncounted + 1),
        uncounted > 0 ==> rate_accounts(
            rate_answered(m, now, latency, ok),
            inflight,
            (uncounted - 1) as nat,
        ),
{
    lemma_pace(m.sent, m.interval);
}

/// Whether a trial agrees with the requests of its client, of whose answers `uncounted`
/// are not counted yet.
pub open spec fn rate_agrees<B>(m: RateModel, c: H3Model<B>, uncounted: nat) -> bool {
    c.starts.dom().finite() && rate_accounts(m, c.starts.len(), uncounted)
}

/// Whatever happens, a trial agrees with the requests of its client: a request that is sent
/// is unanswered until its stream ends, what the end of a stream completes is an answer
/// that is not counted yet, and as long as there is one, an answer is still awaited.
pub proof fn law_rate_steps_keep_agreement<B>(
    m: RateModel,
    c: H3Model<B>,
    uncounted: nat,
    stream: u64,
    user: usize,
    time: u128,
    status: Option<u16>,
    data: B,
    len: usize,
    written: usize,
    blocked: bool,
    now: nat,
    latency: Option<u128>,
    ok: bool,
)
    requires
        rate_agrees(m, c, uncounted),
    ensures
        m.sent < m.scheduled && !c.starts.contains_key(stream) ==> rate_agrees(
            rate_sent(m, now),
            h3_opened(c, stream, user, time),
            uncounted,
        ),
        m.sent < m.scheduled ==> rate_agrees(rate_send_failed(m, now), c, uncounted),
        rate_agrees(m, h3_status_known(c, stream, status), uncounted),
        rate_agrees(m, h3_body_sent(c, stream, data, len, written, blocked), uncounted),
        rate_agrees(m, h3_body_progress(c, stream, written), uncounted),
        rate_agrees(m, h3_body_settled(c, stream), uncounted),
        match h3_completion(c, stream, time) {
            Some(_) => rate_agrees(m, h3_finished(c, stream), uncounted + 1),
            None => h3_finished(c, stream) == c,
        },
        uncounted > 0 ==> m.completed < m.sent && rate_agrees(
            rate_answered(m, now, latency, ok),
            c,
            (uncounted - 1) as nat,
        ),
{
    law_rate_steps_keep_accounts(m, c.starts.len(), uncounted, now, latency, ok);
    law_inflight(c, stream, user, time);
}

/// A trial that stops accounts for each scheduled request once, as a success or as an
/// error, whichever loop drives it.
pub proof fn law_stopped_accounts_for_all(
    m: RateModel,
    phase: RatePhase,
    now: nat,
    inflight: nat,
)
    requires
        rate_accounts(m, inflight, 0),
    ensures
        rate_step(m, phase, now, inflight).1 == RateStep::Stop ==> m.successes + m.errors
            == m.scheduled,
        rate_task_step(m, now, inflight) == TaskStep::Finished ==> m.successes + m.errors
            == m.scheduled,
{
    law_rate_step(m, phase, now, inflight);
}

/// A trial that is given up accounts for each scheduled request as a success or an
/// error, and once more for each that could not be sent.
pub proof fn law_given_up_accounts_for_all(m: RateModel)
    requires
        rate_valid(m),
    ensures
        rate_given_up(m).successes + rate_given_up(m).errors == m.scheduled + m.failed_sends,
{
}

/// A readiness loop sends only what may be sent, gives up only when nothing has gone
/// on for too long, and stops only when every request was sent and none is
/// unanswered.
pub proof fn law_rate_step(m: RateModel, phase: RatePhase, now: nat, inflight: nat)
    requires
        rate_valid(m),
    ensures
        match rate_step(m, phase, now, inflight).1 {
            RateStep::Send(_) => rate_may_send(m, now, inflight),
            RateStep::Poll(_) => !rate_may_send(m, now, inflight) || phase == RatePhase::Blocked,
            RateStep::Stop => !rate_running(m, inflight),
            RateStep::GiveUp => rate_stalled(m, now),
        },
{
}

/// A task loop sends only what may be sent, stops only when every request was sent
/// and none is unanswered, and never waits for a time that has passed, unless that is
/// the deadline.
pub proof fn law_task_step(m: RateModel, now: nat, inflight: nat)
    requires
        rate_valid(m),
        now < CLOCK_LIMIT,
        m.next_send <= u128::MAX,
        m.deadline <= u128::MAX,
    ensures
        match rate_task_step(m, now, inflight) {
            TaskStep::Send => rate_may_send(m, now, inflight),
            TaskStep::Finished => !rate_running(m, inflight),
            TaskStep::Answer => m.sent == m.scheduled && inflight > 0,
            TaskStep::AnswerUntil(t) => inflight > 0 && (t > now || t == m.deadline),
            TaskStep::Until(t) => inflight == 0 && t > now,
        },
{
}

// ---------------------------------------------------------------------------
// What a whole trial comes to
// ---------------------------------------------------------------------------

/// What happens in a trial.
pub enum RateEvent {
    /// A request was sent at this time.
    Sent(nat),
    /// A request could not be sent at this time.
    SendFailed(nat),
    /// A request came to its end at this time.
    Answered(nat, Option<u128>, bool),
}

/// A trial after something happened.
pub open spec fn rate_after(m: RateModel, e: RateEvent) -> RateModel {
    match e {
        RateEvent::Sent(now) => rate_sent(m, now),
        RateEvent::SendFailed(now) => rate_send_failed(m, now),
        RateEvent::Answered(now, latency, ok) => rate_answered(m, now, latency, ok),
    }
}

/// A trial after all that happened, in its order.
pub open spec fn rate_run(m: RateModel, events: Seq<RateEvent>) -> RateModel {
    events.fold_left(m, |m: RateModel, e: RateEvent| rate_after(m, e))
}

/// When something happened.
pub open spec fn event_time(e: RateEvent) -> nat {
    match e {
        RateEvent::Sent(now) => now,
        RateEvent::SendFailed(now) => now,
        RateEvent::Answered(now, _, _) => now,
    }
}

/// The latencies of the answers among what happened, in their order.
pub open spec fn answer_latencies(events: Seq<RateEvent>) -> Seq<u128> {
    events.filter(|e: RateEvent| e is Answered && e->Answered_1 is Some).map_values(
        |e: RateEvent| e->Answered_1->0,
    )
}

/// How many of the requests were sent, or could not be.
pub open spec fn count_sends(events: Seq<RateEvent>) -> nat {
    events.filter(|e: RateEvent| !(e is Answered)).len()
}

/// How many of the requests could not be sent.
pub open spec fn count_failed_sends(events: Seq<RateEvent>) -> nat {
    events.filter(|e: RateEvent| e is SendFailed).len()
}

/// How many answers of the one sort, good or bad, came.
pub open spec fn count_answers(events: Seq<RateEvent>, ok: bool) -> nat {
    events.filter(|e: RateEvent| e is Answered && e->Answered_2 == ok).len()
}

/// Whatever happens in a trial, it has the latencies of exactly its answers, as they were
/// measured and in the order in which they were counted; a success for each good answer,
/// an error for each bad one and for each request that could not be sent; and its next
/// request is due one interval later for each that was sent. What was planned stays.
pub proof fn law_trial_adds_up(m: RateModel, events: Seq<RateEvent>)
    ensures
        ({
            let r = rate_run(m, events);
            &&& r.latencies == m.latencies + answer_latencies(events)
            &&& r.sent == m.sent + count_sends(events)
            &&& r.failed_sends == m.failed_sends + count_failed_sends(events)
            &&& r.completed == m.completed + count_answers(events, true) + count_answers(
                events,
                false,
            )
            &&& r.successes == m.successes + count_answers(events, true)
            &&& r.errors == m.errors + count_answers(events, false) + count_failed_sends(events)
            &&& r.next_send == m.next_send + count_sends(events) * m.interval
            &&& r.last_progress == if events.len() == 0 {
                m.last_progress
            } else {
                event_time(events.last())
            }
            &&& r.scheduled == m.scheduled
            &&& r.interval == m.interval
            &&& r.max_inflight == m.max_inflight
            &&& r.started == m.started
            &&& r.deadline == m.deadline
        }),
    decreases events.len(),
{
    reveal(Seq::filter);
    reveal_with_fuel(Seq::fold_left, 2);
    let r = rate_run(m, events);
    let f = |m: RateModel, e: RateEvent| rate_after(m, e);
    if events.len() == 0 {
        assert(answer_latencies(events) =~= Seq::<u128>::empty());
        assert(0 * m.interval == 0) by (nonlinear_arith);
        assert(r.latencies =~= m.latencies + answer_latencies(events));
    } else {
        let rest = events.drop_last();
        let e = events.last();
        law_trial_adds_up(m, rest);
        assert(rate_run(m, events) == rate_after(rate_run(m, rest), e));
        lemma_pace(count_sends(rest), m.interval);
        let p = |e: RateEvent| e is Answered && e->Answered_1 is Some;
        if p(e) {
            assert(events.filter(p) =~= rest.filter(p).push(e));
            assert(answer_latencies(events) =~= answer_latencies(rest).push(e->Answered_1->0));
        } else {
            assert(events.filter(p) =~= rest.filter(p));
        }
        assert(r.latencies =~= m.latencies + answer_latencies(events));
    }
}

/// What a trial comes to from its beginning: the counts of a trial that ended are those of
/// what happened in it, and those of a trial that was given up have an error more for each
/// scheduled request that no answer came to.
pub proof fn law_trial_counts(
    scheduled: nat,
    interval: nat,
    max_inflight: nat,
    duration: nat,
    now: nat,
    events: Seq<RateEvent>,
    counts: RateCounts,
    given_up: bool,
)
    requires
        count_answers(events, true) + count_answers(events, false) <= scheduled,
        ({
            let m = rate_run(
                rate_started(scheduled, interval, max_inflight, duration, now),
                events,
            );
            counts_of(
                counts,
                if given_up {
                    rate_given_up(m)
                } else {
                    m
                },
            )
        }),
    ensures
        counts.scheduled_requests == scheduled,
        counts.sent_requests == count_sends(events),
        counts.completed_requests == count_answers(events, true) + count_answers(events, false),
        counts.successes == count_answers(events, true),
        counts.latencies@ == answer_latencies(events),
        counts.errors + (if given_up {
            counts.completed_requests as nat
        } else {
            0
        }) == count_answers(events, false) + count_failed_sends(events) + (if given_up {
            scheduled
        } else {
            0
        }),
{
    let m = rate_started(scheduled, interval, max_inflight, duration, now);
    law_trial_adds_up(m, events);
    assert(m.latencies + answer_latencies(events) =~= answer_latencies(events));
}

/// The k-th request is due k intervals after the start, counted from none, and the trial
/// is to end as long after the start as it was to last.
pub proof fn law_due_times(
    scheduled: nat,
    interval: nat,
    max_inflight: nat,
    duration: nat,
    now: nat,
    events: Seq<RateEvent>,
)
    ensures
        ({
            let m = rate_run(
                rate_started(scheduled, interval, max_inflight, duration, now),
                events,
            );
            &&& m.next_send == now + count_sends(events) * interval
            &&& m.deadline == now + duration
            &&& m.started == now
            &&& events.len() == 0 ==> m.last_progress == now
        }),
{
    law_trial_adds_up(rate_started(scheduled, interval, max_inflight, duration, now), events);
}

/// A rate makes as many requests in each second as the one before, as many as it says.
pub proof fn law_schedule(target_pps: nat, seconds: nat)
    ensures
        schedule(target_pps, 0) == 0,
        schedule(target_pps, seconds + 1) == schedule(target_pps, seconds) + target_pps,
        schedulable(target_pps, seconds) <==> target_pps * seconds <= isize::MAX as int / 16,
{
    assert(target_pps * (seconds + 1) == target_pps * seconds + target_pps) by (nonlinear_arith);
}

/// When a readiness loop sends, waits, stops and gives up. It sends whenever a request is
/// left whose time has come and fewer are unanswered than may be, for the user whose turn
/// it is; it gives up after half a minute without progress, which it looks for once
/// packets were waited for; it stops when nothing is left to send or unanswered; and it
/// waits until the next request is due or the trial is to end, or for a millisecond where
/// it can send nothing.
pub proof fn law_rate_step_when(m: RateModel, phase: RatePhase, now: nat, inflight: nat)
    requires
        now <= u128::MAX,
        m.next_send <= u128::MAX,
        m.deadline <= u128::MAX,
        0 < m.max_inflight <= usize::MAX,
    ensures
        ({
            let (after, step) = rate_step(m, phase, now, inflight);
            let due = m.sent < m.scheduled && m.next_send <= now && inflight < m.max_inflight;
            let lost = phase == RatePhase::Polled && now - m.last_progress > 30_000_000_000;
            let round = phase == RatePhase::RoundStart || phase == RatePhase::Polled;
            let over = round && m.sent >= m.scheduled && inflight == 0;
            &&& step is GiveUp <==> lost
            &&& step is Stop <==> over && !lost
            &&& step is Send <==> due && phase != RatePhase::Blocked && !lost
            &&& step matches RateStep::Send(user) ==> user < m.max_inflight && exists|turns: nat|
                m.sent == user + #[trigger] (turns * m.max_inflight)
            &&& step is Send ==> after == RatePhase::Sending
            &&& step is Poll ==> after == RatePhase::Polled
            &&& step matches RateStep::Poll(t) ==> {
                if m.sent < m.scheduled && inflight < m.max_inflight {
                    &&& now + t >= m.next_send || now + t >= m.deadline
                    &&& t > 0 ==> now + t <= m.next_send && now + t <= m.deadline
                } else {
                    t == 1_000_000
                }
            }
        }),
{
    let user = m.sent % m.max_inflight;
    let turns = m.sent / m.max_inflight;
    vstd::arithmetic::div_mod::lemma_fundamental_div_mod(m.sent as int, m.max_inflight as int);
    assert(m.max_inflight * turns == turns * m.max_inflight) by (nonlinear_arith);
    assert(m.sent == (user as usize) + turns * m.max_inflight);
}

/// When a task loop sends, waits and ends. It sends whenever a request is left whose time
/// has come and fewer are unanswered than may be; it ends when nothing is left to send or
/// unanswered, waits for answers alone when nothing is left to send, for the time of the
/// next request alone when nothing is unanswered, and for either otherwise.
pub proof fn law_task_step_when(m: RateModel, now: nat, inflight: nat)
    requires
        now < CLOCK_LIMIT,
        m.next_send <= u128::MAX,
        m.deadline <= u128::MAX,
    ensures
        ({
            let step = rate_task_step(m, now, inflight);
            let left = m.sent < m.scheduled;
            let due = left && m.next_send <= now && inflight < m.max_inflight;
            &&& step is Send <==> due
            &&& step is Finished <==> !left && inflight == 0
            &&& step is Answer <==> !left && inflight > 0
            &&& step is Until <==> left && !due && inflight == 0
            &&& step is AnswerUntil <==> left && !due && inflight > 0
            &&& step matches TaskStep::Until(t) ==> t == m.next_send
            &&& step matches TaskStep::AnswerUntil(t) ==> {
                if inflight < m.max_inflight {
                    &&& t == m.next_send || t == m.deadline
                    &&& t <= m.next_send && t <= m.deadline
                } else {
                    t == now + 1_000_000
                }
            }
        }),
{
}

/// A trial begins as it was planned, with nothing counted.
pub proof fn law_trial_begins(
    scheduled: nat,
    interval: nat,
    max_inflight: nat,
    duration: nat,
    now: nat,
)
    ensures
        ({
            let m = rate_started(scheduled, interval, max_inflight, duration, now);
            &&& m.scheduled == scheduled && m.interval == interval
            &&& m.max_inflight == max_inflight
            &&& m.started == now && m.next_send == now && m.last_progress == now
            &&& m.deadline == now + duration
            &&& m.sent == 0 && m.failed_sends == 0 && m.completed == 0
            &&& m.successes == 0 && m.errors == 0 && m.latencies.len() == 0
        }),
{
}

} // verus!
