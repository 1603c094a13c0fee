//! The order in which the trials of a command are run.
use crate::config::{config_valid, Config, ConfigModel};
use crate::h2load_config::{h2load_valid, H2LoadRateConfig, H2LoadRateModel};
use crate::mode::OverloadMode;
use crate::netem::{FailureModel, FailureProfile};
use crate::nginx_config::{nginx_valid, NginxPpsConfig, NginxPpsModel};
use crate::odometer::{
    all_positive, combinations, digits_at, in_radices, law_digits_at, law_place, place, Odometer,
};
use crate::overload_config::{overload_valid, OverloadConfig, OverloadModel};
use crate::percent::Percent;
use crate::pps_config::{rust_pps_valid, RustPpsConfig, RustPpsModel};
use crate::protocol::Protocol;
use vstd::arithmetic::div_mod::*;
use vstd::prelude::*;

verus! {

// ---------------------------------------------------------------------------
// The scenario matrix
// ---------------------------------------------------------------------------

/// One load on one transport under one network condition.
#[derive(Debug, Clone)]
pub struct Scenario {
    pub protocol: Protocol,
    pub users: usize,
    pub messages_per_user: usize,
    pub failure: FailureProfile,
}

/// The values of a `Scenario`.
#[verifier::ext_equal]
pub struct ScenarioModel {
    pub protocol: Protocol,
    pub users: usize,
    pub messages_per_user: usize,
    pub failure: FailureModel,
}

impl View for Scenario {
    type V = ScenarioModel;

    open spec fn view(&self) -> ScenarioModel {
        ScenarioModel {
            protocol: self.protocol,
            users: self.users,
            messages_per_user: self.messages_per_user,
            failure: self.failure@,
        }
    }
}

/// A run of the scenario matrix.
#[derive(Debug, Clone)]
pub struct MatrixRun {
    pub scenario: Scenario,
    /// Which repetition it is, counted from one.
    pub repeat_index: usize,
    /// Whether it is the first under its network condition, which has to be
    /// imposed before it.
    pub first_of_failure: bool,
}

/// The values of a `MatrixRun`.
#[verifier::ext_equal]
pub struct MatrixRunModel {
    pub scenario: ScenarioModel,
    pub repeat_index: nat,
    pub first_of_failure: bool,
}

impl View for MatrixRun {
    type V = MatrixRunModel;

    open spec fn view(&self) -> MatrixRunModel {
        MatrixRunModel {
            scenario: self.scenario@,
            repeat_index: self.repeat_index as nat,
            first_of_failure: self.first_of_failure,
        }
    }
}

/// The choices of the matrix, from the one that changes last to the one that
/// changes first: network condition, users, messages, repetition, protocol.
pub open spec fn matrix_radices(cfg: ConfigModel) -> Seq<usize> {
    seq![
        cfg.failures.len() as usize,
        cfg.users.len() as usize,
        cfg.messages.len() as usize,
        cfg.repeats,
        cfg.protocols.len() as usize,
    ]
}

/// The run that `choices` describe.
pub open spec fn matrix_run_of(cfg: ConfigModel, choices: Seq<usize>) -> MatrixRunModel {
    MatrixRunModel {
        scenario: ScenarioModel {
            protocol: cfg.protocols[choices[4] as int],
            users: cfg.users[choices[1] as int],
            messages_per_user: cfg.messages[choices[2] as int],
            failure: cfg.failures[choices[0] as int],
        },
        repeat_index: (choices[3] + 1) as nat,
        first_of_failure: choices[1] == 0 && choices[2] == 0 && choices[3] == 0 && choices[4] == 0,
    }
}

/// The run that `position` others come before.
pub open spec fn matrix_run(cfg: ConfigModel, position: nat) -> MatrixRunModel {
    matrix_run_of(cfg, digits_at(matrix_radices(cfg), position))
}

/// How many runs the matrix has.
pub open spec fn matrix_runs(cfg: ConfigModel) -> nat {
    combinations(matrix_radices(cfg))
}

/// Goes through the runs of a matrix.
#[derive(Debug)]
pub struct MatrixPlan {
    cursor: Odometer,
}

impl MatrixPlan {
    /// Whether it goes through the runs of this configuration.
    pub closed spec fn follows(self, cfg: ConfigModel) -> bool {
        self.cursor.radices() == matrix_radices(cfg)
    }

    /// How many runs come before the current one.
    pub closed spec fn position(self) -> nat {
        self.cursor.position()
    }

    /// The first run.
    pub fn start(cfg: &Config) -> (r: MatrixPlan)
        requires
            config_valid(cfg@),
        ensures
            r.follows(cfg@),
            r.position() == 0,
    {
        let radices: Vec<usize> = vec![
            cfg.failures.len(),
            cfg.users.len(),
            cfg.messages.len(),
            cfg.repeats,
            cfg.protocols.len(),
        ];
        assert(radices@ =~= matrix_radices(cfg@));
        MatrixPlan { cursor: Odometer::start(radices) }
    }

    /// The current run.
    pub fn run(&self, cfg: &Config) -> (r: MatrixRun)
        requires
            self.follows(cfg@),
        ensures
            r@ == matrix_run(cfg@, self.position()),
    {
        let failure: usize = self.cursor.digit(0);
        let users: usize = self.cursor.digit(1);
        let messages: usize = self.cursor.digit(2);
        let repeat: usize = self.cursor.digit(3);
        let protocol: usize = self.cursor.digit(4);
        assert(cfg@.failures[failure as int] == cfg.failures@[failure as int]@);
        MatrixRun {
            scenario: Scenario {
                protocol: cfg.protocols[protocol],
                users: cfg.users[users],
                messages_per_user: cfg.messages[messages],
                failure: cfg.failures[failure].copy(),
            },
            repeat_index: repeat + 1,
            first_of_failure: users == 0 && messages == 0 && repeat == 0 && protocol == 0,
        }
    }

    /// Goes on to the next run; false where there is none.
    pub fn advance(&mut self, cfg: &Config) -> (r: bool)
        requires
            old(self).follows(cfg@),
        ensures
            final(self).follows(cfg@),
            r == (old(self).position() + 1 < matrix_runs(cfg@)),
            r ==> final(self).position() == old(self).position() + 1,
    {
        self.cursor.advance()
    }
}

/// Every combination of a network condition, a number of users, a number of
/// messages, a repetition and a protocol is run, and at one position only.
pub proof fn law_matrix_runs_each_once(cfg: ConfigModel, choices: Seq<usize>)
    requires
        in_radices(choices, matrix_radices(cfg)),
    ensures
        exists|position: nat|
            position < matrix_runs(cfg) && #[trigger] digits_at(matrix_radices(cfg), position)
                == choices,
        forall|a: nat, b: nat|
            a < matrix_runs(cfg) && b < matrix_runs(cfg) && #[trigger] digits_at(
                matrix_radices(cfg),
                a,
            ) == choices && #[trigger] digits_at(matrix_radices(cfg), b) == choices ==> a == b,
{
    lemma_each_once(matrix_radices(cfg), choices);
}

/// Protocols take turns: the runs of one load and one repetition follow one
/// another, one for each protocol, in the order of the list.
pub proof fn law_matrix_interleaves_protocols(cfg: ConfigModel, block: nat, p: nat)
    requires
        all_positive(matrix_radices(cfg)),
        p < cfg.protocols.len() <= usize::MAX,
    ensures
        ({
            let n = cfg.protocols.len();
            let first = matrix_run(cfg, block * n);
            let run = matrix_run(cfg, block * n + p);
            &&& run.scenario.protocol == cfg.protocols[p as int]
            &&& run.scenario.users == first.scenario.users
            &&& run.scenario.messages_per_user == first.scenario.messages_per_user
            &&& run.scenario.failure == first.scenario.failure
            &&& run.repeat_index == first.repeat_index
        }),
{
    lemma_turns(matrix_radices(cfg), block, p);
}

proof fn lemma_each_once(radices: Seq<usize>, choices: Seq<usize>)
    requires
        in_radices(choices, radices),
    ensures
        exists|position: nat|
            position < combinations(radices) && #[trigger] digits_at(radices, position) == choices,
        forall|a: nat, b: nat|
            a < combinations(radices) && b < combinations(radices) && #[trigger] digits_at(
                radices,
                a,
            ) == choices && #[trigger] digits_at(radices, b) == choices ==> a == b,
{
    law_place(choices, radices);
    let at = place(choices, radices);
    assert(digits_at(radices, at) == choices);
    assert forall|a: nat, b: nat|
        a < combinations(radices) && b < combinations(radices) && #[trigger] digits_at(radices, a)
            == choices && #[trigger] digits_at(radices, b) == choices implies a == b by {
        law_digits_at(radices, a);
        law_digits_at(radices, b);
    }
}

proof fn lemma_turns(radices: Seq<usize>, block: nat, p: nat)
    requires
        radices.len() > 0,
        all_positive(radices),
        p < radices.last(),
    ensures
        ({
            let n = radices.last() as nat;
            let first = digits_at(radices, block * n);
            let digits = digits_at(radices, block * n + p);
            &&& digits.last() == p
            &&& first.last() == 0
            &&& forall|i: int| 0 <= i < radices.len() - 1 ==> #[trigger] digits[i] == first[i]
            &&& digits.len() == radices.len()
            &&& first.len() == radices.len()
        }),
{
    let n = radices.last() as nat;
    assert(block * n == n * block) by (nonlinear_arith);
    lemma_fundamental_div_mod_converse((block * n + p) as int, n as int, block as int, p as int);
    lemma_fundamental_div_mod_converse((block * n) as int, n as int, block as int, 0);
    let head = radices.drop_last();
    assert forall|i: int| 0 <= i < head.len() implies #[trigger] head[i] > 0 by {
        assert(head[i] == radices[i]);
    }
    let rest = digits_at(head, block);
    lemma_digits_len(head, block);
    let first = digits_at(radices, block * n);
    let digits = digits_at(radices, block * n + p);
    assert forall|i: int| 0 <= i < radices.len() - 1 implies #[trigger] digits[i] == first[i] by {
        assert(digits[i] == rest[i]);
        assert(first[i] == rest[i]);
    }
}

proof fn lemma_digits_len(radices: Seq<usize>, position: nat)
    requires
        all_positive(radices),
    ensures
        digits_at(radices, position).len() == radices.len(),
    decreases radices.len(),
{
    if radices.len() > 0 {
        let rest = radices.drop_last();
        assert forall|i: int| 0 <= i < rest.len() implies #[trigger] rest[i] > 0 by {
            assert(rest[i] == radices[i]);
        }
        assert(radices[radices.len() - 1] > 0);
        lemma_digits_len(radices.drop_last(), position / (radices.last() as nat));
    }
}

// ---------------------------------------------------------------------------
// Fixed-rate trials
// ---------------------------------------------------------------------------

/// A trial at a fixed rate.
#[derive(Debug, Clone, Copy)]
pub struct RateRun {
    pub protocol: Protocol,
    pub payload_size: usize,
    pub target_pps: usize,
    /// Which repetition it is, counted from one.
    pub repeat_index: usize,
    /// Whether it is the first with its payload in its repetition.
    pub first_of_payload: bool,
}

/// What the three fixed-rate commands have in common: the lists that their trials
/// are made of.
#[verifier::ext_equal]
pub struct RateChoices {
    pub repeats: usize,
    pub payload_sizes: Seq<usize>,
    pub target_pps: Seq<usize>,
    pub protocols: Seq<Protocol>,
}

/// The choices of the benchmark in one process.
pub open spec fn rust_pps_choices(cfg: RustPpsModel) -> RateChoices {
    RateChoices {
        repeats: cfg.repeats,
        payload_sizes: cfg.payload_sizes,
        target_pps: cfg.target_pps,
        protocols: cfg.protocols,
    }
}

/// The choices of the client of a server outside of this process.
pub open spec fn nginx_choices(cfg: NginxPpsModel) -> RateChoices {
    RateChoices {
        repeats: cfg.repeats,
        payload_sizes: cfg.payload_sizes,
        target_pps: cfg.target_pps,
        protocols: cfg.protocols,
    }
}

/// The choices of the runs that `h2load` drives.
pub open spec fn h2load_choices(cfg: H2LoadRateModel) -> RateChoices {
    RateChoices {
        repeats: cfg.repeats,
        payload_sizes: cfg.payload_sizes,
        target_pps: cfg.target_pps,
        protocols: cfg.protocols,
    }
}

/// The choices, from the one that changes last to the one that changes first:
/// repetition, payload size, rate, protocol.
pub open spec fn rate_radices(c: RateChoices) -> Seq<usize> {
    seq![
        c.repeats,
        c.payload_sizes.len() as usize,
        c.target_pps.len() as usize,
        c.protocols.len() as usize,
    ]
}

/// The trial that `choices` describe.
pub open spec fn rate_run_of(c: RateChoices, choices: Seq<usize>) -> RateRun {
    RateRun {
        protocol: c.protocols[choices[3] as int],
        payload_size: c.payload_sizes[choices[1] as int],
        target_pps: c.target_pps[choices[2] as int],
        repeat_index: (choices[0] + 1) as usize,
        first_of_payload: choices[2] == 0 && choices[3] == 0,
    }
}

/// The trial that `position` others come before.
pub open spec fn rate_run(c: RateChoices, position: nat) -> RateRun {
    rate_run_of(c, digits_at(rate_radices(c), position))
}

/// How many trials there are.
pub open spec fn rate_runs(c: RateChoices) -> nat {
    combinations(rate_radices(c))
}

/// Goes through trials at fixed rates.
#[derive(Debug)]
pub struct RatePlan {
    cursor: Odometer,
    payload_sizes: Vec<usize>,
    target_pps: Vec<usize>,
    protocols: Vec<Protocol>,
}

fn copy_numbers(list: &Vec<usize>) -> (r: Vec<usize>)
    ensures
        r@ == list@,
{
    let mut out: Vec<usize> = Vec::new();
    let mut i: usize = 0;
    while i < list.len()
        invariant
            i <= list@.len(),
            out@ == list@.take(i as int),
        decreases list@.len() - i,
    {
        out.push(list[i]);
        i = i + 1;
        assert(out@ =~= list@.take(i as int));
    }
    assert(out@ =~= list@);
    out
}

fn copy_protocols(list: &Vec<Protocol>) -> (r: Vec<Protocol>)
    ensures
        r@ == list@,
{
    let mut out: Vec<Protocol> = Vec::new();
    let mut i: usize = 0;
    while i < list.len()
        invariant
            i <= list@.len(),
            out@ == list@.take(i as int),
        decreases list@.len() - i,
    {
        out.push(list[i]);
        i = i + 1;
        assert(out@ =~= list@.take(i as int));
    }
    assert(out@ =~= list@);
    out
}

impl RatePlan {
    /// Whether the cursor goes over the lists.
    pub closed spec fn valid(self) -> bool {
        &&& self.cursor.radices().len() == 4
        &&& self.cursor.radices()[1] == self.payload_sizes@.len()
        &&& self.cursor.radices()[2] == self.target_pps@.len()
        &&& self.cursor.radices()[3] == self.protocols@.len()
    }

    /// The lists that the trials are made of.
    pub closed spec fn choices(self) -> RateChoices {
        RateChoices {
            repeats: self.cursor.radices()[0],
            payload_sizes: self.payload_sizes@,
            target_pps: self.target_pps@,
            protocols: self.protocols@,
        }
    }

    /// How many trials come before the current one.
    pub closed spec fn position(self) -> nat {
        self.cursor.position()
    }

    fn start(
        repeats: usize,
        payload_sizes: &Vec<usize>,
        target_pps: &Vec<usize>,
        protocols: &Vec<Protocol>,
    ) -> (r: RatePlan)
        requires
            repeats > 0,
            payload_sizes@.len() > 0,
            target_pps@.len() > 0,
            protocols@.len() > 0,
        ensures
            r.choices() == (RateChoices {
                repeats,
                payload_sizes: payload_sizes@,
                target_pps: target_pps@,
                protocols: protocols@,
            }),
            r.position() == 0,
            r.valid(),
    {
        let radices: Vec<usize> = vec![
            repeats,
            payload_sizes.len(),
            target_pps.len(),
            protocols.len(),
        ];
        RatePlan {
            cursor: Odometer::start(radices),
            payload_sizes: copy_numbers(payload_sizes),
            target_pps: copy_numbers(target_pps),
            protocols: copy_protocols(protocols),
        }
    }

    /// The first trial of the benchmark in one process.
    pub fn for_rust_pps(cfg: &RustPpsConfig) -> (r: RatePlan)
        requires
            rust_pps_valid(cfg@),
        ensures
            r.choices() == rust_pps_choices(cfg@),
            r.position() == 0,
            r.valid(),
    {
        RatePlan::start(cfg.repeats, &cfg.payload_sizes, &cfg.target_pps, &cfg.protocols)
    }

    /// The first trial against a server outside of this process.
    pub fn for_nginx(cfg: &NginxPpsConfig) -> (r: RatePlan)
        requires
            nginx_valid(cfg@),
        ensures
            r.choices() == nginx_choices(cfg@),
            r.position() == 0,
            r.valid(),
    {
        RatePlan::start(cfg.repeats, &cfg.payload_sizes, &cfg.target_pps, &cfg.protocols)
    }

    /// The first trial that `h2load` drives.
    pub fn for_h2load(cfg: &H2LoadRateConfig) -> (r: RatePlan)
        requires
            h2load_valid(cfg@),
        ensures
            r.choices() == h2load_choices(cfg@),
            r.position() == 0,
            r.valid(),
    {
        RatePlan::start(cfg.repeats, &cfg.payload_sizes, &cfg.target_pps, &cfg.protocols)
    }

    /// The current trial.
    pub fn run(&self) -> (r: RateRun)
        requires
            self.valid(),
        ensures
            r == rate_run(self.choices(), self.position()),
    {
        proof {
            assert(self.cursor.radices() =~= rate_radices(self.choices()));
        }
        let repeat: usize = self.cursor.digit(0);
        let payload: usize = self.cursor.digit(1);
        let rate: usize = self.cursor.digit(2);
        let protocol: usize = self.cursor.digit(3);
        RateRun {
            protocol: self.protocols[protocol],
            payload_size: self.payload_sizes[payload],
            target_pps: self.target_pps[rate],
            repeat_index: repeat + 1,
            first_of_payload: rate == 0 && protocol == 0,
        }
    }

    /// Goes on to the next trial; false where there is none.
    pub fn advance(&mut self) -> (r: bool)
        requires
            old(self).valid(),
        ensures
            final(self).valid(),
            final(self).choices() == old(self).choices(),
            r == (old(self).position() + 1 < rate_runs(old(self).choices())),
            r ==> final(self).position() == old(self).position() + 1,
    {
        proof {
            assert(self.cursor.radices() =~= rate_radices(self.choices()));
        }
        self.cursor.advance()
    }
}

/// Every combination of a repetition, a payload size, a rate and a protocol is
/// tried, and at one position only.
pub proof fn law_rate_runs_each_once(c: RateChoices, choices: Seq<usize>)
    requires
        in_radices(choices, rate_radices(c)),
    ensures
        exists|position: nat|
            position < rate_runs(c) && #[trigger] digits_at(rate_radices(c), position) == choices,
        forall|a: nat, b: nat|
            a < rate_runs(c) && b < rate_runs(c) && #[trigger] digits_at(rate_radices(c), a)
                == choices && #[trigger] digits_at(rate_radices(c), b) == choices ==> a == b,
{
    lemma_each_once(rate_radices(c), choices);
}

/// Protocols take turns at every rate.
pub proof fn law_rate_interleaves_protocols(c: RateChoices, block: nat, p: nat)
    requires
        all_positive(rate_radices(c)),
        p < c.protocols.len() <= usize::MAX,
    ensures
        ({
            let n = c.protocols.len();
            let first = rate_run(c, block * n);
            let run = rate_run(c, block * n + p);
            &&& run.protocol == c.protocols[p as int]
            &&& run.payload_size == first.payload_size
            &&& run.target_pps == first.target_pps
            &&& run.repeat_index == first.repeat_index
        }),
{
    lemma_turns(rate_radices(c), block, p);
}

// ---------------------------------------------------------------------------
// The overload experiment
// ---------------------------------------------------------------------------

/// One load on a server that turns requests away in one of two ways.
#[derive(Debug, Clone, Copy)]
pub struct OverloadScenario {
    pub mode: OverloadMode,
    pub total_requests: usize,
    pub concurrency: usize,
    pub payload_size: usize,
    pub threshold: usize,
    pub reject_percent: Percent,
}

/// A run of the overload experiment.
#[derive(Debug, Clone, Copy)]
pub struct OverloadRun {
    pub scenario: OverloadScenario,
    /// Which repetition it is, counted from one.
    pub repeat_index: usize,
}

/// The values of an `OverloadScenario`.
#[verifier::ext_equal]
pub struct OverloadScenarioModel {
    pub mode: OverloadMode,
    pub total_requests: usize,
    pub concurrency: usize,
    pub payload_size: usize,
    pub threshold: usize,
    pub reject_percent: u64,
}

impl View for OverloadScenario {
    type V = OverloadScenarioModel;

    open spec fn view(&self) -> OverloadScenarioModel {
        OverloadScenarioModel {
            mode: self.mode,
            total_requests: self.total_requests,
            concurrency: self.concurrency,
            payload_size: self.payload_size,
            threshold: self.threshold,
            reject_percent: self.reject_percent@,
        }
    }
}

/// The choices, from the one that changes last to the one that changes first:
/// repetition, payload size, concurrency, threshold, mode.
pub open spec fn overload_radices(cfg: OverloadModel) -> Seq<usize> {
    seq![
        cfg.repeats,
        cfg.payload_sizes.len() as usize,
        cfg.concurrency.len() as usize,
        cfg.thresholds.len() as usize,
        cfg.modes.len() as usize,
    ]
}

/// The scenario that `choices` describe, and its repetition.
pub open spec fn overload_run_of(cfg: OverloadModel, choices: Seq<usize>) -> (
    OverloadScenarioModel,
    nat,
) {
    (
        OverloadScenarioModel {
            mode: cfg.modes[choices[4] as int],
            total_requests: cfg.total_requests,
            concurrency: cfg.concurrency[choices[2] as int],
            payload_size: cfg.payload_sizes[choices[1] as int],
            threshold: cfg.thresholds[choices[3] as int],
            reject_percent: cfg.reject_percent,
        },
        (choices[0] + 1) as nat,
    )
}

/// The scenario that `position` others come before, and its repetition.
pub open spec fn overload_run(cfg: OverloadModel, position: nat) -> (OverloadScenarioModel, nat) {
    overload_run_of(cfg, digits_at(overload_radices(cfg), position))
}

/// How many runs the experiment has.
pub open spec fn overload_runs(cfg: OverloadModel) -> nat {
    combinations(overload_radices(cfg))
}

/// Goes through the runs of the overload experiment.
#[derive(Debug)]
pub struct OverloadPlan {
    cursor: Odometer,
}

impl OverloadPlan {
    /// Whether it goes through the runs of this configuration.
    pub closed spec fn follows(self, cfg: OverloadModel) -> bool {
        self.cursor.radices() == overload_radices(cfg)
    }

    /// How many runs come before the current one.
    pub closed spec fn position(self) -> nat {
        self.cursor.position()
    }

    /// The first run.
    pub fn start(cfg: &OverloadConfig) -> (r: OverloadPlan)
        requires
            overload_valid(cfg@),
        ensures
            r.follows(cfg@),
            r.position() == 0,
    {
        let radices: Vec<usize> = vec![
            cfg.repeats,
            cfg.payload_sizes.len(),
            cfg.concurrency.len(),
            cfg.thresholds.len(),
            cfg.modes.len(),
        ];
        assert(radices@ =~= overload_radices(cfg@));
        OverloadPlan { cursor: Odometer::start(radices) }
    }

    /// The current run.
    pub fn run(&self, cfg: &OverloadConfig) -> (r: OverloadRun)
        requires
            self.follows(cfg@),
        ensures
            (r.scenario@, r.repeat_index as nat) == overload_run(cfg@, self.position()),
    {
        let repeat: usize = self.cursor.digit(0);
        let payload: usize = self.cursor.digit(1);
        let concurrency: usize = self.cursor.digit(2);
        let threshold: usize = self.cursor.digit(3);
        let mode: usize = self.cursor.digit(4);
        OverloadRun {
            scenario: OverloadScenario {
                mode: cfg.modes[mode],
                total_requests: cfg.total_requests,
                concurrency: cfg.concurrency[concurrency],
                payload_size: cfg.payload_sizes[payload],
                threshold: cfg.thresholds[threshold],
                reject_percent: cfg.reject_percent,
            },
            repeat_index: repeat + 1,
        }
    }

    /// Goes on to the next run; false where there is none.
    pub fn advance(&mut self, cfg: &OverloadConfig) -> (r: bool)
        requires
            old(self).follows(cfg@),
        ensures
            final(self).follows(cfg@),
            r == (old(self).position() + 1 < overload_runs(cfg@)),
            r ==> final(self).position() == old(self).position() + 1,
    {
        self.cursor.advance()
    }
}

/// Every combination of a repetition, a payload size, a concurrency, a threshold
/// and a mode is run, and at one position only.
pub proof fn law_overload_runs_each_once(cfg: OverloadModel, choices: Seq<usize>)
    requires
        in_radices(choices, overload_radices(cfg)),
    ensures
        exists|position: nat|
            position < overload_runs(cfg) && #[trigger] digits_at(overload_radices(cfg), position)
                == choices,
        forall|a: nat, b: nat|
            a < overload_runs(cfg) && b < overload_runs(cfg) && #[trigger] digits_at(
                overload_radices(cfg),
                a,
            ) == choices && #[trigger] digits_at(overload_radices(cfg), b) == choices ==> a == b,
{
    lemma_each_once(overload_radices(cfg), choices);
}

/// The two ways of turning requests away are compared under the same load: the
/// runs of one load and one repetition follow one another, one for each mode.
pub proof fn law_overload_interleaves_modes(cfg: OverloadModel, block: nat, m: nat)
    requires
        all_positive(overload_radices(cfg)),
        m < cfg.modes.len() <= usize::MAX,
    ensures
        ({
            let n = cfg.modes.len();
            let first = overload_run(cfg, block * n);
            let run = overload_run(cfg, block * n + m);
            &&& run.0 == (OverloadScenarioModel { mode: cfg.modes[m as int], ..first.0 })
            &&& run.1 == first.1
        }),
{
    lemma_turns(overload_radices(cfg), block, m);
}

// ---------------------------------------------------------------------------
// Where each run stands
// ---------------------------------------------------------------------------

proof fn lemma_place_of_four(a: usize, b: usize, c: usize, d: usize, radices: Seq<usize>)
    requires
        radices.len() == 4,
    ensures
        place(seq![a, b, c, d], radices) == ((a * radices[1] + b) * radices[2] + c) * radices[3]
            + d,
        combinations(radices) == radices[0] * radices[1] * radices[2] * radices[3],
{
    let all = seq![a, b, c, d];
    reveal_with_fuel(place, 5);
    reveal_with_fuel(combinations, 5);
    let r3 = radices.drop_last();
    let r2 = r3.drop_last();
    let r1 = r2.drop_last();
    assert(all.drop_last() =~= seq![a, b, c]);
    assert(seq![a, b, c].drop_last() =~= seq![a, b]);
    assert(seq![a, b].drop_last() =~= seq![a]);
    assert(seq![a].drop_last() =~= Seq::<usize>::empty());
    assert(r1.drop_last() =~= Seq::<usize>::empty());
    assert(r1 =~= seq![radices[0]]);
    let x = radices[0] as nat;
    assert(0 * x == 0 && 1 * x == x) by (nonlinear_arith);
    assert(place(seq![a], r1) == a);
    assert(place(seq![a, b], r2) == a * radices[1] + b);
    assert(combinations(r1) == radices[0]);
    assert(combinations(r2) == radices[0] * radices[1]);
}

proof fn lemma_place_of_five(
    a: usize,
    b: usize,
    c: usize,
    d: usize,
    e: usize,
    radices: Seq<usize>,
)
    requires
        radices.len() == 5,
    ensures
        place(seq![a, b, c, d, e], radices) == (((a * radices[1] + b) * radices[2] + c) * radices[3]
            + d) * radices[4] + e,
        combinations(radices) == radices[0] * radices[1] * radices[2] * radices[3] * radices[4],
{
    let all = seq![a, b, c, d, e];
    let head = radices.drop_last();
    assert(all.drop_last() =~= seq![a, b, c, d]);
    lemma_place_of_four(a, b, c, d, head);
}

/// Where each run of the scenario matrix stands: the failure changes last, then the number of
/// users, the messages, the repetition, and with every run the protocol. There are as many
/// runs as choices of all of these, repetitions are counted from one, and the first run of a
/// failure is the one before which the others have not begun.
pub proof fn law_matrix_order(cfg: ConfigModel, f: usize, u: usize, m: usize, r: usize, p: usize)
    requires
        f < cfg.failures.len() <= usize::MAX,
        u < cfg.users.len() <= usize::MAX,
        m < cfg.messages.len() <= usize::MAX,
        r < cfg.repeats,
        p < cfg.protocols.len() <= usize::MAX,
    ensures
        ({
            let position = (((f * cfg.users.len() + u) * cfg.messages.len() + m) * cfg.repeats + r)
                * cfg.protocols.len() + p;
            let run = matrix_run(cfg, position as nat);
            &&& position < matrix_runs(cfg)
            &&& run.scenario.failure == cfg.failures[f as int]
            &&& run.scenario.users == cfg.users[u as int]
            &&& run.scenario.messages_per_user == cfg.messages[m as int]
            &&& run.repeat_index == r + 1
            &&& run.scenario.protocol == cfg.protocols[p as int]
            &&& run.first_of_failure <==> u == 0 && m == 0 && r == 0 && p == 0
        }),
        matrix_runs(cfg) == cfg.failures.len() * cfg.users.len() * cfg.messages.len() * cfg.repeats
            * cfg.protocols.len(),
{
    let radices = matrix_radices(cfg);
    let choices = seq![f, u, m, r, p];
    assert(in_radices(choices, radices));
    law_place(choices, radices);
    lemma_place_of_five(f, u, m, r, p, radices);
}

/// Where each run at a fixed rate stands: the repetition changes last, then the payload size,
/// the rate, and with every run the protocol. There are as many runs as choices of all of
/// these, repetitions are counted from one, and the first run of a payload size in a
/// repetition is the one before which its rates and protocols have not begun.
pub proof fn law_rate_order(c: RateChoices, r: usize, s: usize, t: usize, p: usize)
    requires
        r < c.repeats,
        s < c.payload_sizes.len() <= usize::MAX,
        t < c.target_pps.len() <= usize::MAX,
        p < c.protocols.len() <= usize::MAX,
    ensures
        ({
            let position = ((r * c.payload_sizes.len() + s) * c.target_pps.len() + t)
                * c.protocols.len() + p;
            let run = rate_run(c, position as nat);
            &&& position < rate_runs(c)
            &&& run.repeat_index == r + 1
            &&& run.payload_size == c.payload_sizes[s as int]
            &&& run.target_pps == c.target_pps[t as int]
            &&& run.protocol == c.protocols[p as int]
            &&& run.first_of_payload <==> t == 0 && p == 0
        }),
        rate_runs(c) == c.repeats * c.payload_sizes.len() * c.target_pps.len() * c.protocols.len(),
{
    let radices = rate_radices(c);
    let choices = seq![r, s, t, p];
    assert(in_radices(choices, radices));
    law_place(choices, radices);
    lemma_place_of_four(r, s, t, p, radices);
}

/// Where each run of the overload experiment stands: the repetition changes last, then the
/// payload size, the concurrency, the threshold, and with every run the mode. There are as
/// many runs as choices of all of these, repetitions are counted from one, and every run has
/// the number of requests and the percentage of the configuration.
pub proof fn law_overload_order(
    cfg: OverloadModel,
    r: usize,
    s: usize,
    c: usize,
    t: usize,
    m: usize,
)
    requires
        r < cfg.repeats,
        s < cfg.payload_sizes.len() <= usize::MAX,
        c < cfg.concurrency.len() <= usize::MAX,
        t < cfg.thresholds.len() <= usize::MAX,
        m < cfg.modes.len() <= usize::MAX,
    ensures
        ({
            let position = (((r * cfg.payload_sizes.len() + s) * cfg.concurrency.len() + c)
                * cfg.thresholds.len() + t) * cfg.modes.len() + m;
            let run = overload_run(cfg, position as nat);
            &&& position < overload_runs(cfg)
            &&& run.1 == r + 1
            &&& run.0.payload_size == cfg.payload_sizes[s as int]
            &&& run.0.concurrency == cfg.concurrency[c as int]
            &&& run.0.threshold == cfg.thresholds[t as int]
            &&& run.0.mode == cfg.modes[m as int]
            &&& run.0.total_requests == cfg.total_requests
            &&& run.0.reject_percent == cfg.reject_percent
        }),
        overload_runs(cfg) == cfg.repeats * cfg.payload_sizes.len() * cfg.concurrency.len()
            * cfg.thresholds.len() * cfg.modes.len(),
{
    let radices = overload_radices(cfg);
    let choices = seq![r, s, c, t, m];
    assert(in_radices(choices, radices));
    law_place(choices, radices);
    lemma_place_of_five(r, s, c, t, m, radices);
}

/// What a configuration chooses from is what the trials at fixed rates go through.
pub proof fn law_rate_choices(a: RustPpsModel, b: NginxPpsModel, c: H2LoadRateModel)
    ensures
        rust_pps_choices(a).repeats == a.repeats && rust_pps_choices(a).payload_sizes
            == a.payload_sizes && rust_pps_choices(a).target_pps == a.target_pps
            && rust_pps_choices(a).protocols == a.protocols,
        nginx_choices(b).repeats == b.repeats && nginx_choices(b).payload_sizes == b.payload_sizes
            && nginx_choices(b).target_pps == b.target_pps && nginx_choices(b).protocols
            == b.protocols,
        h2load_choices(c).repeats == c.repeats && h2load_choices(c).payload_sizes
            == c.payload_sizes && h2load_choices(c).target_pps == c.target_pps
            && h2load_choices(c).protocols == c.protocols,
{
}

} // verus!
