//! Driving `h2load`: what it can do, how it is called, and what its log says.
use crate::csv::{add_line, all_lines, law_lines_read_back, lemma_next_line};
use crate::error::{outcome, CliError, UsageError};
use crate::fixed_rate::schedule;
use crate::h2load_config::{h2load_valid, H2LoadRateConfig, H2LoadRateModel};
use crate::number::{
    count_text, decimal, law_printed_digits, law_prints_read, law_read_undoes_print,
    lemma_signed_read, read_i32, read_u64, reads_as, signed_decimal, signed_number,
    unsigned_number,
};
use crate::protocol::{h2load_protocol_name, has_protocol, Protocol};
use crate::text::{
    all_white, chars_of, contains_text, find, find_from, has_part, is_white_space, joined,
    law_first_occurrence, law_join_splits, law_lines_concat, law_split_concat, law_split_plain,
    law_trim_end_of, law_trim_ignores_white, lemma_find, lines, pieces, split, text_between,
    text_lines, trim, trim_end_of, trimmed, white_space, without_trailing,
};
use vstd::arithmetic::div_mod::*;
use vstd::prelude::*;
use vstd::string::*;

verus! {

// ---------------------------------------------------------------------------
// What it can do
// ---------------------------------------------------------------------------

/// What a build of `h2load` can do.
#[derive(Debug, Clone, Copy, PartialEq, Eq, Structural)]
pub struct H2LoadCapabilities {
    pub h3: bool,
    pub rps: bool,
    pub log_file: bool,
    pub alpn_list: bool,
}

/// Reads what `h2load` can do from its help: the flags that are named there.
pub fn detect_h2load_capabilities(help: &str) -> (r: H2LoadCapabilities)
    ensures
        r.h3 == has_part(help@, "--h3"@),
        r.rps == has_part(help@, "--rps"@),
        r.log_file == has_part(help@, "--log-file"@),
        r.alpn_list == has_part(help@, "--alpn-list"@),
{
    H2LoadCapabilities {
        h3: contains_text(help, "--h3"),
        rps: contains_text(help, "--rps"),
        log_file: contains_text(help, "--log-file"),
        alpn_list: contains_text(help, "--alpn-list"),
    }
}

/// What keeps `h2load` from running a configuration at all.
pub open spec fn missing_capability(cfg: H2LoadRateModel, caps: H2LoadCapabilities) -> Result<
    (),
    UsageError<Seq<char>>,
> {
    if !caps.log_file {
        Err(UsageError::NoLogFile(cfg.h2load))
    } else if cfg.protocols.contains(Protocol::H3) && !caps.h3 {
        Err(UsageError::NoH3(cfg.h2load))
    } else {
        Ok(())
    }
}

/// Checks that `h2load` can run a configuration: it has to write a log, and to speak
/// HTTP/3 where that is listed.
pub fn check_capabilities(cfg: &H2LoadRateConfig, caps: &H2LoadCapabilities) -> (r: Result<
    (),
    CliError,
>)
    ensures
        outcome(r) == missing_capability(cfg@, *caps),
{
    if !caps.log_file {
        return Err(UsageError::NoLogFile(cfg.h2load.clone()));
    }
    if has_protocol(&cfg.protocols, Protocol::H3) && !caps.h3 {
        return Err(UsageError::NoH3(cfg.h2load.clone()));
    }
    Ok(())
}

/// Checks that a trial can be run: the HTTP/3 server takes one client alone.
pub fn check_clients(cfg: &H2LoadRateConfig, protocol: Protocol) -> (r: Result<(), CliError>)
    ensures
        outcome(r) == if protocol == Protocol::H3 && cfg.clients != 1 {
            Err::<(), UsageError<Seq<char>>>(UsageError::H3Clients)
        } else {
            Ok::<(), UsageError<Seq<char>>>(())
        },
{
    if protocol == Protocol::H3 && cfg.clients != 1 {
        return Err(UsageError::H3Clients);
    }
    Ok(())
}

// ---------------------------------------------------------------------------
// How it is called
// ---------------------------------------------------------------------------

/// The name of the file that holds a payload.
pub fn payload_file(payload_size: usize, repeat_index: usize) -> (r: String)
    ensures
        r@ == "payload-"@ + decimal(payload_size as nat) + "-"@ + decimal(repeat_index as nat)
            + ".bin"@,
{
    let mut r = "payload-".to_owned();
    r.append(count_text(payload_size).as_str());
    r.append("-");
    r.append(count_text(repeat_index).as_str());
    r.append(".bin");
    r
}

/// What the names of a trial's files start with.
pub open spec fn trial_stem(
    protocol: Protocol,
    payload_size: nat,
    target_pps: nat,
    repeat_index: nat,
) -> Seq<char> {
    protocol.short_name() + "-payload"@ + decimal(payload_size) + "-pps"@ + decimal(target_pps)
        + "-rep"@ + decimal(repeat_index)
}

/// The name of one of a trial's files.
pub fn trial_file(
    protocol: Protocol,
    payload_size: usize,
    target_pps: usize,
    repeat_index: usize,
    extension: &str,
) -> (r: String)
    ensures
        r@ == trial_stem(protocol, payload_size as nat, target_pps as nat, repeat_index as nat)
            + "."@ + extension@,
{
    let mut r = h2load_protocol_name(protocol).to_owned();
    r.append("-payload");
    r.append(count_text(payload_size).as_str());
    r.append("-pps");
    r.append(count_text(target_pps).as_str());
    r.append("-rep");
    r.append(count_text(repeat_index).as_str());
    r.append(".");
    r.append(extension);
    r
}

/// The address that requests are sent to.
pub fn target_url(port: u16) -> (r: String)
    ensures
        r@ == "https://localhost:"@ + decimal(port as nat) + "/sbi"@,
{
    let mut r = "https://localhost:".to_owned();
    r.append(count_text(port as usize).as_str());
    r.append("/sbi");
    r
}

/// The part of a rate that falls to each of the clients, rounded up.
pub open spec fn per_client(target_pps: nat, clients: nat) -> nat {
    if target_pps % clients == 0 {
        target_pps / clients
    } else {
        target_pps / clients + 1
    }
}

/// The rate that `h2load` is asked for, which is as much as was wanted or, where the
/// clients cannot share it evenly, a little more.
pub open spec fn effective_rate(
    cfg: H2LoadRateModel,
    caps: H2LoadCapabilities,
    target_pps: nat,
) -> nat {
    if caps.rps {
        per_client(target_pps, cfg.clients as nat) * cfg.clients as nat
    } else {
        target_pps
    }
}

/// The paths and the address that a trial needs.
#[derive(Debug, Clone)]
pub struct TrialPaths {
    pub payload: String,
    pub log: String,
    pub timing: String,
    pub url: String,
}

/// The arguments that choose the protocol.
pub open spec fn protocol_argument(protocol: Protocol, caps: H2LoadCapabilities) -> Seq<char> {
    match protocol {
        Protocol::H2 => if caps.alpn_list {
            "--alpn-list=h2"@
        } else {
            "--npn-list=h2"@
        },
        Protocol::H3 => "--h3"@,
    }
}

/// The arguments of a trial.
pub open spec fn trial_arguments(
    cfg: H2LoadRateModel,
    caps: H2LoadCapabilities,
    protocol: Protocol,
    target_pps: nat,
    paths: TrialPaths,
) -> Seq<Seq<char>> {
    let load = seq![
        protocol_argument(protocol, caps),
        "-c"@,
        decimal(cfg.clients as nat),
        "-m"@,
        decimal(cfg.streams as nat),
        "-t"@,
        decimal(cfg.threads as nat),
        "-H"@,
        "content-type: application/octet-stream"@,
        "-d"@,
        paths.payload@,
        "--log-file"@,
        paths.log@,
    ];
    let rate = if caps.rps {
        seq![
            "-D"@,
            decimal(cfg.duration as nat).push('s'),
            "--rps"@,
            decimal(per_client(target_pps, cfg.clients as nat)),
        ]
    } else {
        seq![
            "-n"@,
            decimal(target_pps * cfg.duration as nat),
            "--timing-script-file"@,
            paths.timing@,
        ]
    };
    load + rate + seq![paths.url@]
}

/// A call of `h2load`.
#[derive(Debug, Clone)]
pub struct H2LoadCommand {
    pub args: Vec<String>,
    /// The rate that it is asked for.
    pub effective_target_pps: usize,
    /// Whether it needs a file that says when each request is due.
    pub timing_script: bool,
}

/// Whether the numbers of a trial fit in the machine.
pub open spec fn trial_fits(
    cfg: H2LoadRateModel,
    caps: H2LoadCapabilities,
    target_pps: nat,
) -> bool {
    if caps.rps {
        effective_rate(cfg, caps, target_pps) <= usize::MAX
    } else {
        target_pps * cfg.duration as nat <= usize::MAX
    }
}

fn text(s: &str) -> (r: String)
    ensures
        r@ == s@,
{
    s.to_owned()
}

/// The call of `h2load` for a trial. Where it cannot be given a rate, it is given the
/// times of the requests, which works for one client alone.
pub fn h2load_command(
    cfg: &H2LoadRateConfig,
    caps: &H2LoadCapabilities,
    protocol: Protocol,
    target_pps: usize,
    paths: &TrialPaths,
) -> (r: Result<H2LoadCommand, CliError>)
    requires
        h2load_valid(cfg@),
        caps.rps || cfg.clients == 1 ==> trial_fits(cfg@, *caps, target_pps as nat),
    ensures
        match r {
            Ok(command) => {
                &&& caps.rps || cfg.clients == 1
                &&& command.args.deep_view() == trial_arguments(
                    cfg@,
                    *caps,
                    protocol,
                    target_pps as nat,
                    *paths,
                )
                &&& command.effective_target_pps == effective_rate(cfg@, *caps, target_pps as nat)
                &&& command.timing_script == !caps.rps
            },
            Err(e) => !caps.rps && cfg.clients != 1 && e@ == UsageError::NoRps(cfg@.h2load),
        },
{
    if !caps.rps && cfg.clients != 1 {
        return Err(UsageError::NoRps(cfg.h2load.clone()));
    }
    let chosen = match protocol {
        Protocol::H2 => if caps.alpn_list {
            "--alpn-list=h2"
        } else {
            "--npn-list=h2"
        },
        Protocol::H3 => "--h3",
    };
    let mut args: Vec<String> = vec![
        text(chosen),
        text("-c"),
        count_text(cfg.clients),
        text("-m"),
        count_text(cfg.streams),
        text("-t"),
        count_text(cfg.threads),
        text("-H"),
        text("content-type: application/octet-stream"),
        text("-d"),
        paths.payload.clone(),
        text("--log-file"),
        paths.log.clone(),
    ];
    let mut effective: usize = target_pps;
    if caps.rps {
        let share: usize = target_pps / cfg.clients;
        proof {
            lemma_share(target_pps as nat, cfg.clients as nat);
        }
        let each: usize = if target_pps % cfg.clients == 0 {
            share
        } else {
            share + 1
        };
        let mut seconds = crate::number::decimal_text(cfg.duration);
        seconds.push('s');
        args.push(text("-D"));
        args.push(seconds);
        args.push(text("--rps"));
        args.push(count_text(each));
        effective = each * cfg.clients;
    } else {
        args.push(text("-n"));
        args.push(count_text(timing_requests(target_pps, cfg.duration)));
        args.push(text("--timing-script-file"));
        args.push(paths.timing.clone());
    }
    args.push(paths.url.clone());
    assert(args.deep_view() =~= trial_arguments(
        cfg@,
        *caps,
        protocol,
        target_pps as nat,
        *paths,
    ));
    Ok(
        H2LoadCommand {
            args,
            effective_target_pps: effective,
            timing_script: !caps.rps,
        },
    )
}

proof fn lemma_share(target_pps: nat, clients: nat)
    requires
        clients > 0,
    ensures
        target_pps % clients != 0 ==> target_pps / clients < target_pps,
        target_pps / clients <= target_pps,
{
    lemma_fundamental_div_mod(target_pps as int, clients as int);
    let q = target_pps / clients;
    assert(clients * q >= q) by (nonlinear_arith)
        requires
            clients >= 1,
            q >= 0,
    ;
}

proof fn lemma_product(a: nat, b: nat)
    requires
        a <= usize::MAX,
        b <= u64::MAX,
    ensures
        0 <= a * b <= 0xffff_ffff_ffff_ffff * 0xffff_ffff_ffff_ffff,
{
    assert(0 <= a * b <= 0xffff_ffff_ffff_ffff * 0xffff_ffff_ffff_ffff) by (nonlinear_arith)
        requires
            0 <= a <= 0xffff_ffff_ffff_ffff,
            0 <= b <= 0xffff_ffff_ffff_ffff,
    ;
}

/// A file that says when each request is due: a line for each of them, with the time
/// in milliseconds, printed with six places, and the address.
pub open spec fn timing_lines(offsets: Seq<Seq<char>>, url: Seq<char>) -> Seq<Seq<char>> {
    offsets.map_values(|offset: Seq<char>| offset.push('\t') + url)
}

/// How many requests a rate makes in so many seconds, each of which has a line in the
/// file that says when it is due.
pub fn timing_requests(target_pps: usize, seconds: u64) -> (r: usize)
    requires
        target_pps * seconds <= usize::MAX,
    ensures
        r == target_pps * seconds,
        r == schedule(target_pps as nat, seconds as nat),
{
    proof {
        lemma_product(target_pps as nat, seconds as nat);
    }
    (target_pps as u128 * seconds as u128) as usize
}

/// Writes the file that says when each request of a rate is due, given the time of
/// each, as many as `timing_requests` says.
pub fn write_timing_script(
    target_pps: usize,
    seconds: u64,
    offsets: &Vec<String>,
    url: &str,
) -> (r: String)
    requires
        offsets@.len() == target_pps * seconds,
    ensures
        timing_lines(offsets.deep_view(), url@).len() == target_pps * seconds,
        r@ == all_lines(timing_lines(offsets.deep_view(), url@)),
{
    let ghost wanted = timing_lines(offsets.deep_view(), url@);
    let mut out = String::new();
    let mut i: usize = 0;
    assert(wanted.take(0) =~= Seq::<Seq<char>>::empty());
    assert(out@ =~= Seq::<char>::empty());
    while i < offsets.len()
        invariant
            i <= offsets@.len(),
            wanted == timing_lines(offsets.deep_view(), url@),
            out@ == all_lines(wanted.take(i as int)),
        decreases offsets@.len() - i,
    {
        let mut line = offsets[i].clone();
        line.push('\t');
        line.append(url);
        proof {
            lemma_next_line(wanted, i as int);
        }
        assert(offsets.deep_view()[i as int] == offsets@[i as int]@);
        assert(wanted[i as int] == line@);
        add_line(&mut out, line.as_str());
        i = i + 1;
    }
    assert(wanted.take(i as int) =~= wanted);
    out
}

/// The rate that the clients make together is at least the one that was wanted, and
/// less than one more for each client.
pub proof fn law_effective_rate(cfg: H2LoadRateModel, caps: H2LoadCapabilities, target_pps: nat)
    requires
        cfg.clients > 0,
    ensures
        target_pps <= effective_rate(cfg, caps, target_pps) < target_pps + cfg.clients,
{
    let n = cfg.clients as nat;
    lemma_fundamental_div_mod(target_pps as int, n as int);
    let q = target_pps / n;
    assert(n * q == q * n && (q + 1) * n == q * n + n) by (nonlinear_arith);
}

/// The name of the container that `h2load` runs in, where it does.
pub fn docker_h2load_container_name(
    h2load_path: &str,
    protocol: Protocol,
    target_pps: usize,
    process: u32,
) -> (r: Option<String>)
    ensures
        match r {
            Some(name) => has_part(h2load_path@, "h2load-docker"@) && name@ == "rust-h2load-"@
                + decimal(process as nat) + "-"@ + protocol.short_name() + "-"@ + decimal(
                target_pps as nat,
            ),
            None => !has_part(h2load_path@, "h2load-docker"@),
        },
{
    if !contains_text(h2load_path, "h2load-docker") {
        return None;
    }
    let mut name = "rust-h2load-".to_owned();
    name.append(count_text(process as usize).as_str());
    name.append("-");
    name.append(h2load_protocol_name(protocol));
    name.append("-");
    name.append(count_text(target_pps).as_str());
    Some(name)
}

// ---------------------------------------------------------------------------
// What its log says
// ---------------------------------------------------------------------------

/// What a log says, as values.
#[verifier::ext_equal]
pub struct LogModel {
    /// The latencies, in nanoseconds.
    pub latencies: Seq<u128>,
    pub success: nat,
    pub failed: nat,
}

/// A field of a line of a log.
pub open spec fn log_field(line: Seq<char>, i: int) -> Option<Seq<char>> {
    let fields = split(line, '\t');
    if 0 <= i < fields.len() {
        Some(fields[i])
    } else {
        None
    }
}

/// The status in a line: its second field, if that is a number.
pub open spec fn line_status(line: Seq<char>) -> Option<int> {
    match log_field(line, 1) {
        Some(field) => signed_number(field, i32::MAX as nat),
        None => None,
    }
}

/// The microseconds in a line: its third field, if that is a number.
pub open spec fn line_micros(line: Seq<char>) -> Option<nat> {
    match log_field(line, 2) {
        Some(field) => unsigned_number(field, u64::MAX as nat),
        None => None,
    }
}

/// What the lines of a log say. A line counts as a success or a failure by its
/// status, and as a latency by its time, each where it has one.
pub open spec fn log_of(all: Seq<Seq<char>>) -> LogModel
    decreases all.len(),
{
    if all.len() == 0 {
        LogModel { latencies: seq![], success: 0, failed: 0 }
    } else {
        let before = log_of(all.drop_last());
        let line = all.last();
        LogModel {
            latencies: match line_micros(line) {
                Some(n) => before.latencies.push((n * 1000) as u128),
                None => before.latencies,
            },
            success: match line_status(line) {
                Some(n) if 200 <= n <= 299 => before.success + 1,
                _ => before.success,
            },
            failed: match line_status(line) {
                Some(n) if !(200 <= n <= 299) => before.failed + 1,
                _ => before.failed,
            },
        }
    }
}

/// What a log says.
#[derive(Debug)]
pub struct ParsedH2LoadLog {
    pub latencies: Vec<u128>,
    pub success: usize,
    pub failed: usize,
}

impl View for ParsedH2LoadLog {
    type V = LogModel;

    open spec fn view(&self) -> LogModel {
        LogModel {
            latencies: self.latencies@,
            success: self.success as nat,
            failed: self.failed as nat,
        }
    }
}

fn field_status(fields: &Vec<String>) -> (r: Option<i32>)
    ensures
        match r {
            Some(n) => fields@.len() > 1 && signed_number(fields@[1]@, i32::MAX as nat) == Some(
                n as int,
            ),
            None => fields@.len() <= 1 || signed_number(fields@[1]@, i32::MAX as nat) is None,
        },
{
    if fields.len() > 1 {
        read_i32(fields[1].as_str())
    } else {
        None
    }
}

fn field_micros(fields: &Vec<String>) -> (r: Option<u64>)
    ensures
        match r {
            Some(n) => fields@.len() > 2 && unsigned_number(fields@[2]@, u64::MAX as nat) == Some(
                n as nat,
            ),
            None => fields@.len() <= 2 || unsigned_number(fields@[2]@, u64::MAX as nat) is None,
        },
{
    if fields.len() > 2 {
        read_u64(fields[2].as_str())
    } else {
        None
    }
}

/// Reads a log.
pub fn parse_h2load_log(text: &str) -> (r: ParsedH2LoadLog)
    ensures
        r@ == log_of(lines(text@)),
{
    let all = text_lines(text);
    let ghost wanted = all.deep_view();
    let mut latencies: Vec<u128> = Vec::new();
    let mut success: usize = 0;
    let mut failed: usize = 0;
    let mut i: usize = 0;
    assert(wanted.take(0) =~= Seq::<Seq<char>>::empty());
    assert(log_of(wanted.take(0)).latencies =~= latencies@);
    while i < all.len()
        invariant
            i <= all@.len(),
            wanted == all.deep_view(),
            wanted == lines(text@),
            success + failed <= i,
            (LogModel { latencies: latencies@, success: success as nat, failed: failed as nat })
                == log_of(wanted.take(i as int)),
        decreases all@.len() - i,
    {
        assert(wanted.take(i + 1).drop_last() =~= wanted.take(i as int));
        assert(wanted.take(i + 1).last() == all@[i as int]@);
        let fields = pieces(all[i].as_str(), '\t');
        let ghost parts = fields.deep_view();
        assert(fields@.len() == parts.len());
        assert(fields@.len() > 1 ==> parts[1] == fields@[1]@);
        assert(fields@.len() > 2 ==> parts[2] == fields@[2]@);
        let status = field_status(&fields);
        let micros = field_micros(&fields);
        match micros {
            Some(n) => {
                latencies.push(n as u128 * 1000);
            },
            None => {},
        }
        match status {
            Some(n) => {
                if 200 <= n && n <= 299 {
                    success = success + 1;
                } else {
                    failed = failed + 1;
                }
            },
            None => {},
        }
        i = i + 1;
    }
    assert(wanted.take(i as int) =~= wanted);
    ParsedH2LoadLog { latencies, success, failed }
}

/// No line of a log is counted twice: there are at most as many successes and
/// failures together, and as many latencies, as there are lines.
pub proof fn law_log_counts(all: Seq<Seq<char>>)
    ensures
        log_of(all).success + log_of(all).failed <= all.len(),
        log_of(all).latencies.len() <= all.len(),
    decreases all.len(),
{
    if all.len() > 0 {
        law_log_counts(all.drop_last());
    }
}

/// A log has as many latencies as it has lines with a time, and as many successes and
/// failures as it has lines with a status of the one sort and of the other. The latencies
/// stand in the order of their lines, each a thousand times the microseconds of its own.
pub proof fn law_log_figures(all: Seq<Seq<char>>)
    ensures
        log_of(all).latencies == all.filter(|line: Seq<char>| line_micros(line) is Some).map_values(
            |line: Seq<char>| (line_micros(line)->0 * 1000) as u128,
        ),
        log_of(all).success == all.filter(
            |line: Seq<char>| line_status(line) matches Some(n) && 200 <= n <= 299,
        ).len(),
        log_of(all).failed == all.filter(
            |line: Seq<char>| line_status(line) matches Some(n) && (n < 200 || n > 299),
        ).len(),
    decreases all.len(),
{
    reveal(Seq::filter);
    let timed = |line: Seq<char>| line_micros(line) is Some;
    let nanos = |line: Seq<char>| (line_micros(line)->0 * 1000) as u128;
    if all.len() > 0 {
        law_log_figures(all.drop_last());
        if line_micros(all.last()) is Some {
            assert(all.filter(timed) =~= all.drop_last().filter(timed).push(all.last()));
        }
    }
    assert(log_of(all).latencies =~= all.filter(timed).map_values(nanos));
}

/// What two logs say one after the other is what the first says and then what the second
/// says: the latencies follow each other, and the counts add up.
pub proof fn law_logs_follow(a: Seq<Seq<char>>, b: Seq<Seq<char>>)
    ensures
        log_of(a + b).latencies == log_of(a).latencies + log_of(b).latencies,
        log_of(a + b).success == log_of(a).success + log_of(b).success,
        log_of(a + b).failed == log_of(a).failed + log_of(b).failed,
    decreases b.len(),
{
    if b.len() == 0 {
        assert(a + b =~= a);
        assert(log_of(a + b).latencies =~= log_of(a).latencies + log_of(b).latencies);
    } else {
        assert((a + b).drop_last() =~= a + b.drop_last());
        law_logs_follow(a, b.drop_last());
        assert(log_of(a + b).latencies =~= log_of(a).latencies + log_of(b).latencies);
    }
}

/// The same of the texts, where the first ends its last line.
pub proof fn law_log_texts_follow(x: Seq<char>, y: Seq<char>)
    ensures
        ({
            let whole = log_of(lines(x.push('\n') + y));
            let first = log_of(lines(x.push('\n')));
            let second = log_of(lines(y));
            &&& whole.latencies == first.latencies + second.latencies
            &&& whole.success == first.success + second.success
            &&& whole.failed == first.failed + second.failed
        }),
{
    law_lines_concat(x, y);
    law_logs_follow(lines(x.push('\n')), lines(y));
}

/// The fields of a line stand between tabs. The second is the status, the third the time;
/// where one is missing or is no number in its range, the line has none.
pub proof fn law_log_line_fields(fields: Seq<Seq<char>>)
    requires
        fields.len() > 0,
        forall|i: int| 0 <= i < fields.len() ==> !(#[trigger] fields[i]).contains('\t'),
    ensures
        line_status(joined(fields, '\t')) == if fields.len() > 1 {
            signed_number(fields[1], 0x7fff_ffff)
        } else {
            None
        },
        line_micros(joined(fields, '\t')) == if fields.len() > 2 {
            unsigned_number(fields[2], 0xffff_ffff_ffff_ffff)
        } else {
            None
        },
{
    law_join_splits(fields, '\t');
}

/// What a log has of a request: when it started, its status, and how long it took in
/// microseconds.
#[verifier::ext_equal]
pub struct LogEntry {
    pub stamp: nat,
    pub status: int,
    pub micros: nat,
}

/// The line of a request.
pub open spec fn entry_line(entry: LogEntry) -> Seq<char> {
    decimal(entry.stamp).push('\t') + signed_decimal(entry.status).push('\t') + decimal(
        entry.micros,
    )
}

/// The log of some requests: a line for each of them.
pub open spec fn entry_lines(entries: Seq<LogEntry>) -> Seq<Seq<char>> {
    entries.map_values(|entry: LogEntry| entry_line(entry))
}

proof fn lemma_entry_line(entry: LogEntry)
    requires
        -0x8000_0000 <= entry.status <= 0x7fff_ffff,
        entry.micros <= 0xffff_ffff_ffff_ffff,
    ensures
        line_status(entry_line(entry)) == Some(entry.status),
        line_micros(entry_line(entry)) == Some(entry.micros),
        !entry_line(entry).contains('\n'),
        entry_line(entry).len() > 0,
        entry_line(entry).last() != '\r',
{
    let a = decimal(entry.stamp);
    let b = signed_decimal(entry.status);
    let c = decimal(entry.micros);
    law_printed_digits(entry.stamp);
    law_printed_digits(entry.micros);
    law_printed_digits(if entry.status < 0 {
        (-entry.status) as nat
    } else {
        entry.status as nat
    });
    lemma_signed_read(entry.status, 0x7fff_ffff);
    law_read_undoes_print(entry.micros, 0xffff_ffff_ffff_ffff);
    let fields = seq![a, b, c];
    assert forall|i: int| 0 <= i < b.len() implies '0' <= #[trigger] b[i] <= '9' || b[i] == '-' by {
        if entry.status < 0 && i > 0 {
            assert(b[i] == decimal((-entry.status) as nat)[i - 1]);
        }
    }
    assert(!a.contains('\t') && !b.contains('\t') && !c.contains('\t'));
    reveal_with_fuel(joined, 3);
    assert(fields.drop_first() =~= seq![b, c]);
    assert(fields.drop_first().drop_first() =~= seq![c]);
    let line = entry_line(entry);
    assert(joined(fields, '\t') =~= line);
    law_log_line_fields(fields);
    assert(line.last() == c.last());
    assert('0' <= c[c.len() - 1] <= '9');
    assert forall|i: int| 0 <= i < line.len() implies line[i] != '\n' by {
        let n = a.len() as int;
        let k = n + 1 + b.len();
        if i < n {
            assert(line[i] == a[i]);
        } else if n < i < k {
            assert(line[i] == b[i - n - 1]);
        } else if k < i {
            assert(line[i] == c[i - k - 1]);
        }
    }
}

/// A log of some requests is read back: it has the latency of each of them in
/// nanoseconds, in their order and none left out, and every one of them counts as a
/// success where its status is from 200 to 299 and as a failure where it is not.
pub proof fn law_log_read_back(entries: Seq<LogEntry>)
    requires
        forall|i: int|
            0 <= i < entries.len() ==> -0x8000_0000 <= (#[trigger] entries[i]).status
                <= 0x7fff_ffff && entries[i].micros <= 0xffff_ffff_ffff_ffff,
    ensures
        ({
            let log = log_of(lines(all_lines(entry_lines(entries))));
            &&& log.latencies.len() == entries.len()
            &&& forall|i: int|
                0 <= i < entries.len() ==> #[trigger] log.latencies[i] == entries[i].micros * 1000
            &&& log.success == entries.filter(|e: LogEntry| 200 <= e.status <= 299).len()
            &&& log.success + log.failed == entries.len()
        }),
{
    let all = entry_lines(entries);
    assert forall|i: int| 0 <= i < all.len() implies !(#[trigger] all[i]).contains('\n') && !(
    all[i].len() > 0 && all[i].last() == '\r') by {
        assert(entries[i].micros <= 0xffff_ffff_ffff_ffff);
        lemma_entry_line(entries[i]);
    }
    law_lines_read_back(all);
    lemma_entries_read(entries);
}

proof fn lemma_entries_read(entries: Seq<LogEntry>)
    requires
        forall|i: int|
            0 <= i < entries.len() ==> -0x8000_0000 <= (#[trigger] entries[i]).status
                <= 0x7fff_ffff && entries[i].micros <= 0xffff_ffff_ffff_ffff,
    ensures
        ({
            let log = log_of(entry_lines(entries));
            &&& log.latencies.len() == entries.len()
            &&& forall|i: int|
                0 <= i < entries.len() ==> #[trigger] log.latencies[i] == entries[i].micros * 1000
            &&& log.success == entries.filter(|e: LogEntry| 200 <= e.status <= 299).len()
            &&& log.success + log.failed == entries.len()
        }),
    decreases entries.len(),
{
    reveal(Seq::filter);
    if entries.len() > 0 {
        let rest = entries.drop_last();
        assert forall|i: int| 0 <= i < rest.len() implies -0x8000_0000 <= (
        #[trigger] rest[i]).status <= 0x7fff_ffff && rest[i].micros <= 0xffff_ffff_ffff_ffff by {
            assert(rest[i] == entries[i]);
        }
        lemma_entries_read(rest);
        assert(entry_lines(entries).drop_last() =~= entry_lines(rest));
        let last = entries[entries.len() - 1];
        lemma_entry_line(last);
        assert(entry_lines(entries).last() == entry_line(last));
        let log = log_of(entry_lines(entries));
        assert forall|i: int| 0 <= i < entries.len() implies #[trigger] log.latencies[i]
            == entries[i].micros * 1000 by {
            if i < rest.len() {
                assert(log.latencies[i] == log_of(entry_lines(rest)).latencies[i]);
            }
        }
    }
}

// ---------------------------------------------------------------------------
// What a container uses
// ---------------------------------------------------------------------------

/// The unit of a figure of memory.
#[derive(Debug, Clone, Copy, PartialEq, Eq, Structural)]
pub enum MemUnit {
    Bytes,
    Kilobytes,
    Megabytes,
    Gigabytes,
}

/// The unit that a text names; one that is not known counts as megabytes.
pub open spec fn unit_named(unit: Seq<char>) -> MemUnit {
    if unit == "B"@ {
        MemUnit::Bytes
    } else if unit == "kB"@ || unit == "KB"@ || unit == "KiB"@ {
        MemUnit::Kilobytes
    } else if unit == "GB"@ || unit == "GiB"@ {
        MemUnit::Gigabytes
    } else {
        MemUnit::Megabytes
    }
}

/// Whether a character is part of a number.
pub open spec fn numeral(c: char) -> bool {
    ('0' <= c && c <= '9') || c == '.'
}

/// The characters of a text that are parts of a number.
pub open spec fn numerals(s: Seq<char>) -> Seq<char>
    decreases s.len(),
{
    if s.len() == 0 {
        seq![]
    } else if numeral(s.last()) {
        numerals(s.drop_last()).push(s.last())
    } else {
        numerals(s.drop_last())
    }
}

/// The characters of a text that are neither parts of a number nor white space.
pub open spec fn letters(s: Seq<char>) -> Seq<char>
    decreases s.len(),
{
    if s.len() == 0 {
        seq![]
    } else if !numeral(s.last()) && !white_space(s.last()) {
        letters(s.drop_last()).push(s.last())
    } else {
        letters(s.drop_last())
    }
}

/// What a sample says: the processor's share in percent, and the memory as a number
/// of units.
#[derive(Debug, Clone)]
pub struct DockerSample {
    pub cpu: String,
    pub mem: String,
    pub unit: MemUnit,
}

/// The values of a `DockerSample`.
#[verifier::ext_equal]
pub struct SampleModel {
    pub cpu: Seq<char>,
    pub mem: Seq<char>,
    pub unit: MemUnit,
}

impl View for DockerSample {
    type V = SampleModel;

    open spec fn view(&self) -> SampleModel {
        SampleModel { cpu: self.cpu@, mem: self.mem@, unit: self.unit }
    }
}

/// The memory in use, out of a text that puts the limit behind a slash.
pub open spec fn memory_of(value: Seq<char>) -> (Seq<char>, MemUnit) {
    let used = trim(value.take(find(value, '/')));
    (numerals(used), unit_named(letters(used)))
}

/// What the first line of a sample says: the processor's share, with a percent sign,
/// and behind a comma the memory.
pub open spec fn sample_of(line: Seq<char>) -> Option<SampleModel> {
    if line.contains(',') {
        let comma = find(line, ',');
        let mem = memory_of(trim(line.skip(comma + 1)));
        Some(
            SampleModel {
                cpu: trim_end_of(trim(line.take(comma)), '%'),
                mem: mem.0,
                unit: mem.1,
            },
        )
    } else {
        None
    }
}

/// Takes a figure of memory apart.
pub fn parse_docker_mem(value: &str) -> (r: (String, MemUnit))
    ensures
        (r.0@, r.1) == memory_of(value@),
{
    let chars = chars_of(value);
    let slash: usize = find_from(&chars, 0, '/');
    assert(chars@.skip(0) =~= value@);
    let left = text_between(&chars, 0, slash);
    assert(left@ =~= value@.take(slash as int));
    let used = trimmed(left.as_str());
    let all = chars_of(used.as_str());
    let mut number = String::new();
    let mut unit = String::new();
    let mut i: usize = 0;
    assert(all@.take(0) =~= Seq::<char>::empty());
    assert(number@ =~= Seq::<char>::empty());
    assert(unit@ =~= Seq::<char>::empty());
    while i < all.len()
        invariant
            i <= all@.len(),
            number@ == numerals(all@.take(i as int)),
            unit@ == letters(all@.take(i as int)),
        decreases all@.len() - i,
    {
        assert(all@.take(i + 1).drop_last() =~= all@.take(i as int));
        let c: char = all[i];
        if ('0' <= c && c <= '9') || c == '.' {
            number.push(c);
        } else if !is_white_space(c) {
            unit.push(c);
        }
        i = i + 1;
    }
    assert(all@.take(i as int) =~= all@);
    let name = unit.as_str();
    let known = if crate::text::same(name, "B") {
        MemUnit::Bytes
    } else if crate::text::same(name, "kB") || crate::text::same(name, "KB")
        || crate::text::same(name, "KiB") {
        MemUnit::Kilobytes
    } else if crate::text::same(name, "GB") || crate::text::same(name, "GiB") {
        MemUnit::Gigabytes
    } else {
        MemUnit::Megabytes
    };
    (number, known)
}

/// Reads a sample: its first line.
pub fn read_docker_sample(text: &str) -> (r: Option<DockerSample>)
    ensures
        match r {
            Some(sample) => lines(text@).len() > 0 && sample_of(lines(text@)[0]) == Some(sample@),
            None => lines(text@).len() == 0 || sample_of(lines(text@)[0]) is None,
        },
{
    let all = text_lines(text);
    assert(all.deep_view().len() == all@.len());
    if all.len() == 0 {
        return None;
    }
    assert(all.deep_view()[0] == all@[0]@);
    let chars = chars_of(all[0].as_str());
    let comma: usize = find_from(&chars, 0, ',');
    let ghost line = all@[0]@;
    proof {
        assert(chars@.skip(0) =~= line);
        lemma_find(line, ',');
    }
    if comma == chars.len() {
        return None;
    }
    let left = text_between(&chars, 0, comma);
    let right = text_between(&chars, comma + 1, chars.len());
    assert(left@ =~= line.take(comma as int));
    assert(right@ =~= line.skip(comma + 1));
    let share = trimmed(left.as_str());
    let cpu = without_trailing(share.as_str(), '%');
    let rest = trimmed(right.as_str());
    let mem = parse_docker_mem(rest.as_str());
    Some(DockerSample { cpu, mem: mem.0, unit: mem.1 })
}

// ---------------------------------------------------------------------------
// What a trial asks for, and what a sample says
// ---------------------------------------------------------------------------

/// Each client makes the smallest whole rate with which they reach the wanted one together,
/// so that one which they can share evenly is met exactly. Without rates of clients, the
/// wanted rate is asked for.
pub proof fn law_rate_is_shared(cfg: H2LoadRateModel, caps: H2LoadCapabilities, target_pps: nat)
    requires
        cfg.clients > 0,
    ensures
        ({
            let share = per_client(target_pps, cfg.clients as nat) as int;
            let rate = effective_rate(cfg, caps, target_pps);
            &&& share * cfg.clients >= target_pps
            &&& target_pps > 0 ==> (share - 1) * cfg.clients < target_pps
            &&& target_pps == 0 ==> share == 0
            &&& caps.rps ==> rate == share * cfg.clients
            &&& !caps.rps ==> rate == target_pps
            &&& target_pps % cfg.clients as nat == 0 ==> rate == target_pps
        }),
{
    let n = cfg.clients as int;
    let t = target_pps as int;
    lemma_fundamental_div_mod(t, n);
    lemma_mod_bound(t, n);
    let q = t / n;
    assert(n * q == q * n && (q + 1) * n == q * n + n && (q - 1) * n == q * n - n)
        by (nonlinear_arith);
    if t == 0 {
        assert(q == 0) by (nonlinear_arith)
            requires
                q == 0int / n,
                n > 0,
        ;
        lemma_small_mod(0, n as nat);
    }
}

/// What a trial is called with: the protocol first, the address last, and between them each
/// setting behind its flag, numbers as they are read back. The rate of a client is given
/// together with how long the trial lasts in seconds, and otherwise the number of requests
/// together with the file that says when each is due.
pub proof fn law_trial_arguments(
    cfg: H2LoadRateModel,
    caps: H2LoadCapabilities,
    protocol: Protocol,
    target_pps: nat,
    paths: TrialPaths,
)
    ensures
        ({
            let args = trial_arguments(cfg, caps, protocol, target_pps, paths);
            &&& args.len() == 18
            &&& protocol == Protocol::H3 ==> args[0] == "--h3"@
            &&& protocol == Protocol::H2 && caps.alpn_list ==> args[0] == "--alpn-list=h2"@
            &&& protocol == Protocol::H2 && !caps.alpn_list ==> args[0] == "--npn-list=h2"@
            &&& args[1] == "-c"@ && reads_as(args[2], cfg.clients as nat)
            &&& args[3] == "-m"@ && reads_as(args[4], cfg.streams as nat)
            &&& args[5] == "-t"@ && reads_as(args[6], cfg.threads as nat)
            &&& args[7] == "-H"@ && args[8] == "content-type: application/octet-stream"@
            &&& args[9] == "-d"@ && args[10] == paths.payload@
            &&& args[11] == "--log-file"@ && args[12] == paths.log@
            &&& caps.rps ==> args[13] == "-D"@ && args[14].len() > 0 && args[14].last() == 's'
                && reads_as(args[14].drop_last(), cfg.duration as nat) && args[15] == "--rps"@
                && reads_as(args[16], per_client(target_pps, cfg.clients as nat))
            &&& !caps.rps ==> args[13] == "-n"@ && reads_as(
                args[14],
                target_pps * cfg.duration as nat,
            ) && args[15] == "--timing-script-file"@ && args[16] == paths.timing@
            &&& args[17] == paths.url@
        }),
{
    law_prints_read(cfg.clients as nat, 0);
    law_prints_read(cfg.streams as nat, 0);
    law_prints_read(cfg.threads as nat, 0);
    law_prints_read(cfg.duration as nat, 0);
    law_prints_read(per_client(target_pps, cfg.clients as nat), 0);
    law_prints_read(target_pps * cfg.duration as nat, 0);
    assert(decimal(cfg.duration as nat).push('s').drop_last() =~= decimal(cfg.duration as nat));
}

/// What keeps a configuration from being run: first that no log is written, and then that
/// HTTP/3 is listed and not spoken; nothing else does.
pub proof fn law_missing_capability(cfg: H2LoadRateModel, caps: H2LoadCapabilities)
    ensures
        ({
            let r = missing_capability(cfg, caps);
            let unspoken = !caps.h3 && exists|i: int|
                0 <= i < cfg.protocols.len() && #[trigger] cfg.protocols[i] == Protocol::H3;
            &&& r is Ok <==> caps.log_file && !unspoken
            &&& !caps.log_file ==> r == Err::<(), UsageError<Seq<char>>>(
                UsageError::NoLogFile(cfg.h2load),
            )
            &&& caps.log_file && unspoken ==> r == Err::<(), UsageError<Seq<char>>>(
                UsageError::NoH3(cfg.h2load),
            )
        }),
{
}

/// A file that says when requests are due has a line for each of them, in their order: the
/// time, a tab and the address.
pub proof fn law_timing_lines(offsets: Seq<Seq<char>>, url: Seq<char>, i: int)
    requires
        0 <= i < offsets.len(),
        !offsets[i].contains('\t'),
        !url.contains('\t'),
    ensures
        timing_lines(offsets, url).len() == offsets.len(),
        split(timing_lines(offsets, url)[i], '\t') == seq![offsets[i], url],
{
    law_split_concat(offsets[i], url, '\t');
    law_split_plain(offsets[i], '\t');
    law_split_plain(url, '\t');
    assert(split(offsets[i], '\t') + split(url, '\t') =~= seq![offsets[i], url]);
}

/// What the names of a trial's files start with tells its protocol, its payload size, its rate
/// and its repetition, in parts between dashes.
pub proof fn law_trial_stem(
    protocol: Protocol,
    payload_size: nat,
    target_pps: nat,
    repeat_index: nat,
)
    ensures
        ({
            let stem = trial_stem(protocol, payload_size, target_pps, repeat_index);
            let parts = split(stem, '-');
            &&& parts.len() == 4
            &&& parts[0] == protocol.short_name()
            &&& parts[1] == "payload"@ + decimal(payload_size)
            &&& parts[2] == "pps"@ + decimal(target_pps)
            &&& parts[3] == "rep"@ + decimal(repeat_index)
        }),
{
    reveal_strlit("h2");
    reveal_strlit("h3");
    reveal_strlit("payload");
    reveal_strlit("pps");
    reveal_strlit("rep");
    reveal_strlit("-payload");
    reveal_strlit("-pps");
    reveal_strlit("-rep");
    let name = protocol.short_name();
    let a = "payload"@ + decimal(payload_size);
    let b = "pps"@ + decimal(target_pps);
    let c = "rep"@ + decimal(repeat_index);
    lemma_no_dash("payload"@, payload_size);
    lemma_no_dash("pps"@, target_pps);
    lemma_no_dash("rep"@, repeat_index);
    assert(!name.contains('-'));
    let pieces = seq![name, a, b, c];
    reveal_with_fuel(joined, 5);
    assert(pieces.drop_first() =~= seq![a, b, c]);
    assert(seq![a, b, c].drop_first() =~= seq![b, c]);
    assert(seq![b, c].drop_first() =~= seq![c]);
    assert(joined(pieces, '-') =~= trial_stem(protocol, payload_size, target_pps, repeat_index));
    law_join_splits(pieces, '-');
}

proof fn lemma_no_dash(word: Seq<char>, n: nat)
    requires
        !word.contains('-'),
    ensures
        !(word + decimal(n)).contains('-'),
{
    law_printed_digits(n);
    let all = word + decimal(n);
    assert forall|i: int| 0 <= i < all.len() implies all[i] != '-' by {
        if i < word.len() {
            assert(all[i] == word[i]);
        } else {
            assert(all[i] == decimal(n)[i - word.len()]);
        }
    }
}

/// Of a figure of memory, the digits and points are its number, in their order, and of what
/// else is no white space, its unit.
pub proof fn law_numerals(s: Seq<char>)
    ensures
        numerals(s) == s.filter(|c: char| '0' <= c <= '9' || c == '.'),
        letters(s) == s.filter(|c: char| !('0' <= c <= '9') && c != '.' && !white_space(c)),
    decreases s.len(),
{
    reveal(Seq::filter);
    if s.len() > 0 {
        law_numerals(s.drop_last());
    } else {
        assert(numerals(s) =~= s && letters(s) =~= s);
    }
}

proof fn lemma_memory_parts(number: Seq<char>, unit: Seq<char>)
    requires
        forall|i: int| 0 <= i < number.len() ==> numeral(#[trigger] number[i]),
        forall|i: int|
            0 <= i < unit.len() ==> !numeral(#[trigger] unit[i]) && !white_space(unit[i]),
    ensures
        numerals(number + unit) == number,
        letters(number + unit) == unit,
    decreases number.len() + unit.len(),
{
    let all = number + unit;
    if unit.len() > 0 {
        let rest = unit.drop_last();
        assert forall|i: int| 0 <= i < rest.len() implies !numeral(#[trigger] rest[i])
            && !white_space(rest[i]) by {
            assert(rest[i] == unit[i]);
        }
        lemma_memory_parts(number, rest);
        assert(all.drop_last() =~= number + rest);
        assert(all.last() == unit[unit.len() - 1]);
        assert(letters(all) =~= unit);
    } else if number.len() > 0 {
        let rest = number.drop_last();
        assert forall|i: int| 0 <= i < rest.len() implies numeral(#[trigger] rest[i]) by {
            assert(rest[i] == number[i]);
        }
        lemma_memory_parts(rest, unit);
        assert(all.drop_last() =~= rest + unit);
        assert(all.last() == number[number.len() - 1]);
        assert(numerals(all) =~= number);
        assert(letters(all) =~= unit);
    } else {
        assert(numerals(all) =~= number && letters(all) =~= unit);
    }
}

/// A sample is read back: the processor's share before the percent sign, and behind the comma
/// the memory in use, its number and its unit, whatever limit is given behind a slash.
pub proof fn law_sample_read_back(
    cpu: Seq<char>,
    number: Seq<char>,
    unit: Seq<char>,
    limit: Seq<char>,
)
    requires
        !cpu.contains(','),
        cpu.len() > 0,
        !white_space(cpu[0]),
        cpu.last() != '%',
        number.len() > 0,
        forall|i: int| 0 <= i < number.len() ==> numeral(#[trigger] number[i]),
        unit.len() > 0,
        forall|i: int|
            0 <= i < unit.len() ==> !numeral(#[trigger] unit[i]) && !white_space(unit[i])
                && unit[i] != '/',
        limit.len() > 0,
        !white_space(limit.last()),
    ensures
        sample_of(cpu.push('%').push(',') + number + unit + seq![' ', '/', ' '] + limit) == Some(
            SampleModel { cpu, mem: number, unit: unit_named(unit) },
        ),
        memory_of(number + unit) == (number, unit_named(unit)),
        sample_of(cpu) is None,
{
    let share = cpu.push('%');
    let tail = number + unit + seq![' ', '/', ' '] + limit;
    let line = share.push(',') + number + unit + seq![' ', '/', ' '] + limit;
    let comma = share.len() as int;
    assert(line =~= share.push(',') + tail);
    assert(line[comma] == ',');
    assert(line.take(comma) =~= share);
    assert(!share.contains(',')) by {
        if share.contains(',') {
            let k = choose|k: int| 0 <= k < share.len() && share[k] == ',';
            assert(cpu[k] == ',');
        }
    }
    law_first_occurrence(line, ',', comma);
    assert(line.skip(comma + 1) =~= tail);
    let none = Seq::<char>::empty();
    law_trim_ignores_white(none, share, none);
    assert(none + share + none =~= share);
    law_trim_end_of(share, '%');
    assert(trim_end_of(share, '%').len() == cpu.len()) by {
        let r = trim_end_of(share, '%');
        if r.len() < cpu.len() {
            assert(share[cpu.len() - 1] == cpu.last());
        }
        if r.len() == share.len() {
            assert(r.last() == share.last());
        }
    }
    assert(trim_end_of(share, '%') =~= cpu);
    assert(numeral(number[0]));
    assert(!white_space(tail[0]));
    assert(tail.last() == limit.last());
    law_trim_ignores_white(none, tail, none);
    assert(none + tail + none =~= tail);
    let used = number + unit;
    let slash = used.len() as int + 1;
    assert(tail[slash] == '/');
    assert(tail.take(slash) =~= used.push(' '));
    assert(!used.push(' ').contains('/')) by {
        let s = used.push(' ');
        assert forall|i: int| 0 <= i < s.len() implies s[i] != '/' by {
            if i < number.len() {
                assert(s[i] == number[i]);
                assert(numeral(number[i]));
            } else if i < used.len() {
                assert(s[i] == unit[i - number.len()]);
            }
        }
    }
    law_first_occurrence(tail, '/', slash);
    let space = seq![' '];
    assert(all_white(space));
    assert(used.last() == unit[unit.len() - 1]);
    assert(used[0] == number[0]);
    law_trim_ignores_white(none, used, space);
    assert(none + used + space =~= used.push(' '));
    lemma_memory_parts(number, unit);
    assert(!used.contains('/')) by {
        if used.contains('/') {
            let k = choose|k: int| 0 <= k < used.len() && used[k] == '/';
            assert(used.push(' ')[k] == '/');
        }
    }
    lemma_find(used, '/');
    assert(used.take(used.len() as int) =~= used);
    law_trim_ignores_white(none, used, none);
    assert(none + used + none =~= used);
}

/// The units that are known, each by its names; whatever else is named counts as megabytes.
pub proof fn law_units(unit: Seq<char>)
    ensures
        unit_named(unit) == MemUnit::Bytes <==> unit == "B"@,
        unit_named(unit) == MemUnit::Kilobytes <==> unit == "kB"@ || unit == "KB"@ || unit
            == "KiB"@,
        unit_named(unit) == MemUnit::Gigabytes <==> unit == "GB"@ || unit == "GiB"@,
{
    reveal_strlit("B");
    reveal_strlit("kB");
    reveal_strlit("KB");
    reveal_strlit("KiB");
    reveal_strlit("GB");
    reveal_strlit("GiB");
    assert("B"@.len() == 1 && "kB"@.len() == 2 && "KB"@.len() == 2 && "GB"@.len() == 2);
    assert("KiB"@.len() == 3 && "GiB"@.len() == 3 && "KiB"@[0] == 'K' && "GiB"@[0] == 'G');
    assert("kB"@[0] == 'k' && "KB"@[0] == 'K' && "GB"@[0] == 'G');
}

} // verus!
