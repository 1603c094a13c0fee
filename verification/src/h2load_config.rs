//! The flags of the runs that `h2load` drives.
use crate::args::{
    asks_help, is_either, is_repeats, law_positive_numbers, next_arg, parse_positive_usize,
    parse_positive_usizes, positive_list, positive_number, positive_numbers, sets_repeats,
};
use crate::error::{outcome, CliError, Subcommand, UsageError};
use crate::protocol::{law_protocol_list, parse_protocols, protocol_list, Protocol};
use vstd::prelude::*;
use vstd::string::*;

verus! {

/// What is run with `h2load` as the client.
#[derive(Debug, Clone)]
pub struct H2LoadRateConfig {
    /// The transports, in the order in which they take turns.
    pub protocols: Vec<Protocol>,
    /// The sizes of the request bodies, in bytes.
    pub payload_sizes: Vec<usize>,
    /// The rates, in requests per second.
    pub target_pps: Vec<usize>,
    /// How long requests are sent, in seconds.
    pub duration: u64,
    /// How many clients `h2load` plays.
    pub clients: usize,
    /// How many streams each client opens at once.
    pub streams: usize,
    /// How many threads `h2load` runs on.
    pub threads: usize,
    /// How often each trial is run.
    pub repeats: usize,
    /// The path of `h2load`.
    pub h2load: String,
    /// The file of the report.
    pub output: String,
    /// The directory of the logs.
    pub log_dir: String,
}

/// The values of a `H2LoadRateConfig`.
#[verifier::ext_equal]
pub struct H2LoadRateModel {
    pub protocols: Seq<Protocol>,
    pub payload_sizes: Seq<usize>,
    pub target_pps: Seq<usize>,
    pub duration: u64,
    pub clients: usize,
    pub streams: usize,
    pub threads: usize,
    pub repeats: usize,
    pub h2load: Seq<char>,
    pub output: Seq<char>,
    pub log_dir: Seq<char>,
}

impl View for H2LoadRateConfig {
    type V = H2LoadRateModel;

    open spec fn view(&self) -> H2LoadRateModel {
        H2LoadRateModel {
            protocols: self.protocols@,
            payload_sizes: self.payload_sizes@,
            target_pps: self.target_pps@,
            duration: self.duration,
            clients: self.clients,
            streams: self.streams,
            threads: self.threads,
            repeats: self.repeats,
            h2load: self.h2load@,
            output: self.output@,
            log_dir: self.log_dir@,
        }
    }
}

/// What is run where no flag says otherwise.
pub open spec fn h2load_defaults() -> H2LoadRateModel {
    H2LoadRateModel {
        protocols: seq![Protocol::H2, Protocol::H3],
        payload_sizes: seq![1024],
        target_pps: seq![1000, 3000, 6000, 10000],
        duration: 10,
        clients: 1,
        streams: 100,
        threads: 4,
        repeats: 1,
        h2load: "h2load"@,
        output: "reports/h2load_rate_rust/results.csv"@,
        log_dir: "reports/h2load_rate_rust/logs"@,
    }
}

/// Whether `flag` is followed by a value.
pub open spec fn h2load_takes_value(flag: Seq<char>) -> bool {
    ||| flag == "-protocols"@ || flag == "--protocols"@
    ||| flag == "-payload-sizes"@ || flag == "--payload-sizes"@
    ||| flag == "-pps"@ || flag == "--pps"@ || flag == "-target-pps"@ || flag == "--target-pps"@
    ||| flag == "-duration"@ || flag == "--duration"@
    ||| flag == "-clients"@ || flag == "--clients"@
    ||| flag == "-streams"@ || flag == "--streams"@
    ||| flag == "-threads"@ || flag == "--threads"@
    ||| sets_repeats(flag)
    ||| flag == "-h2load"@ || flag == "--h2load"@
    ||| flag == "-output"@ || flag == "--output"@
    ||| flag == "-log-dir"@ || flag == "--log-dir"@
}

/// The configuration with `flag` set to `value`.
pub open spec fn h2load_with(
    cfg: H2LoadRateModel,
    flag: Seq<char>,
    value: Seq<char>,
) -> Result<H2LoadRateModel, UsageError<Seq<char>>> {
    if flag == "-protocols"@ || flag == "--protocols"@ {
        match protocol_list(value) {
            Ok(v) => Ok(H2LoadRateModel { protocols: v, ..cfg }),
            Err(e) => Err(e),
        }
    } else if flag == "-payload-sizes"@ || flag == "--payload-sizes"@ {
        match positive_numbers(value, "payload-sizes"@) {
            Ok(v) => Ok(H2LoadRateModel { payload_sizes: v, ..cfg }),
            Err(e) => Err(e),
        }
    } else if flag == "-pps"@ || flag == "--pps"@ || flag == "-target-pps"@
        || flag == "--target-pps"@ {
        match positive_numbers(value, "target-pps"@) {
            Ok(v) => Ok(H2LoadRateModel { target_pps: v, ..cfg }),
            Err(e) => Err(e),
        }
    } else if flag == "-duration"@ || flag == "--duration"@ {
        match positive_number(value, "duration"@) {
            Ok(v) => Ok(H2LoadRateModel { duration: v as u64, ..cfg }),
            Err(e) => Err(e),
        }
    } else if flag == "-clients"@ || flag == "--clients"@ {
        match positive_number(value, "clients"@) {
            Ok(v) => Ok(H2LoadRateModel { clients: v, ..cfg }),
            Err(e) => Err(e),
        }
    } else if flag == "-streams"@ || flag == "--streams"@ {
        match positive_number(value, "streams"@) {
            Ok(v) => Ok(H2LoadRateModel { streams: v, ..cfg }),
            Err(e) => Err(e),
        }
    } else if flag == "-threads"@ || flag == "--threads"@ {
        match positive_number(value, "threads"@) {
            Ok(v) => Ok(H2LoadRateModel { threads: v, ..cfg }),
            Err(e) => Err(e),
        }
    } else if sets_repeats(flag) {
        match positive_number(value, "repeats"@) {
            Ok(v) => Ok(H2LoadRateModel { repeats: v, ..cfg }),
            Err(e) => Err(e),
        }
    } else if flag == "-h2load"@ || flag == "--h2load"@ {
        Ok(H2LoadRateModel { h2load: value, ..cfg })
    } else if flag == "-output"@ || flag == "--output"@ {
        Ok(H2LoadRateModel { output: value, ..cfg })
    } else {
        Ok(H2LoadRateModel { log_dir: value, ..cfg })
    }
}

/// The configuration that `args` turn `cfg` into, flag by flag.
pub open spec fn h2load_after(
    cfg: H2LoadRateModel,
    args: Seq<Seq<char>>,
) -> Result<H2LoadRateModel, UsageError<Seq<char>>>
    decreases args.len(),
{
    if args.len() == 0 {
        Ok(cfg)
    } else if h2load_takes_value(args[0]) {
        if args.len() == 1 {
            Err(UsageError::MissingValue(args[0]))
        } else {
            match h2load_with(cfg, args[0], args[1]) {
                Ok(next) => h2load_after(next, args.skip(2)),
                Err(e) => Err(e),
            }
        }
    } else if asks_help(args[0]) {
        Err(UsageError::HelpRequested(Subcommand::H2LoadRate))
    } else {
        Err(UsageError::UnknownArgument(Subcommand::H2LoadRate, args[0]))
    }
}

/// The configuration that a command line denotes.
pub open spec fn h2load_of(args: Seq<Seq<char>>) -> Result<H2LoadRateModel, UsageError<Seq<char>>> {
    h2load_after(h2load_defaults(), args)
}

/// What holds of every configuration that is run: every list has
/// an entry, no protocol is listed twice, and every number is positive.
pub open spec fn h2load_valid(cfg: H2LoadRateModel) -> bool {
    &&& cfg.protocols.len() > 0
    &&& cfg.protocols.no_duplicates()
    &&& positive_list(cfg.payload_sizes)
    &&& positive_list(cfg.target_pps)
    &&& cfg.duration > 0
    &&& cfg.clients > 0
    &&& cfg.streams > 0
    &&& cfg.threads > 0
    &&& cfg.repeats > 0
}

proof fn lemma_h2load_with(cfg: H2LoadRateModel, flag: Seq<char>, value: Seq<char>)
    requires
        h2load_valid(cfg),
        h2load_with(cfg, flag, value) is Ok,
    ensures
        h2load_valid(h2load_with(cfg, flag, value)->Ok_0),
{
    if flag == "-protocols"@ || flag == "--protocols"@ {
        law_protocol_list(value);
    } else if flag == "-payload-sizes"@ || flag == "--payload-sizes"@ {
        law_positive_numbers(value, "payload-sizes"@);
    } else if flag == "-pps"@ || flag == "--pps"@ || flag == "-target-pps"@
        || flag == "--target-pps"@ {
        law_positive_numbers(value, "target-pps"@);
    }
}

proof fn lemma_h2load_after(cfg: H2LoadRateModel, args: Seq<Seq<char>>)
    requires
        h2load_valid(cfg),
        h2load_after(cfg, args) is Ok,
    ensures
        h2load_valid(h2load_after(cfg, args)->Ok_0),
    decreases args.len(),
{
    if args.len() == 0 {
    } else if h2load_takes_value(args[0]) {
        lemma_h2load_with(cfg, args[0], args[1]);
        lemma_h2load_after(h2load_with(cfg, args[0], args[1])->Ok_0, args.skip(2));
    }
}

/// Every accepted command line denotes a valid configuration.
pub proof fn law_h2load_valid(args: Seq<Seq<char>>)
    requires
        h2load_of(args) is Ok,
    ensures
        h2load_valid(h2load_of(args)->Ok_0),
{
    lemma_h2load_after(h2load_defaults(), args);
}

impl H2LoadRateConfig {
    fn defaults() -> (r: H2LoadRateConfig)
        ensures
            r@ == h2load_defaults(),
    {
        let r = H2LoadRateConfig {
            protocols: vec![Protocol::H2, Protocol::H3],
            payload_sizes: vec![1024],
            target_pps: vec![1000, 3000, 6000, 10000],
            duration: 10,
            clients: 1,
            streams: 100,
            threads: 4,
            repeats: 1,
            h2load: "h2load".to_owned(),
            output: "reports/h2load_rate_rust/results.csv".to_owned(),
            log_dir: "reports/h2load_rate_rust/logs".to_owned(),
        };
        assert(r@.protocols =~= h2load_defaults().protocols);
        assert(r@.payload_sizes =~= h2load_defaults().payload_sizes);
        assert(r@.target_pps =~= h2load_defaults().target_pps);
        r
    }

    fn takes_value(flag: &str) -> (r: bool)
        ensures
            r == h2load_takes_value(flag@),
    {
        is_either(flag, "-protocols", "--protocols")
            || is_either(flag, "-payload-sizes", "--payload-sizes")
            || is_either(flag, "-pps", "--pps")
            || is_either(flag, "-target-pps", "--target-pps")
            || is_either(flag, "-duration", "--duration")
            || is_either(flag, "-clients", "--clients")
            || is_either(flag, "-streams", "--streams")
            || is_either(flag, "-threads", "--threads")
            || is_repeats(flag)
            || is_either(flag, "-h2load", "--h2load")
            || is_either(flag, "-output", "--output")
            || is_either(flag, "-log-dir", "--log-dir")
    }

    /// Sets what `flag` names.
    fn with(self, flag: &str, value: &str) -> (r: Result<H2LoadRateConfig, CliError>)
        requires
            h2load_takes_value(flag@),
        ensures
            outcome(r) == h2load_with(self@, flag@, value@),
    {
        let mut cfg = self;
        if is_either(flag, "-protocols", "--protocols") {
            match parse_protocols(value) {
                Ok(v) => {
                    cfg.protocols = v;
                },
                Err(e) => {
                    return Err(e);
                },
            }
        } else if is_either(flag, "-payload-sizes", "--payload-sizes") {
            match parse_positive_usizes(value, "payload-sizes") {
                Ok(v) => {
                    cfg.payload_sizes = v;
                },
                Err(e) => {
                    return Err(e);
                },
            }
        } else if is_either(flag, "-pps", "--pps")
            || is_either(flag, "-target-pps", "--target-pps") {
            match parse_positive_usizes(value, "target-pps") {
                Ok(v) => {
                    cfg.target_pps = v;
                },
                Err(e) => {
                    return Err(e);
                },
            }
        } else if is_either(flag, "-duration", "--duration") {
            match parse_positive_usize(value, "duration") {
                Ok(v) => {
                    cfg.duration = v as u64;
                },
                Err(e) => {
                    return Err(e);
                },
            }
        } else if is_either(flag, "-clients", "--clients") {
            match parse_positive_usize(value, "clients") {
                Ok(v) => {
                    cfg.clients = v;
                },
                Err(e) => {
                    return Err(e);
                },
            }
        } else if is_either(flag, "-streams", "--streams") {
            match parse_positive_usize(value, "streams") {
                Ok(v) => {
                    cfg.streams = v;
                },
                Err(e) => {
                    return Err(e);
                },
            }
        } else if is_either(flag, "-threads", "--threads") {
            match parse_positive_usize(value, "threads") {
                Ok(v) => {
                    cfg.threads = v;
                },
                Err(e) => {
                    return Err(e);
                },
            }
        } else if is_repeats(flag) {
            match parse_positive_usize(value, "repeats") {
                Ok(v) => {
                    cfg.repeats = v;
                },
                Err(e) => {
                    return Err(e);
                },
            }
        } else if is_either(flag, "-h2load", "--h2load") {
            cfg.h2load = value.to_owned();
        } else if is_either(flag, "-output", "--output") {
            cfg.output = value.to_owned();
        } else {
            cfg.log_dir = value.to_owned();
        }
        Ok(cfg)
    }

    /// Reads the arguments behind the name of the subcommand.
    pub fn from_args(args: Vec<String>) -> (r: Result<H2LoadRateConfig, CliError>)
        ensures
            outcome(r) == h2load_of(args.deep_view()),
            r matches Ok(cfg) ==> h2load_valid(cfg@),
    {
        let mut cfg = H2LoadRateConfig::defaults();
        let ghost all = args.deep_view();
        let mut at: usize = 0;
        assert(all.skip(0) =~= all);
        while at < args.len()
            invariant
                at <= args@.len(),
                all == args.deep_view(),
                h2load_after(h2load_defaults(), all) == h2load_after(cfg@, all.skip(at as int)),
            decreases args@.len() - at,
        {
            let ghost rest = all.skip(at as int);
            let arg = args[at].clone();
            at = at + 1;
            assert(rest[0] == arg@);
            assert(rest.skip(1) =~= all.skip(at as int));
            if H2LoadRateConfig::takes_value(arg.as_str()) {
                match next_arg(&args, &mut at, arg.as_str()) {
                    Err(e) => {
                        return Err(e);
                    },
                    Ok(value) => {
                        assert(rest[1] == value@);
                        assert(rest.skip(2) =~= all.skip(at as int));
                        match cfg.with(arg.as_str(), value.as_str()) {
                            Err(e) => {
                                return Err(e);
                            },
                            Ok(next) => {
                                cfg = next;
                            },
                        }
                    },
                }
            } else if is_either(arg.as_str(), "-h", "--help") {
                return Err(UsageError::HelpRequested(Subcommand::H2LoadRate));
            } else {
                return Err(UsageError::UnknownArgument(Subcommand::H2LoadRate, arg));
            }
        }
        assert(all.skip(at as int) =~= seq![]);
        proof {
            law_h2load_valid(all);
        }
        Ok(cfg)
    }
}

// ---------------------------------------------------------------------------
// What the flags do
// ---------------------------------------------------------------------------

/// Each flag of the runs that `h2load` drives, however it is spelled, sets what it names to what
/// its value says, refuses a value that says nothing of the kind, and leaves all else as it
/// was.
pub proof fn law_h2load_flags(cfg: H2LoadRateModel, flag: Seq<char>, value: Seq<char>)
    ensures
        ({
            let r = h2load_after(cfg, seq![flag, value]);
            &&& flag == "-protocols"@ || flag == "--protocols"@ ==> match protocol_list(value) {
                Ok(v) => r == Ok::<H2LoadRateModel, UsageError<Seq<char>>>(
                    H2LoadRateModel { protocols: v, ..cfg },
                ),
                Err(e) => r == Err::<H2LoadRateModel, UsageError<Seq<char>>>(e),
            }
            &&& flag == "-payload-sizes"@ || flag == "--payload-sizes"@ ==> match positive_numbers(
                value,
                "payload-sizes"@,
            ) {
                Ok(v) => r == Ok::<H2LoadRateModel, UsageError<Seq<char>>>(
                    H2LoadRateModel { payload_sizes: v, ..cfg },
                ),
                Err(e) => r == Err::<H2LoadRateModel, UsageError<Seq<char>>>(e),
            }
            &&& flag == "-pps"@ || flag == "--pps"@ || flag == "-target-pps"@
                || flag == "--target-pps"@ ==> match positive_numbers(value, "target-pps"@) {
                Ok(v) => r == Ok::<H2LoadRateModel, UsageError<Seq<char>>>(
                    H2LoadRateModel { target_pps: v, ..cfg },
                ),
                Err(e) => r == Err::<H2LoadRateModel, UsageError<Seq<char>>>(e),
            }
            &&& flag == "-duration"@ || flag == "--duration"@ ==> match positive_number(
                value,
                "duration"@,
            ) {
                Ok(v) => r == Ok::<H2LoadRateModel, UsageError<Seq<char>>>(
                    H2LoadRateModel { duration: v as u64, ..cfg },
                ),
                Err(e) => r == Err::<H2LoadRateModel, UsageError<Seq<char>>>(e),
            }
            &&& flag == "-clients"@ || flag == "--clients"@ ==> match positive_number(
                value,
                "clients"@,
            ) {
                Ok(v) => r == Ok::<H2LoadRateModel, UsageError<Seq<char>>>(
                    H2LoadRateModel { clients: v, ..cfg },
                ),
                Err(e) => r == Err::<H2LoadRateModel, UsageError<Seq<char>>>(e),
            }
            &&& flag == "-streams"@ || flag == "--streams"@ ==> match positive_number(
                value,
                "streams"@,
            ) {
                Ok(v) => r == Ok::<H2LoadRateModel, UsageError<Seq<char>>>(
                    H2LoadRateModel { streams: v, ..cfg },
                ),
                Err(e) => r == Err::<H2LoadRateModel, UsageError<Seq<char>>>(e),
            }
            &&& flag == "-threads"@ || flag == "--threads"@ ==> match positive_number(
                value,
                "threads"@,
            ) {
                Ok(v) => r == Ok::<H2LoadRateModel, UsageError<Seq<char>>>(
                    H2LoadRateModel { threads: v, ..cfg },
                ),
                Err(e) => r == Err::<H2LoadRateModel, UsageError<Seq<char>>>(e),
            }
            &&& flag == "-repeat"@ || flag == "--repeat"@ || flag == "-repeats"@
                || flag == "--repeats"@ ==> match positive_number(value, "repeats"@) {
                Ok(v) => r == Ok::<H2LoadRateModel, UsageError<Seq<char>>>(
                    H2LoadRateModel { repeats: v, ..cfg },
                ),
                Err(e) => r == Err::<H2LoadRateModel, UsageError<Seq<char>>>(e),
            }
            &&& flag == "-h2load"@ || flag == "--h2load"@ ==> r == Ok::<
                H2LoadRateModel,
                UsageError<Seq<char>>,
            >(
                H2LoadRateModel { h2load: value, ..cfg },
            )
            &&& flag == "-output"@ || flag == "--output"@ ==> r == Ok::<
                H2LoadRateModel,
                UsageError<Seq<char>>,
            >(
                H2LoadRateModel { output: value, ..cfg },
            )
            &&& flag == "-log-dir"@ || flag == "--log-dir"@ ==> r == Ok::<
                H2LoadRateModel,
                UsageError<Seq<char>>,
            >(
                H2LoadRateModel { log_dir: value, ..cfg },
            )
        }),
{
    lemma_h2load_spellings();
    let args = seq![flag, value];
    assert(args.skip(2) =~= Seq::<Seq<char>>::empty());
    reveal_with_fuel(h2load_after, 2);
}

/// The last argument needs a value where it is a flag that takes one; a call for help is
/// answered by the help; and any other word is refused. Without arguments nothing is changed.
pub proof fn law_h2load_words(cfg: H2LoadRateModel, flag: Seq<char>, rest: Seq<Seq<char>>)
    ensures
        ({
            let alone = h2load_after(cfg, seq![flag]);
            let r = h2load_after(cfg, seq![flag] + rest);
            let takes_value = flag == "-protocols"@ || flag == "--protocols"@
                || flag == "-payload-sizes"@
                || flag == "--payload-sizes"@ || flag == "-pps"@ || flag == "--pps"@
                || flag == "-target-pps"@ || flag == "--target-pps"@ || flag == "-duration"@
                || flag == "--duration"@ || flag == "-clients"@ || flag == "--clients"@
                || flag == "-streams"@ || flag == "--streams"@ || flag == "-threads"@
                || flag == "--threads"@ || flag == "-repeat"@ || flag == "--repeat"@
                || flag == "-repeats"@ || flag == "--repeats"@ || flag == "-h2load"@
                || flag == "--h2load"@ || flag == "-output"@ || flag == "--output"@
                || flag == "-log-dir"@ || flag == "--log-dir"@;
            &&& takes_value ==> alone == Err::<H2LoadRateModel, UsageError<Seq<char>>>(
                UsageError::MissingValue(flag),
            )
            &&& flag == "-h"@ || flag == "--help"@ ==> r == Err::<
                H2LoadRateModel,
                UsageError<Seq<char>>,
            >(
                UsageError::HelpRequested(Subcommand::H2LoadRate),
            )
            &&& !takes_value && flag != "-h"@ && flag != "--help"@ ==> r
                == Err::<H2LoadRateModel, UsageError<Seq<char>>>(
                UsageError::UnknownArgument(Subcommand::H2LoadRate, flag),
            )
        }),
        h2load_after(cfg, Seq::empty()) == Ok::<H2LoadRateModel, UsageError<Seq<char>>>(cfg),
{
    lemma_h2load_spellings();
    assert((seq![flag] + rest)[0] == flag);
    assert((seq![flag] + rest).skip(1) =~= rest);
    reveal_with_fuel(h2load_after, 2);
}

proof fn lemma_h2load_spellings()
    ensures
        "-protocols"@.len() == 10,
        "--protocols"@.len() == 11,
        "-payload-sizes"@.len() == 14,
        "--payload-sizes"@.len() == 15,
        "-pps"@.len() == 4,
        "--pps"@.len() == 5,
        "-target-pps"@.len() == 11,
        "--target-pps"@.len() == 12,
        "-duration"@.len() == 9,
        "--duration"@.len() == 10,
        "-clients"@.len() == 8,
        "--clients"@.len() == 9,
        "-streams"@.len() == 8,
        "--streams"@.len() == 9,
        "-threads"@.len() == 8,
        "--threads"@.len() == 9,
        "-repeat"@.len() == 7,
        "--repeat"@.len() == 8,
        "-repeats"@.len() == 8,
        "--repeats"@.len() == 9,
        "-h2load"@.len() == 7,
        "--h2load"@.len() == 8,
        "-output"@.len() == 7,
        "--output"@.len() == 8,
        "-log-dir"@.len() == 8,
        "--log-dir"@.len() == 9,
        "-h"@.len() == 2,
        "--help"@.len() == 6,
        "-protocols"@[1] == 'p',
        "--duration"@[1] == '-',
        "--protocols"@[1] == '-',
        "-target-pps"@[1] == 't',
        "-duration"@[1] == 'd',
        "--clients"@[1] == '-',
        "--streams"@[1] == '-',
        "--threads"@[1] == '-',
        "--repeats"@[1] == '-',
        "--log-dir"@[1] == '-',
        "-clients"@[1] == 'c',
        "-streams"@[1] == 's',
        "-threads"@[1] == 't',
        "--repeat"@[1] == '-',
        "-repeats"@[1] == 'r',
        "--h2load"@[1] == '-',
        "--output"@[1] == '-',
        "-log-dir"@[1] == 'l',
        "--clients"@[2] == 'c',
        "--streams"@[2] == 's',
        "--threads"@[2] == 't',
        "--repeats"@[2] == 'r',
        "--log-dir"@[2] == 'l',
        "-repeat"@[1] == 'r',
        "-h2load"@[1] == 'h',
        "-output"@[1] == 'o',
        "--repeat"@[2] == 'r',
        "--h2load"@[2] == 'h',
        "--output"@[2] == 'o',
{
    reveal_strlit("-protocols");
    reveal_strlit("--protocols");
    reveal_strlit("-payload-sizes");
    reveal_strlit("--payload-sizes");
    reveal_strlit("-pps");
    reveal_strlit("--pps");
    reveal_strlit("-target-pps");
    reveal_strlit("--target-pps");
    reveal_strlit("-duration");
    reveal_strlit("--duration");
    reveal_strlit("-clients");
    reveal_strlit("--clients");
    reveal_strlit("-streams");
    reveal_strlit("--streams");
    reveal_strlit("-threads");
    reveal_strlit("--threads");
    reveal_strlit("-repeat");
    reveal_strlit("--repeat");
    reveal_strlit("-repeats");
    reveal_strlit("--repeats");
    reveal_strlit("-h2load");
    reveal_strlit("--h2load");
    reveal_strlit("-output");
    reveal_strlit("--output");
    reveal_strlit("-log-dir");
    reveal_strlit("--log-dir");
    reveal_strlit("-h");
    reveal_strlit("--help");
}

/// What nothing is said of is as it usually is.
pub proof fn law_h2load_defaults(args: Seq<Seq<char>>)
    ensures
        ({
            let d = H2LoadRateModel {
                protocols: seq![Protocol::H2, Protocol::H3],
                payload_sizes: seq![1024],
                target_pps: seq![1000, 3000, 6000, 10000],
                duration: 10,
                clients: 1,
                streams: 100,
                threads: 4,
                repeats: 1,
                h2load: "h2load"@,
                output: "reports/h2load_rate_rust/results.csv"@,
                log_dir: "reports/h2load_rate_rust/logs"@,
            };
            h2load_of(args) == h2load_after(d, args)
        }),
{
}

/// What stands later on a command line is read as if it stood alone, on top of what stands
/// before it.
pub proof fn law_h2load_follow(cfg: H2LoadRateModel, a: Seq<Seq<char>>, b: Seq<Seq<char>>)
    requires
        h2load_after(cfg, a) is Ok,
    ensures
        h2load_after(cfg, a + b) == h2load_after(h2load_after(cfg, a)->Ok_0, b),
    decreases a.len(),
{
    if a.len() == 0 {
        assert(a + b =~= b);
    } else {
        assert((a + b)[0] == a[0]);
        if h2load_takes_value(a[0]) {
            assert((a + b)[1] == a[1]);
            assert((a + b).skip(2) =~= a.skip(2) + b);
            law_h2load_follow(h2load_with(cfg, a[0], a[1])->Ok_0, a.skip(2), b);
        }
    }
}

} // verus!
