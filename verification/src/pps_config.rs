//! The flags of the fixed-rate benchmark.
use crate::args::{
    asks_help, is_either, is_repeats, law_positive_numbers, next_arg, parse_positive_usize,
    parse_positive_usizes, positive_list, positive_number, positive_numbers, sets_repeats,
};
use crate::error::{outcome, CliError, Subcommand, UsageError};
use crate::protocol::{law_protocol_list, parse_protocols, protocol_list, Protocol};
use vstd::prelude::*;
use vstd::string::*;

verus! {

/// What the fixed-rate benchmark of client and server in one process runs.
#[derive(Debug, Clone)]
pub struct RustPpsConfig {
    /// The transports, in the order in which they take turns.
    pub protocols: Vec<Protocol>,
    /// The sizes of the request bodies, in bytes.
    pub payload_sizes: Vec<usize>,
    /// The rates, in requests per second.
    pub target_pps: Vec<usize>,
    /// How long requests are sent, in seconds.
    pub duration: u64,
    /// How many requests may be unanswered at once.
    pub max_inflight: usize,
    /// How often each trial is run.
    pub repeats: usize,
    /// The file of the report.
    pub output: String,
}

/// The values of a `RustPpsConfig`.
#[verifier::ext_equal]
pub struct RustPpsModel {
    pub protocols: Seq<Protocol>,
    pub payload_sizes: Seq<usize>,
    pub target_pps: Seq<usize>,
    pub duration: u64,
    pub max_inflight: usize,
    pub repeats: usize,
    pub output: Seq<char>,
}

impl View for RustPpsConfig {
    type V = RustPpsModel;

    open spec fn view(&self) -> RustPpsModel {
        RustPpsModel {
            protocols: self.protocols@,
            payload_sizes: self.payload_sizes@,
            target_pps: self.target_pps@,
            duration: self.duration,
            max_inflight: self.max_inflight,
            repeats: self.repeats,
            output: self.output@,
        }
    }
}

/// What is run where no flag says otherwise.
pub open spec fn rust_pps_defaults() -> RustPpsModel {
    RustPpsModel {
        protocols: seq![Protocol::H2, Protocol::H3],
        payload_sizes: seq![1024],
        target_pps: seq![1000, 3000, 6000, 10000],
        duration: 10,
        max_inflight: 100,
        repeats: 1,
        output: "reports/rust_pps_results/results.csv"@,
    }
}

/// Whether `flag` is followed by a value.
pub open spec fn rust_pps_takes_value(flag: Seq<char>) -> bool {
    ||| flag == "-protocols"@ || flag == "--protocols"@
    ||| flag == "-payload-sizes"@ || flag == "--payload-sizes"@
    ||| flag == "-pps"@ || flag == "--pps"@ || flag == "-target-pps"@ || flag == "--target-pps"@
    ||| flag == "-duration"@ || flag == "--duration"@
    ||| flag == "-max-inflight"@ || flag == "--max-inflight"@
        || flag == "-concurrency"@ || flag == "--concurrency"@
    ||| sets_repeats(flag)
    ||| flag == "-output"@ || flag == "--output"@
}

/// The configuration with `flag` set to `value`.
pub open spec fn rust_pps_with(
    cfg: RustPpsModel,
    flag: Seq<char>,
    value: Seq<char>,
) -> Result<RustPpsModel, UsageError<Seq<char>>> {
    if flag == "-protocols"@ || flag == "--protocols"@ {
        match protocol_list(value) {
            Ok(v) => Ok(RustPpsModel { protocols: v, ..cfg }),
            Err(e) => Err(e),
        }
    } else if flag == "-payload-sizes"@ || flag == "--payload-sizes"@ {
        match positive_numbers(value, "payload-sizes"@) {
            Ok(v) => Ok(RustPpsModel { payload_sizes: v, ..cfg }),
            Err(e) => Err(e),
        }
    } else if flag == "-pps"@ || flag == "--pps"@ || flag == "-target-pps"@
        || flag == "--target-pps"@ {
        match positive_numbers(value, "target-pps"@) {
            Ok(v) => Ok(RustPpsModel { target_pps: v, ..cfg }),
            Err(e) => Err(e),
        }
    } else if flag == "-duration"@ || flag == "--duration"@ {
        match positive_number(value, "duration"@) {
            Ok(v) => Ok(RustPpsModel { duration: v as u64, ..cfg }),
            Err(e) => Err(e),
        }
    } else if flag == "-max-inflight"@ || flag == "--max-inflight"@
        || flag == "-concurrency"@ || flag == "--concurrency"@ {
        match positive_number(value, "max-inflight"@) {
            Ok(v) => Ok(RustPpsModel { max_inflight: v, ..cfg }),
            Err(e) => Err(e),
        }
    } else if sets_repeats(flag) {
        match positive_number(value, "repeats"@) {
            Ok(v) => Ok(RustPpsModel { repeats: v, ..cfg }),
            Err(e) => Err(e),
        }
    } else {
        Ok(RustPpsModel { output: value, ..cfg })
    }
}

/// The configuration that `args` turn `cfg` into, flag by flag.
pub open spec fn rust_pps_after(
    cfg: RustPpsModel,
    args: Seq<Seq<char>>,
) -> Result<RustPpsModel, UsageError<Seq<char>>>
    decreases args.len(),
{
    if args.len() == 0 {
        Ok(cfg)
    } else if rust_pps_takes_value(args[0]) {
        if args.len() == 1 {
            Err(UsageError::MissingValue(args[0]))
        } else {
            match rust_pps_with(cfg, args[0], args[1]) {
                Ok(next) => rust_pps_after(next, args.skip(2)),
                Err(e) => Err(e),
            }
        }
    } else if asks_help(args[0]) {
        Err(UsageError::HelpRequested(Subcommand::RustPps))
    } else {
        Err(UsageError::UnknownArgument(Subcommand::RustPps, args[0]))
    }
}

/// The configuration that a command line denotes.
pub open spec fn rust_pps_of(args: Seq<Seq<char>>) -> Result<RustPpsModel, UsageError<Seq<char>>> {
    rust_pps_after(rust_pps_defaults(), args)
}

/// What holds of every configuration that is run: every list has
/// an entry, no protocol is listed twice, and every number is positive.
pub open spec fn rust_pps_valid(cfg: RustPpsModel) -> bool {
    &&& cfg.protocols.len() > 0
    &&& cfg.protocols.no_duplicates()
    &&& positive_list(cfg.payload_sizes)
    &&& positive_list(cfg.target_pps)
    &&& cfg.duration > 0
    &&& cfg.max_inflight > 0
    &&& cfg.repeats > 0
}

proof fn lemma_rust_pps_with(cfg: RustPpsModel, flag: Seq<char>, value: Seq<char>)
    requires
        rust_pps_valid(cfg),
        rust_pps_with(cfg, flag, value) is Ok,
    ensures
        rust_pps_valid(rust_pps_with(cfg, flag, value)->Ok_0),
{
    if flag == "-protocols"@ || flag == "--protocols"@ {
        law_protocol_list(value);
    } else if flag == "-payload-sizes"@ || flag == "--payload-sizes"@ {
        law_positive_numbers(value, "payload-sizes"@);
    } else if flag == "-pps"@ || flag == "--pps"@ || flag == "-target-pps"@
        || flag == "--target-pps"@ {
        law_positive_numbers(value, "target-pps"@);
    }
}

proof fn lemma_rust_pps_after(cfg: RustPpsModel, args: Seq<Seq<char>>)
    requires
        rust_pps_valid(cfg),
        rust_pps_after(cfg, args) is Ok,
    ensures
        rust_pps_valid(rust_pps_after(cfg, args)->Ok_0),
    decreases args.len(),
{
    if args.len() == 0 {
    } else if rust_pps_takes_value(args[0]) {
        lemma_rust_pps_with(cfg, args[0], args[1]);
        lemma_rust_pps_after(rust_pps_with(cfg, args[0], args[1])->Ok_0, args.skip(2));
    }
}

/// Every accepted command line denotes a valid configuration.
pub proof fn law_rust_pps_valid(args: Seq<Seq<char>>)
    requires
        rust_pps_of(args) is Ok,
    ensures
        rust_pps_valid(rust_pps_of(args)->Ok_0),
{
    lemma_rust_pps_after(rust_pps_defaults(), args);
}

impl RustPpsConfig {
    fn defaults() -> (r: RustPpsConfig)
        ensures
            r@ == rust_pps_defaults(),
    {
        let r = RustPpsConfig {
            protocols: vec![Protocol::H2, Protocol::H3],
            payload_sizes: vec![1024],
            target_pps: vec![1000, 3000, 6000, 10000],
            duration: 10,
            max_inflight: 100,
            repeats: 1,
            output: "reports/rust_pps_results/results.csv".to_owned(),
        };
        assert(r@.protocols =~= rust_pps_defaults().protocols);
        assert(r@.payload_sizes =~= rust_pps_defaults().payload_sizes);
        assert(r@.target_pps =~= rust_pps_defaults().target_pps);
        r
    }

    fn takes_value(flag: &str) -> (r: bool)
        ensures
            r == rust_pps_takes_value(flag@),
    {
        is_either(flag, "-protocols", "--protocols")
            || is_either(flag, "-payload-sizes", "--payload-sizes")
            || is_either(flag, "-pps", "--pps")
            || is_either(flag, "-target-pps", "--target-pps")
            || is_either(flag, "-duration", "--duration")
            || is_either(flag, "-max-inflight", "--max-inflight")
            || is_either(flag, "-concurrency", "--concurrency")
            || is_repeats(flag)
            || is_either(flag, "-output", "--output")
    }

    /// Sets what `flag` names.
    fn with(self, flag: &str, value: &str) -> (r: Result<RustPpsConfig, CliError>)
        requires
            rust_pps_takes_value(flag@),
        ensures
            outcome(r) == rust_pps_with(self@, flag@, value@),
    {
        let mut cfg = self;
        if is_either(flag, "-protocols", "--protocols") {
            match parse_protocols(value) {
                Ok(v) => {
                    cfg.protocols = v;
                },
                Err(e) => {
                    return Err(e);
                },
            }
        } else if is_either(flag, "-payload-sizes", "--payload-sizes") {
            match parse_positive_usizes(value, "payload-sizes") {
                Ok(v) => {
                    cfg.payload_sizes = v;
                },
                Err(e) => {
                    return Err(e);
                },
            }
        } else if is_either(flag, "-pps", "--pps")
            || is_either(flag, "-target-pps", "--target-pps") {
            match parse_positive_usizes(value, "target-pps") {
                Ok(v) => {
                    cfg.target_pps = v;
                },
                Err(e) => {
                    return Err(e);
                },
            }
        } else if is_either(flag, "-duration", "--duration") {
            match parse_positive_usize(value, "duration") {
                Ok(v) => {
                    cfg.duration = v as u64;
                },
                Err(e) => {
                    return Err(e);
                },
            }
        } else if is_either(flag, "-max-inflight", "--max-inflight")
            || is_either(flag, "-concurrency", "--concurrency") {
            match parse_positive_usize(value, "max-inflight") {
                Ok(v) => {
                    cfg.max_inflight = v;
                },
                Err(e) => {
                    return Err(e);
                },
            }
        } else if is_repeats(flag) {
            match parse_positive_usize(value, "repeats") {
                Ok(v) => {
                    cfg.repeats = v;
                },
                Err(e) => {
                    return Err(e);
                },
            }
        } else {
            cfg.output = value.to_owned();
        }
        Ok(cfg)
    }

    /// Reads the arguments behind the name of the subcommand.
    pub fn from_args(args: Vec<String>) -> (r: Result<RustPpsConfig, CliError>)
        ensures
            outcome(r) == rust_pps_of(args.deep_view()),
            r matches Ok(cfg) ==> rust_pps_valid(cfg@),
    {
        let mut cfg = RustPpsConfig::defaults();
        let ghost all = args.deep_view();
        let mut at: usize = 0;
        assert(all.skip(0) =~= all);
        while at < args.len()
            invariant
                at <= args@.len(),
                all == args.deep_view(),
                rust_pps_after(rust_pps_defaults(), all) == rust_pps_after(
                    cfg@,
                    all.skip(at as int),
                ),
            decreases args@.len() - at,
        {
            let ghost rest = all.skip(at as int);
            let arg = args[at].clone();
            at = at + 1;
            assert(rest[0] == arg@);
            assert(rest.skip(1) =~= all.skip(at as int));
            if RustPpsConfig::takes_value(arg.as_str()) {
                match next_arg(&args, &mut at, arg.as_str()) {
                    Err(e) => {
                        return Err(e);
                    },
                    Ok(value) => {
                        assert(rest[1] == value@);
                        assert(rest.skip(2) =~= all.skip(at as int));
                        match cfg.with(arg.as_str(), value.as_str()) {
                            Err(e) => {
                                return Err(e);
                            },
                            Ok(next) => {
                                cfg = next;
                            },
                        }
                    },
                }
            } else if is_either(arg.as_str(), "-h", "--help") {
                return Err(UsageError::HelpRequested(Subcommand::RustPps));
            } else {
                return Err(UsageError::UnknownArgument(Subcommand::RustPps, arg));
            }
        }
        assert(all.skip(at as int) =~= seq![]);
        proof {
            law_rust_pps_valid(all);
        }
        Ok(cfg)
    }
}

// ---------------------------------------------------------------------------
// What the flags do
// ---------------------------------------------------------------------------

/// Each flag of the fixed-rate benchmark, however it is spelled, sets what it names to what
/// its value says, refuses a value that says nothing of the kind, and leaves all else as it
/// was.
pub proof fn law_rust_pps_flags(cfg: RustPpsModel, flag: Seq<char>, value: Seq<char>)
    ensures
        ({
            let r = rust_pps_after(cfg, seq![flag, value]);
            &&& flag == "-protocols"@ || flag == "--protocols"@ ==> match protocol_list(value) {
                Ok(v) => r == Ok::<RustPpsModel, UsageError<Seq<char>>>(
                    RustPpsModel { protocols: v, ..cfg },
                ),
                Err(e) => r == Err::<RustPpsModel, UsageError<Seq<char>>>(e),
            }
            &&& flag == "-payload-sizes"@ || flag == "--payload-sizes"@ ==> match positive_numbers(
                value,
                "payload-sizes"@,
            ) {
                Ok(v) => r == Ok::<RustPpsModel, UsageError<Seq<char>>>(
                    RustPpsModel { payload_sizes: v, ..cfg },
                ),
                Err(e) => r == Err::<RustPpsModel, UsageError<Seq<char>>>(e),
            }
            &&& flag == "-pps"@ || flag == "--pps"@ || flag == "-target-pps"@
                || flag == "--target-pps"@ ==> match positive_numbers(value, "target-pps"@) {
                Ok(v) => r == Ok::<RustPpsModel, UsageError<Seq<char>>>(
                    RustPpsModel { target_pps: v, ..cfg },
                ),
                Err(e) => r == Err::<RustPpsModel, UsageError<Seq<char>>>(e),
            }
            &&& flag == "-duration"@ || flag == "--duration"@ ==> match positive_number(
                value,
                "duration"@,
            ) {
                Ok(v) => r == Ok::<RustPpsModel, UsageError<Seq<char>>>(
                    RustPpsModel { duration: v as u64, ..cfg },
                ),
                Err(e) => r == Err::<RustPpsModel, UsageError<Seq<char>>>(e),
            }
            &&& flag == "-max-inflight"@ || flag == "--max-inflight"@
                || flag == "-concurrency"@ || flag == "--concurrency"@ ==> match positive_number(
                value,
                "max-inflight"@,
            ) {
                Ok(v) => r == Ok::<RustPpsModel, UsageError<Seq<char>>>(
                    RustPpsModel { max_inflight: v, ..cfg },
                ),
                Err(e) => r == Err::<RustPpsModel, UsageError<Seq<char>>>(e),
            }
            &&& flag == "-repeat"@ || flag == "--repeat"@ || flag == "-repeats"@
                || flag == "--repeats"@ ==> match positive_number(value, "repeats"@) {
                Ok(v) => r == Ok::<RustPpsModel, UsageError<Seq<char>>>(
                    RustPpsModel { repeats: v, ..cfg },
                ),
                Err(e) => r == Err::<RustPpsModel, UsageError<Seq<char>>>(e),
            }
            &&& flag == "-output"@ || flag == "--output"@ ==> r == Ok::<
                RustPpsModel,
                UsageError<Seq<char>>,
            >(
                RustPpsModel { output: value, ..cfg },
            )
        }),
{
    lemma_rust_pps_spellings();
    let args = seq![flag, value];
    assert(args.skip(2) =~= Seq::<Seq<char>>::empty());
    reveal_with_fuel(rust_pps_after, 2);
}

/// The last argument needs a value where it is a flag that takes one; a call for help is
/// answered by the help; and any other word is refused. Without arguments nothing is changed.
pub proof fn law_rust_pps_words(cfg: RustPpsModel, flag: Seq<char>, rest: Seq<Seq<char>>)
    ensures
        ({
            let alone = rust_pps_after(cfg, seq![flag]);
            let r = rust_pps_after(cfg, seq![flag] + rest);
            let takes_value = flag == "-protocols"@ || flag == "--protocols"@
                || flag == "-payload-sizes"@
                || flag == "--payload-sizes"@ || flag == "-pps"@ || flag == "--pps"@
                || flag == "-target-pps"@ || flag == "--target-pps"@ || flag == "-duration"@
                || flag == "--duration"@ || flag == "-max-inflight"@
                || flag == "--max-inflight"@ || flag == "-concurrency"@
                || flag == "--concurrency"@ || flag == "-repeat"@ || flag == "--repeat"@
                || flag == "-repeats"@ || flag == "--repeats"@ || flag == "-output"@
                || flag == "--output"@;
            &&& takes_value ==> alone == Err::<RustPpsModel, UsageError<Seq<char>>>(
                UsageError::MissingValue(flag),
            )
            &&& flag == "-h"@ || flag == "--help"@ ==> r == Err::<
                RustPpsModel,
                UsageError<Seq<char>>,
            >(
                UsageError::HelpRequested(Subcommand::RustPps),
            )
            &&& !takes_value && flag != "-h"@ && flag != "--help"@ ==> r
                == Err::<RustPpsModel, UsageError<Seq<char>>>(
                UsageError::UnknownArgument(Subcommand::RustPps, flag),
            )
        }),
        rust_pps_after(cfg, Seq::empty()) == Ok::<RustPpsModel, UsageError<Seq<char>>>(cfg),
{
    lemma_rust_pps_spellings();
    assert((seq![flag] + rest)[0] == flag);
    assert((seq![flag] + rest).skip(1) =~= rest);
    reveal_with_fuel(rust_pps_after, 2);
}

proof fn lemma_rust_pps_spellings()
    ensures
        "-protocols"@.len() == 10,
        "--protocols"@.len() == 11,
        "-payload-sizes"@.len() == 14,
        "--payload-sizes"@.len() == 15,
        "-pps"@.len() == 4,
        "--pps"@.len() == 5,
        "-target-pps"@.len() == 11,
        "--target-pps"@.len() == 12,
        "-duration"@.len() == 9,
        "--duration"@.len() == 10,
        "-max-inflight"@.len() == 13,
        "--max-inflight"@.len() == 14,
        "-concurrency"@.len() == 12,
        "--concurrency"@.len() == 13,
        "-repeat"@.len() == 7,
        "--repeat"@.len() == 8,
        "-repeats"@.len() == 8,
        "--repeats"@.len() == 9,
        "-output"@.len() == 7,
        "--output"@.len() == 8,
        "-h"@.len() == 2,
        "--help"@.len() == 6,
        "-protocols"@[1] == 'p',
        "--duration"@[1] == '-',
        "--protocols"@[1] == '-',
        "-target-pps"@[1] == 't',
        "-payload-sizes"@[1] == 'p',
        "--max-inflight"@[1] == '-',
        "--target-pps"@[1] == '-',
        "-concurrency"@[1] == 'c',
        "-duration"@[1] == 'd',
        "--repeats"@[1] == '-',
        "-max-inflight"@[1] == 'm',
        "--concurrency"@[1] == '-',
        "-repeat"@[1] == 'r',
        "-output"@[1] == 'o',
        "--repeat"@[1] == '-',
        "-repeats"@[1] == 'r',
        "--repeat"@[2] == 'r',
        "--output"@[2] == 'o',
        "--output"@[1] == '-',
{
    reveal_strlit("-protocols");
    reveal_strlit("--protocols");
    reveal_strlit("-payload-sizes");
    reveal_strlit("--payload-sizes");
    reveal_strlit("-pps");
    reveal_strlit("--pps");
    reveal_strlit("-target-pps");
    reveal_strlit("--target-pps");
    reveal_strlit("-duration");
    reveal_strlit("--duration");
    reveal_strlit("-max-inflight");
    reveal_strlit("--max-inflight");
    reveal_strlit("-concurrency");
    reveal_strlit("--concurrency");
    reveal_strlit("-repeat");
    reveal_strlit("--repeat");
    reveal_strlit("-repeats");
    reveal_strlit("--repeats");
    reveal_strlit("-output");
    reveal_strlit("--output");
    reveal_strlit("-h");
    reveal_strlit("--help");
}

/// What nothing is said of is as it usually is.
pub proof fn law_rust_pps_defaults(args: Seq<Seq<char>>)
    ensures
        ({
            let d = RustPpsModel {
                protocols: seq![Protocol::H2, Protocol::H3],
                payload_sizes: seq![1024],
                target_pps: seq![1000, 3000, 6000, 10000],
                duration: 10,
                max_inflight: 100,
                repeats: 1,
                output: "reports/rust_pps_results/results.csv"@,
            };
            rust_pps_of(args) == rust_pps_after(d, args)
        }),
{
}

/// What stands later on a command line is read as if it stood alone, on top of what stands
/// before it.
pub proof fn law_rust_pps_follow(cfg: RustPpsModel, a: Seq<Seq<char>>, b: Seq<Seq<char>>)
    requires
        rust_pps_after(cfg, a) is Ok,
    ensures
        rust_pps_after(cfg, a + b) == rust_pps_after(rust_pps_after(cfg, a)->Ok_0, b),
    decreases a.len(),
{
    if a.len() == 0 {
        assert(a + b =~= b);
    } else {
        assert((a + b)[0] == a[0]);
        if rust_pps_takes_value(a[0]) {
            assert((a + b)[1] == a[1]);
            assert((a + b).skip(2) =~= a.skip(2) + b);
            law_rust_pps_follow(rust_pps_with(cfg, a[0], a[1])->Ok_0, a.skip(2), b);
        }
    }
}

} // verus!
