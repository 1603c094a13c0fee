//! The flags of the overload experiment.
use crate::args::{
    asks_help, is_either, is_repeats, law_positive_numbers, next_arg, parse_positive_usize,
    parse_positive_usizes, positive_list, positive_number, positive_numbers, sets_repeats,
};
use crate::error::{outcome, CliError, Subcommand, UsageError};
use crate::mode::{law_mode_list, mode_list, parse_overload_modes, OverloadMode};
use crate::percent::{parse_percent, percent_bits, percent_of, Percent};
use vstd::prelude::*;
use vstd::string::*;

verus! {

/// What the overload experiment runs.
#[derive(Debug, Clone)]
pub struct OverloadConfig {
    /// How many requests each scenario sends.
    pub total_requests: usize,
    /// How many requests may be unanswered at once.
    pub concurrency: Vec<usize>,
    /// The sizes of the request bodies, in bytes.
    pub payload_sizes: Vec<usize>,
    /// How many requests the server handles at once.
    pub thresholds: Vec<usize>,
    /// How many requests the server turns away; none leaves it to the threshold.
    pub reject_percent: Percent,
    /// How requests are turned away, in the order in which the ways take turns.
    pub modes: Vec<OverloadMode>,
    /// How often each scenario is run.
    pub repeats: usize,
    /// The directory of the reports.
    pub output_dir: String,
}

/// The values of a `OverloadConfig`.
#[verifier::ext_equal]
pub struct OverloadModel {
    pub total_requests: usize,
    pub concurrency: Seq<usize>,
    pub payload_sizes: Seq<usize>,
    pub thresholds: Seq<usize>,
    pub reject_percent: u64,
    pub modes: Seq<OverloadMode>,
    pub repeats: usize,
    pub output_dir: Seq<char>,
}

impl View for OverloadConfig {
    type V = OverloadModel;

    open spec fn view(&self) -> OverloadModel {
        OverloadModel {
            total_requests: self.total_requests,
            concurrency: self.concurrency@,
            payload_sizes: self.payload_sizes@,
            thresholds: self.thresholds@,
            reject_percent: self.reject_percent@,
            modes: self.modes@,
            repeats: self.repeats,
            output_dir: self.output_dir@,
        }
    }
}

/// What is run where no flag says otherwise.
pub open spec fn overload_defaults() -> OverloadModel {
    OverloadModel {
        total_requests: 1000,
        concurrency: seq![50, 100, 200, 500],
        payload_sizes: seq![1024, 16384, 65536, 262144],
        thresholds: seq![20, 50],
        reject_percent: 0,
        modes: seq![OverloadMode::App503, OverloadMode::Reset],
        repeats: 1,
        output_dir: "reports/overload_results"@,
    }
}

/// Whether `flag` is followed by a value.
pub open spec fn overload_takes_value(flag: Seq<char>) -> bool {
    ||| flag == "-requests"@ || flag == "--requests"@
    ||| flag == "-concurrency"@ || flag == "--concurrency"@
    ||| flag == "-payload-sizes"@ || flag == "--payload-sizes"@
    ||| flag == "-thresholds"@ || flag == "--thresholds"@
    ||| flag == "-reject-percent"@ || flag == "--reject-percent"@
    ||| flag == "-modes"@ || flag == "--modes"@
    ||| sets_repeats(flag)
    ||| flag == "-output-dir"@ || flag == "--output-dir"@
}

/// The configuration with `flag` set to `value`. `number` holds the
/// bits of what the value denotes as a double-precision number.
pub open spec fn overload_with(
    cfg: OverloadModel,
    flag: Seq<char>,
    value: Seq<char>,
    number: Option<u64>,
) -> Result<OverloadModel, UsageError<Seq<char>>> {
    if flag == "-requests"@ || flag == "--requests"@ {
        match positive_number(value, "requests"@) {
            Ok(v) => Ok(OverloadModel { total_requests: v, ..cfg }),
            Err(e) => Err(e),
        }
    } else if flag == "-concurrency"@ || flag == "--concurrency"@ {
        match positive_numbers(value, "concurrency"@) {
            Ok(v) => Ok(OverloadModel { concurrency: v, ..cfg }),
            Err(e) => Err(e),
        }
    } else if flag == "-payload-sizes"@ || flag == "--payload-sizes"@ {
        match positive_numbers(value, "payload-sizes"@) {
            Ok(v) => Ok(OverloadModel { payload_sizes: v, ..cfg }),
            Err(e) => Err(e),
        }
    } else if flag == "-thresholds"@ || flag == "--thresholds"@ {
        match positive_numbers(value, "thresholds"@) {
            Ok(v) => Ok(OverloadModel { thresholds: v, ..cfg }),
            Err(e) => Err(e),
        }
    } else if flag == "-reject-percent"@ || flag == "--reject-percent"@ {
        match percent_of(value, number) {
            Ok(v) => Ok(OverloadModel { reject_percent: v, ..cfg }),
            Err(e) => Err(e),
        }
    } else if flag == "-modes"@ || flag == "--modes"@ {
        match mode_list(value) {
            Ok(v) => Ok(OverloadModel { modes: v, ..cfg }),
            Err(e) => Err(e),
        }
    } else if sets_repeats(flag) {
        match positive_number(value, "repeats"@) {
            Ok(v) => Ok(OverloadModel { repeats: v, ..cfg }),
            Err(e) => Err(e),
        }
    } else {
        Ok(OverloadModel { output_dir: value, ..cfg })
    }
}

/// The configuration that `args` turn `cfg` into, flag by flag.
pub open spec fn overload_after(
    cfg: OverloadModel,
    args: Seq<Seq<char>>,
    numbers: Seq<Option<u64>>,
) -> Result<OverloadModel, UsageError<Seq<char>>>
    decreases args.len(),
{
    if args.len() == 0 {
        Ok(cfg)
    } else if overload_takes_value(args[0]) {
        if args.len() == 1 {
            Err(UsageError::MissingValue(args[0]))
        } else {
            match overload_with(cfg, args[0], args[1], numbers[1]) {
                Ok(next) => overload_after(next, args.skip(2), numbers.skip(2)),
                Err(e) => Err(e),
            }
        }
    } else if asks_help(args[0]) {
        Err(UsageError::HelpRequested(Subcommand::Overload))
    } else {
        Err(UsageError::UnknownArgument(Subcommand::Overload, args[0]))
    }
}

/// The configuration that a command line denotes.
pub open spec fn overload_of(args: Seq<Seq<char>>, numbers: Seq<Option<u64>>) -> Result<
    OverloadModel,
    UsageError<Seq<char>>,
> {
    overload_after(overload_defaults(), args, numbers)
}

/// What holds of every configuration that is run: every list has
/// an entry, no mode is listed twice, every count is positive, and the
/// percentage is between 0 and 100.
pub open spec fn overload_valid(cfg: OverloadModel) -> bool {
    &&& cfg.total_requests > 0
    &&& positive_list(cfg.concurrency)
    &&& positive_list(cfg.payload_sizes)
    &&& positive_list(cfg.thresholds)
    &&& percent_bits(cfg.reject_percent)
    &&& cfg.modes.len() > 0
    &&& cfg.modes.no_duplicates()
    &&& cfg.repeats > 0
}

proof fn lemma_overload_with(
    cfg: OverloadModel,
    flag: Seq<char>,
    value: Seq<char>,
    number: Option<u64>,
)
    requires
        overload_valid(cfg),
        overload_with(cfg, flag, value, number) is Ok,
    ensures
        overload_valid(overload_with(cfg, flag, value, number)->Ok_0),
{
    if flag == "-requests"@ || flag == "--requests"@ {
    } else if flag == "-concurrency"@ || flag == "--concurrency"@ {
        law_positive_numbers(value, "concurrency"@);
    } else if flag == "-payload-sizes"@ || flag == "--payload-sizes"@ {
        law_positive_numbers(value, "payload-sizes"@);
    } else if flag == "-thresholds"@ || flag == "--thresholds"@ {
        law_positive_numbers(value, "thresholds"@);
    } else if flag == "-reject-percent"@ || flag == "--reject-percent"@ {
    } else if flag == "-modes"@ || flag == "--modes"@ {
        law_mode_list(value);
    }
}

proof fn lemma_overload_after(cfg: OverloadModel, args: Seq<Seq<char>>, numbers: Seq<Option<u64>>)
    requires
        overload_valid(cfg),
        overload_after(cfg, args, numbers) is Ok,
    ensures
        overload_valid(overload_after(cfg, args, numbers)->Ok_0),
    decreases args.len(),
{
    if args.len() == 0 {
    } else if overload_takes_value(args[0]) {
        lemma_overload_with(cfg, args[0], args[1], numbers[1]);
        lemma_overload_after(
            overload_with(cfg, args[0], args[1], numbers[1])->Ok_0,
            args.skip(2),
            numbers.skip(2),
        );
    }
}

/// Every accepted command line denotes a valid configuration.
pub proof fn law_overload_valid(args: Seq<Seq<char>>, numbers: Seq<Option<u64>>)
    requires
        overload_of(args, numbers) is Ok,
    ensures
        overload_valid(overload_of(args, numbers)->Ok_0),
{
    lemma_overload_after(overload_defaults(), args, numbers);
}

impl OverloadConfig {
    fn defaults() -> (r: OverloadConfig)
        ensures
            r@ == overload_defaults(),
    {
        let r = OverloadConfig {
            total_requests: 1000,
            concurrency: vec![50, 100, 200, 500],
            payload_sizes: vec![1024, 16384, 65536, 262144],
            thresholds: vec![20, 50],
            reject_percent: Percent::zero(),
            modes: vec![OverloadMode::App503, OverloadMode::Reset],
            repeats: 1,
            output_dir: "reports/overload_results".to_owned(),
        };
        assert(r@.concurrency =~= overload_defaults().concurrency);
        assert(r@.payload_sizes =~= overload_defaults().payload_sizes);
        assert(r@.thresholds =~= overload_defaults().thresholds);
        assert(r@.modes =~= overload_defaults().modes);
        r
    }

    fn takes_value(flag: &str) -> (r: bool)
        ensures
            r == overload_takes_value(flag@),
    {
        is_either(flag, "-requests", "--requests")
            || is_either(flag, "-concurrency", "--concurrency")
            || is_either(flag, "-payload-sizes", "--payload-sizes")
            || is_either(flag, "-thresholds", "--thresholds")
            || is_either(flag, "-reject-percent", "--reject-percent")
            || is_either(flag, "-modes", "--modes")
            || is_repeats(flag)
            || is_either(flag, "-output-dir", "--output-dir")
    }

    /// Sets what `flag` names.
    fn with(self, flag: &str, value: &str, number: Option<u64>) -> (r: Result<
        OverloadConfig,
        CliError,
    >)
        requires
            overload_takes_value(flag@),
        ensures
            outcome(r) == overload_with(self@, flag@, value@, number),
    {
        let mut cfg = self;
        if is_either(flag, "-requests", "--requests") {
            match parse_positive_usize(value, "requests") {
                Ok(v) => {
                    cfg.total_requests = v;
                },
                Err(e) => {
                    return Err(e);
                },
            }
        } else if is_either(flag, "-concurrency", "--concurrency") {
            match parse_positive_usizes(value, "concurrency") {
                Ok(v) => {
                    cfg.concurrency = v;
                },
                Err(e) => {
                    return Err(e);
                },
            }
        } else if is_either(flag, "-payload-sizes", "--payload-sizes") {
            match parse_positive_usizes(value, "payload-sizes") {
                Ok(v) => {
                    cfg.payload_sizes = v;
                },
                Err(e) => {
                    return Err(e);
                },
            }
        } else if is_either(flag, "-thresholds", "--thresholds") {
            match parse_positive_usizes(value, "thresholds") {
                Ok(v) => {
                    cfg.thresholds = v;
                },
                Err(e) => {
                    return Err(e);
                },
            }
        } else if is_either(flag, "-reject-percent", "--reject-percent") {
            match parse_percent(value, number) {
                Ok(v) => {
                    cfg.reject_percent = v;
                },
                Err(e) => {
                    return Err(e);
                },
            }
        } else if is_either(flag, "-modes", "--modes") {
            match parse_overload_modes(value) {
                Ok(v) => {
                    cfg.modes = v;
                },
                Err(e) => {
                    return Err(e);
                },
            }
        } else if is_repeats(flag) {
            match parse_positive_usize(value, "repeats") {
                Ok(v) => {
                    cfg.repeats = v;
                },
                Err(e) => {
                    return Err(e);
                },
            }
        } else {
            cfg.output_dir = value.to_owned();
        }
        Ok(cfg)
    }

    /// Reads the arguments behind the name of the subcommand. `numbers` holds, for
    /// each argument, the bits of what it denotes as a double-precision number.
    pub fn from_args(args: Vec<String>, numbers: Vec<Option<u64>>) -> (r: Result<
        OverloadConfig,
        CliError,
    >)
        requires
            numbers@.len() == args@.len(),
        ensures
            outcome(r) == overload_of(args.deep_view(), numbers@),
            r matches Ok(cfg) ==> overload_valid(cfg@),
    {
        let mut cfg = OverloadConfig::defaults();
        let ghost all = args.deep_view();
        let mut at: usize = 0;
        assert(all.skip(0) =~= all);
        assert(numbers@.skip(0) =~= numbers@);
        while at < args.len()
            invariant
                at <= args@.len(),
                numbers@.len() == args@.len(),
                all == args.deep_view(),
                overload_after(overload_defaults(), all, numbers@) == overload_after(
                    cfg@,
                    all.skip(at as int),
                    numbers@.skip(at as int),
                ),
            decreases args@.len() - at,
        {
            let ghost rest = all.skip(at as int);
            let ghost left = numbers@.skip(at as int);
            let arg = args[at].clone();
            at = at + 1;
            assert(rest[0] == arg@);
            assert(rest.skip(1) =~= all.skip(at as int));
            if OverloadConfig::takes_value(arg.as_str()) {
                match next_arg(&args, &mut at, arg.as_str()) {
                    Err(e) => {
                        return Err(e);
                    },
                    Ok(value) => {
                        assert(rest[1] == value@);
                        assert(rest.skip(2) =~= all.skip(at as int));
                        assert(left.skip(2) =~= numbers@.skip(at as int));
                        match cfg.with(arg.as_str(), value.as_str(), numbers[at - 1]) {
                            Err(e) => {
                                return Err(e);
                            },
                            Ok(next) => {
                                cfg = next;
                            },
                        }
                    },
                }
            } else if is_either(arg.as_str(), "-h", "--help") {
                return Err(UsageError::HelpRequested(Subcommand::Overload));
            } else {
                return Err(UsageError::UnknownArgument(Subcommand::Overload, arg));
            }
        }
        assert(all.skip(at as int) =~= seq![]);
        proof {
            law_overload_valid(all, numbers@);
        }
        Ok(cfg)
    }
}

// ---------------------------------------------------------------------------
// What the flags do
// ---------------------------------------------------------------------------

/// Each flag of the overload experiment, however it is spelled, sets what it names to what
/// its value says, refuses a value that says nothing of the kind, and leaves all else as it
/// was.
pub proof fn law_overload_flags(
    cfg: OverloadModel,
    flag: Seq<char>,
    value: Seq<char>,
    number: Option<u64>,
    first: Option<u64>,
)
    ensures
        ({
            let r = overload_after(cfg, seq![flag, value], seq![first, number]);
            &&& flag == "-requests"@ || flag == "--requests"@ ==> match positive_number(
                value,
                "requests"@,
            ) {
                Ok(v) => r == Ok::<OverloadModel, UsageError<Seq<char>>>(
                    OverloadModel { total_requests: v, ..cfg },
                ),
                Err(e) => r == Err::<OverloadModel, UsageError<Seq<char>>>(e),
            }
            &&& flag == "-concurrency"@ || flag == "--concurrency"@ ==> match positive_numbers(
                value,
                "concurrency"@,
            ) {
                Ok(v) => r == Ok::<OverloadModel, UsageError<Seq<char>>>(
                    OverloadModel { concurrency: v, ..cfg },
                ),
                Err(e) => r == Err::<OverloadModel, UsageError<Seq<char>>>(e),
            }
            &&& flag == "-payload-sizes"@ || flag == "--payload-sizes"@ ==> match positive_numbers(
                value,
                "payload-sizes"@,
            ) {
                Ok(v) => r == Ok::<OverloadModel, UsageError<Seq<char>>>(
                    OverloadModel { payload_sizes: v, ..cfg },
                ),
                Err(e) => r == Err::<OverloadModel, UsageError<Seq<char>>>(e),
            }
            &&& flag == "-thresholds"@ || flag == "--thresholds"@ ==> match positive_numbers(
                value,
                "thresholds"@,
            ) {
                Ok(v) => r == Ok::<OverloadModel, UsageError<Seq<char>>>(
                    OverloadModel { thresholds: v, ..cfg },
                ),
                Err(e) => r == Err::<OverloadModel, UsageError<Seq<char>>>(e),
            }
            &&& flag == "-reject-percent"@ || flag == "--reject-percent"@ ==> match percent_of(
                value,
                number,
            ) {
                Ok(v) => r == Ok::<OverloadModel, UsageError<Seq<char>>>(
                    OverloadModel { reject_percent: v, ..cfg },
                ),
                Err(e) => r == Err::<OverloadModel, UsageError<Seq<char>>>(e),
            }
            &&& flag == "-modes"@ || flag == "--modes"@ ==> match mode_list(value) {
                Ok(v) => r == Ok::<OverloadModel, UsageError<Seq<char>>>(
                    OverloadModel { modes: v, ..cfg },
                ),
                Err(e) => r == Err::<OverloadModel, UsageError<Seq<char>>>(e),
            }
            &&& flag == "-repeat"@ || flag == "--repeat"@ || flag == "-repeats"@
                || flag == "--repeats"@ ==> match positive_number(value, "repeats"@) {
                Ok(v) => r == Ok::<OverloadModel, UsageError<Seq<char>>>(
                    OverloadModel { repeats: v, ..cfg },
                ),
                Err(e) => r == Err::<OverloadModel, UsageError<Seq<char>>>(e),
            }
            &&& flag == "-output-dir"@ || flag == "--output-dir"@ ==> r == Ok::<
                OverloadModel,
                UsageError<Seq<char>>,
            >(
                OverloadModel { output_dir: value, ..cfg },
            )
        }),
{
    lemma_overload_spellings();
    let args = seq![flag, value];
    assert(args.skip(2) =~= Seq::<Seq<char>>::empty());
    reveal_with_fuel(overload_after, 2);
}

/// The last argument needs a value where it is a flag that takes one; a call for help is
/// answered by the help; and any other word is refused. Without arguments nothing is changed.
pub proof fn law_overload_words(
    cfg: OverloadModel,
    flag: Seq<char>,
    rest: Seq<Seq<char>>,
    numbers: Seq<Option<u64>>,
)
    ensures
        ({
            let alone = overload_after(cfg, seq![flag], numbers);
            let r = overload_after(cfg, seq![flag] + rest, numbers);
            let takes_value = flag == "-requests"@ || flag == "--requests"@
                || flag == "-concurrency"@
                || flag == "--concurrency"@ || flag == "-payload-sizes"@
                || flag == "--payload-sizes"@ || flag == "-thresholds"@
                || flag == "--thresholds"@ || flag == "-reject-percent"@
                || flag == "--reject-percent"@ || flag == "-modes"@ || flag == "--modes"@
                || flag == "-repeat"@ || flag == "--repeat"@ || flag == "-repeats"@
                || flag == "--repeats"@ || flag == "-output-dir"@ || flag == "--output-dir"@;
            &&& takes_value ==> alone == Err::<OverloadModel, UsageError<Seq<char>>>(
                UsageError::MissingValue(flag),
            )
            &&& flag == "-h"@ || flag == "--help"@ ==> r == Err::<
                OverloadModel,
                UsageError<Seq<char>>,
            >(
                UsageError::HelpRequested(Subcommand::Overload),
            )
            &&& !takes_value && flag != "-h"@ && flag != "--help"@ ==> r
                == Err::<OverloadModel, UsageError<Seq<char>>>(
                UsageError::UnknownArgument(Subcommand::Overload, flag),
            )
        }),
        overload_after(cfg, Seq::empty(), numbers) == Ok::<OverloadModel, UsageError<Seq<char>>>(
            cfg,
        ),
{
    lemma_overload_spellings();
    assert((seq![flag] + rest)[0] == flag);
    assert((seq![flag] + rest).skip(1) =~= rest);
    reveal_with_fuel(overload_after, 2);
}

proof fn lemma_overload_spellings()
    ensures
        "-requests"@.len() == 9,
        "--requests"@.len() == 10,
        "-concurrency"@.len() == 12,
        "--concurrency"@.len() == 13,
        "-payload-sizes"@.len() == 14,
        "--payload-sizes"@.len() == 15,
        "-thresholds"@.len() == 11,
        "--thresholds"@.len() == 12,
        "-reject-percent"@.len() == 15,
        "--reject-percent"@.len() == 16,
        "-modes"@.len() == 6,
        "--modes"@.len() == 7,
        "-repeat"@.len() == 7,
        "--repeat"@.len() == 8,
        "-repeats"@.len() == 8,
        "--repeats"@.len() == 9,
        "-output-dir"@.len() == 11,
        "--output-dir"@.len() == 12,
        "-h"@.len() == 2,
        "--help"@.len() == 6,
        "-requests"@[1] == 'r',
        "--repeats"@[1] == '-',
        "-concurrency"@[1] == 'c',
        "--thresholds"@[1] == '-',
        "--output-dir"@[1] == '-',
        "--payload-sizes"@[1] == '-',
        "-reject-percent"@[1] == 'r',
        "-thresholds"@[1] == 't',
        "-output-dir"@[1] == 'o',
        "--thresholds"@[2] == 't',
        "--output-dir"@[2] == 'o',
        "-modes"@[1] == 'm',
        "--help"@[1] == '-',
        "--modes"@[1] == '-',
        "-repeat"@[1] == 'r',
        "--repeat"@[1] == '-',
        "-repeats"@[1] == 'r',
{
    reveal_strlit("-requests");
    reveal_strlit("--requests");
    reveal_strlit("-concurrency");
    reveal_strlit("--concurrency");
    reveal_strlit("-payload-sizes");
    reveal_strlit("--payload-sizes");
    reveal_strlit("-thresholds");
    reveal_strlit("--thresholds");
    reveal_strlit("-reject-percent");
    reveal_strlit("--reject-percent");
    reveal_strlit("-modes");
    reveal_strlit("--modes");
    reveal_strlit("-repeat");
    reveal_strlit("--repeat");
    reveal_strlit("-repeats");
    reveal_strlit("--repeats");
    reveal_strlit("-output-dir");
    reveal_strlit("--output-dir");
    reveal_strlit("-h");
    reveal_strlit("--help");
}

/// What nothing is said of is as it usually is.
pub proof fn law_overload_defaults(args: Seq<Seq<char>>, numbers: Seq<Option<u64>>)
    ensures
        ({
            let d = OverloadModel {
                total_requests: 1000,
                concurrency: seq![50, 100, 200, 500],
                payload_sizes: seq![1024, 16384, 65536, 262144],
                thresholds: seq![20, 50],
                reject_percent: 0,
                modes: seq![OverloadMode::App503, OverloadMode::Reset],
                repeats: 1,
                output_dir: "reports/overload_results"@,
            };
            overload_of(args, numbers) == overload_after(d, args, numbers)
        }),
{
}

/// What stands later on a command line is read as if it stood alone, on top of what stands
/// before it.
pub proof fn law_overload_follow(
    cfg: OverloadModel,
    a: Seq<Seq<char>>,
    b: Seq<Seq<char>>,
    m: Seq<Option<u64>>,
    n: Seq<Option<u64>>,
)
    requires
        overload_after(cfg, a, m) is Ok,
        m.len() == a.len(),
    ensures
        overload_after(cfg, a + b, m + n) == overload_after(overload_after(cfg, a, m)->Ok_0, b, n),
    decreases a.len(),
{
    if a.len() == 0 {
        assert(a + b =~= b);
        assert(m + n =~= n);
    } else {
        assert((a + b)[0] == a[0]);
        assert((a + b)[1] == a[1] && (m + n)[1] == m[1]);
        assert((a + b).skip(2) =~= a.skip(2) + b);
        assert((m + n).skip(2) =~= m.skip(2) + n);
        law_overload_follow(overload_with(cfg, a[0], a[1], m[1])->Ok_0, a.skip(2), b, m.skip(2), n);
    }
}

} // verus!
