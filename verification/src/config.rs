//! The flags of the scenario matrix.
use crate::args::{
    asks_help, is_either, is_repeats, law_positive_numbers, next_arg, parse_positive_usize,
    parse_positive_usizes, positive_list, positive_number, positive_numbers, sets_repeats,
};
use crate::error::{outcome, CliError, Subcommand, UsageError};
use crate::netem::{failure_list, parse_failures, FailureModel, FailureProfile};
use crate::protocol::{law_protocol_list, parse_protocols, protocol_list, Protocol};
use vstd::prelude::*;
use vstd::string::*;

verus! {

/// What the scenario matrix runs.
#[derive(Debug, Clone)]
pub struct Config {
    /// The file that holds the payload corpus.
    pub payloads: String,
    /// The transports, in the order in which they take turns.
    pub protocols: Vec<Protocol>,
    /// How many users send at once.
    pub users: Vec<usize>,
    /// How many messages each user sends.
    pub messages: Vec<usize>,
    /// The network conditions.
    pub failures: Vec<FailureProfile>,
    /// How often each scenario is run.
    pub repeats: usize,
    /// Whether network conditions may be imposed.
    pub netem: bool,
    /// The file of the report; without one it goes to standard output.
    pub output: Option<String>,
}

/// The values of a `Config`.
#[verifier::ext_equal]
pub struct ConfigModel {
    pub payloads: Seq<char>,
    pub protocols: Seq<Protocol>,
    pub users: Seq<usize>,
    pub messages: Seq<usize>,
    pub failures: Seq<FailureModel>,
    pub repeats: usize,
    pub netem: bool,
    pub output: Option<Seq<char>>,
}

impl View for Config {
    type V = ConfigModel;

    open spec fn view(&self) -> ConfigModel {
        ConfigModel {
            payloads: self.payloads@,
            protocols: self.protocols@,
            users: self.users@,
            messages: self.messages@,
            failures: self.failures.deep_view(),
            repeats: self.repeats,
            netem: self.netem,
            output: match self.output {
                Some(s) => Some(s@),
                None => None,
            },
        }
    }
}

/// What is run where no flag says otherwise.
pub open spec fn config_defaults() -> ConfigModel {
    ConfigModel {
        payloads: "../../SBI_PAYLOADS.json"@,
        protocols: seq![Protocol::H2, Protocol::H3],
        users: seq![1, 8, 32, 128],
        messages: seq![100, 1000],
        failures: seq![FailureProfile::none_model()],
        repeats: 1,
        netem: false,
        output: None,
    }
}

/// Whether `flag` is followed by a value.
pub open spec fn config_takes_value(flag: Seq<char>) -> bool {
    ||| flag == "-payloads"@ || flag == "--payloads"@
    ||| flag == "-protocols"@ || flag == "--protocols"@
    ||| flag == "-users"@ || flag == "--users"@
    ||| flag == "-messages"@ || flag == "--messages"@
    ||| flag == "-failures"@ || flag == "--failures"@
    ||| sets_repeats(flag)
    ||| flag == "-output"@ || flag == "--output"@
}

/// The configuration with `flag` set to `value`.
pub open spec fn config_with(
    cfg: ConfigModel,
    flag: Seq<char>,
    value: Seq<char>,
) -> Result<ConfigModel, UsageError<Seq<char>>> {
    if flag == "-payloads"@ || flag == "--payloads"@ {
        Ok(ConfigModel { payloads: value, ..cfg })
    } else if flag == "-protocols"@ || flag == "--protocols"@ {
        match protocol_list(value) {
            Ok(v) => Ok(ConfigModel { protocols: v, ..cfg }),
            Err(e) => Err(e),
        }
    } else if flag == "-users"@ || flag == "--users"@ {
        match positive_numbers(value, "users"@) {
            Ok(v) => Ok(ConfigModel { users: v, ..cfg }),
            Err(e) => Err(e),
        }
    } else if flag == "-messages"@ || flag == "--messages"@ {
        match positive_numbers(value, "messages"@) {
            Ok(v) => Ok(ConfigModel { messages: v, ..cfg }),
            Err(e) => Err(e),
        }
    } else if flag == "-failures"@ || flag == "--failures"@ {
        match failure_list(value) {
            Ok(v) => Ok(ConfigModel { failures: v, ..cfg }),
            Err(e) => Err(e),
        }
    } else if sets_repeats(flag) {
        match positive_number(value, "repeats"@) {
            Ok(v) => Ok(ConfigModel { repeats: v, ..cfg }),
            Err(e) => Err(e),
        }
    } else {
        Ok(ConfigModel { output: Some(value), ..cfg })
    }
}

/// The configuration that `args` turn `cfg` into, flag by flag.
pub open spec fn config_after(
    cfg: ConfigModel,
    args: Seq<Seq<char>>,
) -> Result<ConfigModel, UsageError<Seq<char>>>
    decreases args.len(),
{
    if args.len() == 0 {
        Ok(cfg)
    } else if config_takes_value(args[0]) {
        if args.len() == 1 {
            Err(UsageError::MissingValue(args[0]))
        } else {
            match config_with(cfg, args[0], args[1]) {
                Ok(next) => config_after(next, args.skip(2)),
                Err(e) => Err(e),
            }
        }
    } else if args[0] == "-netem"@ || args[0] == "--netem"@ {
        config_after(ConfigModel { netem: true, ..cfg }, args.skip(1))
    } else if asks_help(args[0]) {
        Err(UsageError::HelpRequested(Subcommand::Matrix))
    } else {
        Err(UsageError::UnknownArgument(Subcommand::Matrix, args[0]))
    }
}

/// The first profile that needs `tc`.
pub open spec fn first_needing_netem(failures: Seq<FailureModel>) -> Option<FailureModel>
    decreases failures.len(),
{
    if failures.len() == 0 {
        None
    } else if failures[0].netem_args.len() > 0 {
        Some(failures[0])
    } else {
        first_needing_netem(failures.drop_first())
    }
}

/// The configuration that a command line denotes. A profile that needs `tc` is
/// refused unless network conditions may be imposed.
pub open spec fn config_of(args: Seq<Seq<char>>) -> Result<ConfigModel, UsageError<Seq<char>>> {
    match config_after(config_defaults(), args) {
        Err(e) => Err(e),
        Ok(cfg) => match first_needing_netem(cfg.failures) {
            Some(f) if !cfg.netem => Err(UsageError::FailureNeedsNetem(f.name)),
            _ => Ok(cfg),
        },
    }
}

proof fn lemma_first_needing_netem(failures: Seq<FailureModel>)
    requires
        first_needing_netem(failures) is None,
    ensures
        forall|i: int| 0 <= i < failures.len() ==> (#[trigger] failures[i]).netem_args.len() == 0,
    decreases failures.len(),
{
    if failures.len() > 0 {
        let rest = failures.drop_first();
        lemma_first_needing_netem(rest);
        assert forall|i: int| 0 <= i < failures.len() implies (
        #[trigger] failures[i]).netem_args.len() == 0 by {
            if i > 0 {
                assert(rest[i - 1] == failures[i]);
            }
        }
    }
}

/// What holds of every configuration that is run: every list has
/// an entry, no protocol is listed twice, and every number is positive.
pub open spec fn config_valid(cfg: ConfigModel) -> bool {
    &&& cfg.protocols.len() > 0
    &&& cfg.protocols.no_duplicates()
    &&& positive_list(cfg.users)
    &&& positive_list(cfg.messages)
    &&& cfg.failures.len() > 0
    &&& cfg.repeats > 0
}

proof fn lemma_config_with(cfg: ConfigModel, flag: Seq<char>, value: Seq<char>)
    requires
        config_valid(cfg),
        config_with(cfg, flag, value) is Ok,
    ensures
        config_valid(config_with(cfg, flag, value)->Ok_0),
{
    if flag == "-payloads"@ || flag == "--payloads"@ {
    } else if flag == "-protocols"@ || flag == "--protocols"@ {
        law_protocol_list(value);
    } else if flag == "-users"@ || flag == "--users"@ {
        law_positive_numbers(value, "users"@);
    } else if flag == "-messages"@ || flag == "--messages"@ {
        law_positive_numbers(value, "messages"@);
    }
}

proof fn lemma_config_after(cfg: ConfigModel, args: Seq<Seq<char>>)
    requires
        config_valid(cfg),
        config_after(cfg, args) is Ok,
    ensures
        config_valid(config_after(cfg, args)->Ok_0),
    decreases args.len(),
{
    if args.len() == 0 {
    } else if config_takes_value(args[0]) {
        lemma_config_with(cfg, args[0], args[1]);
        lemma_config_after(config_with(cfg, args[0], args[1])->Ok_0, args.skip(2));
    } else {
        lemma_config_after(ConfigModel { netem: true, ..cfg }, args.skip(1));
    }
}

/// Every accepted command line denotes a valid configuration.
pub proof fn law_config_valid(args: Seq<Seq<char>>)
    requires
        config_of(args) is Ok,
    ensures
        config_valid(config_of(args)->Ok_0),
{
    lemma_config_after(config_defaults(), args);
}

/// No accepted configuration imposes network conditions without leave.
pub proof fn law_config_netem(args: Seq<Seq<char>>)
    requires
        config_of(args) is Ok,
    ensures
        ({
            let cfg = config_of(args)->Ok_0;
            cfg.netem || forall|i: int|
                0 <= i < cfg.failures.len() ==> (#[trigger] cfg.failures[i]).netem_args.len() == 0
        }),
{
    let cfg = config_of(args)->Ok_0;
    if !cfg.netem {
        lemma_first_needing_netem(cfg.failures);
    }
}

impl Config {
    fn defaults() -> (r: Config)
        ensures
            r@ == config_defaults(),
    {
        let r = Config {
            payloads: "../../SBI_PAYLOADS.json".to_owned(),
            protocols: vec![Protocol::H2, Protocol::H3],
            users: vec![1, 8, 32, 128],
            messages: vec![100, 1000],
            failures: vec![FailureProfile::none()],
            repeats: 1,
            netem: false,
            output: None,
        };
        assert(r@.protocols =~= config_defaults().protocols);
        assert(r@.users =~= config_defaults().users);
        assert(r@.messages =~= config_defaults().messages);
        assert(r@.failures =~= config_defaults().failures);
        r
    }

    fn takes_value(flag: &str) -> (r: bool)
        ensures
            r == config_takes_value(flag@),
    {
        is_either(flag, "-payloads", "--payloads")
            || is_either(flag, "-protocols", "--protocols")
            || is_either(flag, "-users", "--users")
            || is_either(flag, "-messages", "--messages")
            || is_either(flag, "-failures", "--failures")
            || is_repeats(flag)
            || is_either(flag, "-output", "--output")
    }

    /// Sets what `flag` names.
    fn with(self, flag: &str, value: &str) -> (r: Result<Config, CliError>)
        requires
            config_takes_value(flag@),
        ensures
            outcome(r) == config_with(self@, flag@, value@),
    {
        let mut cfg = self;
        if is_either(flag, "-payloads", "--payloads") {
            cfg.payloads = value.to_owned();
        } else if is_either(flag, "-protocols", "--protocols") {
            match parse_protocols(value) {
                Ok(v) => {
                    cfg.protocols = v;
                },
                Err(e) => {
                    return Err(e);
                },
            }
        } else if is_either(flag, "-users", "--users") {
            match parse_positive_usizes(value, "users") {
                Ok(v) => {
                    cfg.users = v;
                },
                Err(e) => {
                    return Err(e);
                },
            }
        } else if is_either(flag, "-messages", "--messages") {
            match parse_positive_usizes(value, "messages") {
                Ok(v) => {
                    cfg.messages = v;
                },
                Err(e) => {
                    return Err(e);
                },
            }
        } else if is_either(flag, "-failures", "--failures") {
            match parse_failures(value) {
                Ok(v) => {
                    cfg.failures = v;
                },
                Err(e) => {
                    return Err(e);
                },
            }
        } else if is_repeats(flag) {
            match parse_positive_usize(value, "repeats") {
                Ok(v) => {
                    cfg.repeats = v;
                },
                Err(e) => {
                    return Err(e);
                },
            }
        } else {
            cfg.output = Some(value.to_owned());
        }
        Ok(cfg)
    }

    /// Reads the arguments behind the program's name.
    pub fn from_args(args: Vec<String>) -> (r: Result<Config, CliError>)
        ensures
            outcome(r) == config_of(args.deep_view()),
            r matches Ok(cfg) ==> config_valid(cfg@),
    {
        let mut cfg = Config::defaults();
        let ghost all = args.deep_view();
        let mut at: usize = 0;
        assert(all.skip(0) =~= all);
        while at < args.len()
            invariant
                at <= args@.len(),
                all == args.deep_view(),
                config_after(config_defaults(), all) == config_after(cfg@, all.skip(at as int)),
            decreases args@.len() - at,
        {
            let ghost rest = all.skip(at as int);
            let arg = args[at].clone();
            at = at + 1;
            assert(rest[0] == arg@);
            assert(rest.skip(1) =~= all.skip(at as int));
            if Config::takes_value(arg.as_str()) {
                match next_arg(&args, &mut at, arg.as_str()) {
                    Err(e) => {
                        return Err(e);
                    },
                    Ok(value) => {
                        assert(rest[1] == value@);
                        assert(rest.skip(2) =~= all.skip(at as int));
                        match cfg.with(arg.as_str(), value.as_str()) {
                            Err(e) => {
                                return Err(e);
                            },
                            Ok(next) => {
                                cfg = next;
                            },
                        }
                    },
                }
            } else if is_either(arg.as_str(), "-netem", "--netem") {
                cfg.netem = true;
            } else if is_either(arg.as_str(), "-h", "--help") {
                return Err(UsageError::HelpRequested(Subcommand::Matrix));
            } else {
                return Err(UsageError::UnknownArgument(Subcommand::Matrix, arg));
            }
        }
        assert(all.skip(at as int) =~= seq![]);
        let mut i: usize = 0;
        let ghost failures = cfg@.failures;
        assert(failures.skip(0) =~= failures);
        while i < cfg.failures.len()
            invariant
                i <= cfg.failures@.len(),
                all == args.deep_view(),
                failures == cfg@.failures,
                config_after(config_defaults(), all) == Ok::<ConfigModel, UsageError<Seq<char>>>(
                    cfg@,
                ),
                first_needing_netem(failures) == first_needing_netem(failures.skip(i as int))
                    || cfg.netem,
            decreases cfg.failures@.len() - i,
        {
            assert(failures[i as int] == cfg.failures@[i as int]@);
            assert(failures.skip(i as int).drop_first() =~= failures.skip(i + 1));
            if cfg.failures[i].netem_args.len() > 0 && !cfg.netem {
                return Err(UsageError::FailureNeedsNetem(cfg.failures[i].name.clone()));
            }
            i = i + 1;
        }
        proof {
            law_config_valid(all);
        }
        Ok(cfg)
    }
}

// ---------------------------------------------------------------------------
// What the flags do
// ---------------------------------------------------------------------------

/// Each flag of the scenario matrix, however it is spelled, sets what it names to what its value
/// says, refuses a value that says nothing of the kind, and leaves all else as it was.
pub proof fn law_config_flags(cfg: ConfigModel, flag: Seq<char>, value: Seq<char>)
    ensures
        ({
            let r = config_after(cfg, seq![flag, value]);
            &&& flag == "-payloads"@ || flag == "--payloads"@ ==> r == Ok::<
                ConfigModel,
                UsageError<Seq<char>>,
            >(
                ConfigModel { payloads: value, ..cfg },
            )
            &&& flag == "-protocols"@ || flag == "--protocols"@ ==> match protocol_list(value) {
                Ok(v) => r == Ok::<ConfigModel, UsageError<Seq<char>>>(
                    ConfigModel { protocols: v, ..cfg },
                ),
                Err(e) => r == Err::<ConfigModel, UsageError<Seq<char>>>(e),
            }
            &&& flag == "-users"@ || flag == "--users"@ ==> match positive_numbers(
                value,
                "users"@,
            ) {
                Ok(v) => r == Ok::<ConfigModel, UsageError<Seq<char>>>(
                    ConfigModel { users: v, ..cfg },
                ),
                Err(e) => r == Err::<ConfigModel, UsageError<Seq<char>>>(e),
            }
            &&& flag == "-messages"@ || flag == "--messages"@ ==> match positive_numbers(
                value,
                "messages"@,
            ) {
                Ok(v) => r == Ok::<ConfigModel, UsageError<Seq<char>>>(
                    ConfigModel { messages: v, ..cfg },
                ),
                Err(e) => r == Err::<ConfigModel, UsageError<Seq<char>>>(e),
            }
            &&& flag == "-failures"@ || flag == "--failures"@ ==> match failure_list(value) {
                Ok(v) => r == Ok::<ConfigModel, UsageError<Seq<char>>>(
                    ConfigModel { failures: v, ..cfg },
                ),
                Err(e) => r == Err::<ConfigModel, UsageError<Seq<char>>>(e),
            }
            &&& flag == "-repeat"@ || flag == "--repeat"@ || flag == "-repeats"@
                || flag == "--repeats"@ ==> match positive_number(value, "repeats"@) {
                Ok(v) => r == Ok::<ConfigModel, UsageError<Seq<char>>>(
                    ConfigModel { repeats: v, ..cfg },
                ),
                Err(e) => r == Err::<ConfigModel, UsageError<Seq<char>>>(e),
            }
            &&& flag == "-output"@ || flag == "--output"@ ==> r == Ok::<
                ConfigModel,
                UsageError<Seq<char>>,
            >(
                ConfigModel { output: Some(value), ..cfg },
            )
        }),
{
    lemma_config_spellings();
    let args = seq![flag, value];
    assert(args.skip(2) =~= Seq::<Seq<char>>::empty());
    reveal_with_fuel(config_after, 2);
}

/// The last argument needs a value where it is a flag that takes one; a call for help is
/// answered by the help; and any other word is refused, but for the switch, which stands
/// alone. Without arguments nothing is changed.
pub proof fn law_config_words(cfg: ConfigModel, flag: Seq<char>, rest: Seq<Seq<char>>)
    ensures
        ({
            let alone = config_after(cfg, seq![flag]);
            let r = config_after(cfg, seq![flag] + rest);
            let takes_value = flag == "-payloads"@ || flag == "--payloads"@ || flag == "-protocols"@
                || flag == "--protocols"@ || flag == "-users"@ || flag == "--users"@
                || flag == "-messages"@ || flag == "--messages"@ || flag == "-failures"@
                || flag == "--failures"@ || flag == "-repeat"@ || flag == "--repeat"@
                || flag == "-repeats"@ || flag == "--repeats"@ || flag == "-output"@
                || flag == "--output"@;
            &&& takes_value ==> alone == Err::<ConfigModel, UsageError<Seq<char>>>(
                UsageError::MissingValue(flag),
            )
            &&& flag == "-h"@ || flag == "--help"@ ==> r == Err::<
                ConfigModel,
                UsageError<Seq<char>>,
            >(
                UsageError::HelpRequested(Subcommand::Matrix),
            )
            &&& flag == "-netem"@ || flag == "--netem"@ ==> r == config_after(
                ConfigModel { netem: true, ..cfg },
                rest,
            )
            &&& !takes_value && flag != "-h"@ && flag != "--help"@ && flag != "-netem"@ && flag
                != "--netem"@ ==> r == Err::<ConfigModel, UsageError<Seq<char>>>(
                UsageError::UnknownArgument(Subcommand::Matrix, flag),
            )
        }),
        config_after(cfg, Seq::empty()) == Ok::<ConfigModel, UsageError<Seq<char>>>(cfg),
{
    lemma_config_spellings();
    assert((seq![flag] + rest)[0] == flag);
    assert((seq![flag] + rest).skip(1) =~= rest);
    reveal_with_fuel(config_after, 2);
}

proof fn lemma_config_spellings()
    ensures
        "-payloads"@.len() == 9,
        "--payloads"@.len() == 10,
        "-protocols"@.len() == 10,
        "--protocols"@.len() == 11,
        "-users"@.len() == 6,
        "--users"@.len() == 7,
        "-messages"@.len() == 9,
        "--messages"@.len() == 10,
        "-failures"@.len() == 9,
        "--failures"@.len() == 10,
        "-repeat"@.len() == 7,
        "--repeat"@.len() == 8,
        "-repeats"@.len() == 8,
        "--repeats"@.len() == 9,
        "-output"@.len() == 7,
        "--output"@.len() == 8,
        "-netem"@.len() == 6,
        "--netem"@.len() == 7,
        "-h"@.len() == 2,
        "--help"@.len() == 6,
        "-payloads"@[1] == 'p',
        "-messages"@[1] == 'm',
        "-failures"@[1] == 'f',
        "--repeats"@[1] == '-',
        "--payloads"@[1] == '-',
        "-protocols"@[1] == 'p',
        "--payloads"@[2] == 'p',
        "--messages"@[2] == 'm',
        "--failures"@[2] == 'f',
        "--messages"@[1] == '-',
        "--failures"@[1] == '-',
        "-users"@[1] == 'u',
        "-netem"@[1] == 'n',
        "--help"@[1] == '-',
        "--users"@[1] == '-',
        "-repeat"@[1] == 'r',
        "-output"@[1] == 'o',
        "--users"@[2] == 'u',
        "--netem"@[2] == 'n',
        "--netem"@[1] == '-',
        "--repeat"@[1] == '-',
        "-repeats"@[1] == 'r',
        "--repeat"@[2] == 'r',
        "--output"@[2] == 'o',
        "--output"@[1] == '-',
{
    reveal_strlit("-payloads");
    reveal_strlit("--payloads");
    reveal_strlit("-protocols");
    reveal_strlit("--protocols");
    reveal_strlit("-users");
    reveal_strlit("--users");
    reveal_strlit("-messages");
    reveal_strlit("--messages");
    reveal_strlit("-failures");
    reveal_strlit("--failures");
    reveal_strlit("-repeat");
    reveal_strlit("--repeat");
    reveal_strlit("-repeats");
    reveal_strlit("--repeats");
    reveal_strlit("-output");
    reveal_strlit("--output");
    reveal_strlit("-netem");
    reveal_strlit("--netem");
    reveal_strlit("-h");
    reveal_strlit("--help");
}

/// What nothing is said of is as it usually is.
pub proof fn law_config_defaults(args: Seq<Seq<char>>)
    ensures
        ({
            let d = ConfigModel {
                payloads: "../../SBI_PAYLOADS.json"@,
                protocols: seq![Protocol::H2, Protocol::H3],
                users: seq![1, 8, 32, 128],
                messages: seq![100, 1000],
                failures: seq![FailureProfile::none_model()],
                repeats: 1,
                netem: false,
                output: None,
            };
            &&& config_defaults() == d
            &&& config_after(d, args) is Err ==> config_of(args) == config_after(d, args)
        }),
{
}

/// What stands later on a command line is read as if it stood alone, on top of what stands
/// before it.
pub proof fn law_config_follow(cfg: ConfigModel, a: Seq<Seq<char>>, b: Seq<Seq<char>>)
    requires
        config_after(cfg, a) is Ok,
    ensures
        config_after(cfg, a + b) == config_after(config_after(cfg, a)->Ok_0, b),
    decreases a.len(),
{
    if a.len() == 0 {
        assert(a + b =~= b);
    } else {
        assert((a + b)[0] == a[0]);
        if config_takes_value(a[0]) {
            assert((a + b)[1] == a[1]);
            assert((a + b).skip(2) =~= a.skip(2) + b);
            law_config_follow(config_with(cfg, a[0], a[1])->Ok_0, a.skip(2), b);
        } else {
            assert((a + b).skip(1) =~= a.skip(1) + b);
            law_config_follow(ConfigModel { netem: true, ..cfg }, a.skip(1), b);
        }
    }
}

/// Without leave to change the network, the first failure that needs it is refused, and with
/// leave none is.
pub proof fn law_config_needs_netem(args: Seq<Seq<char>>, k: int)
    requires
        config_after(config_defaults(), args) is Ok,
    ensures
        ({
            let cfg = config_after(config_defaults(), args)->Ok_0;
            let needs = |i: int| cfg.failures[i].netem_args.len() > 0;
            &&& cfg.netem || (forall|i: int| 0 <= i < cfg.failures.len() ==> !#[trigger] needs(i))
                ==> config_of(args) == Ok::<ConfigModel, UsageError<Seq<char>>>(cfg)
            &&& !cfg.netem && 0 <= k < cfg.failures.len() && needs(k) && (forall|i: int|
                0 <= i < k ==> !#[trigger] needs(i)) ==> config_of(args) == Err::<
                ConfigModel,
                UsageError<Seq<char>>,
            >(UsageError::FailureNeedsNetem(cfg.failures[k].name))
        }),
{
    let cfg = config_after(config_defaults(), args)->Ok_0;
    let needs = |i: int| cfg.failures[i].netem_args.len() > 0;
    if forall|i: int| 0 <= i < cfg.failures.len() ==> !#[trigger] needs(i) {
        assert forall|i: int| 0 <= i < cfg.failures.len() implies (
        #[trigger] cfg.failures[i]).netem_args.len() == 0 by {
            assert(!needs(i));
        }
        lemma_none_needing(cfg.failures);
    }
    if 0 <= k < cfg.failures.len() && needs(k) && (forall|i: int| 0 <= i < k ==> !#[trigger] needs(
        i,
    )) {
        assert forall|i: int| 0 <= i < k implies (#[trigger] cfg.failures[i]).netem_args.len()
            == 0 by {
            assert(!needs(i));
        }
        lemma_first_needing(cfg.failures, k);
    }
}

proof fn lemma_none_needing(failures: Seq<FailureModel>)
    requires
        forall|i: int| 0 <= i < failures.len() ==> (#[trigger] failures[i]).netem_args.len() == 0,
    ensures
        first_needing_netem(failures) is None,
    decreases failures.len(),
{
    if failures.len() > 0 {
        let rest = failures.drop_first();
        assert forall|i: int| 0 <= i < rest.len() implies (#[trigger] rest[i]).netem_args.len()
            == 0 by {
            assert(rest[i] == failures[i + 1]);
        }
        assert(failures[0].netem_args.len() == 0);
        lemma_none_needing(rest);
    }
}

proof fn lemma_first_needing(failures: Seq<FailureModel>, k: int)
    requires
        0 <= k < failures.len(),
        failures[k].netem_args.len() > 0,
        forall|i: int| 0 <= i < k ==> (#[trigger] failures[i]).netem_args.len() == 0,
    ensures
        first_needing_netem(failures) == Some(failures[k]),
    decreases failures.len(),
{
    if k > 0 {
        let rest = failures.drop_first();
        assert forall|i: int| 0 <= i < k - 1 implies (#[trigger] rest[i]).netem_args.len() == 0 by {
            assert(rest[i] == failures[i + 1]);
        }
        assert(failures[0].netem_args.len() == 0);
        lemma_first_needing(rest, k - 1);
    }
}

} // verus!
