//! The flags of the fixed-rate client.
use crate::args::{
    asks_help, is_either, is_repeats, law_positive_numbers, next_arg, parse_positive_usize,
    parse_positive_usizes, positive_list, positive_number, positive_numbers, sets_repeats,
};
use crate::error::{outcome, CliError, Subcommand, UsageError};
use crate::protocol::{law_protocol_list, parse_protocols, protocol_list, Protocol};
use crate::target::{target_of, TargetEndpoint, TargetModel};
use vstd::prelude::*;
use vstd::string::*;

verus! {

/// What the fixed-rate client runs against a server outside of this process.
#[derive(Debug, Clone)]
pub struct NginxPpsConfig {
    /// The transports, in the order in which they take turns.
    pub protocols: Vec<Protocol>,
    /// The sizes of the request bodies, in bytes.
    pub payload_sizes: Vec<usize>,
    /// The rates, in requests per second.
    pub target_pps: Vec<usize>,
    /// How long requests are sent, in seconds.
    pub duration: u64,
    /// How many requests may be unanswered at once.
    pub max_inflight: usize,
    /// How often each trial is run.
    pub repeats: usize,
    /// The endpoint that requests are sent to.
    pub target: TargetEndpoint,
    /// The container in which the server runs.
    pub nginx_container: String,
    /// The file of the report.
    pub output: String,
}

/// The values of a `NginxPpsConfig`.
#[verifier::ext_equal]
pub struct NginxPpsModel {
    pub protocols: Seq<Protocol>,
    pub payload_sizes: Seq<usize>,
    pub target_pps: Seq<usize>,
    pub duration: u64,
    pub max_inflight: usize,
    pub repeats: usize,
    pub target: TargetModel,
    pub nginx_container: Seq<char>,
    pub output: Seq<char>,
}

impl View for NginxPpsConfig {
    type V = NginxPpsModel;

    open spec fn view(&self) -> NginxPpsModel {
        NginxPpsModel {
            protocols: self.protocols@,
            payload_sizes: self.payload_sizes@,
            target_pps: self.target_pps@,
            duration: self.duration,
            max_inflight: self.max_inflight,
            repeats: self.repeats,
            target: self.target@,
            nginx_container: self.nginx_container@,
            output: self.output@,
        }
    }
}

/// The endpoint that is used where no flag names one.
pub open spec fn default_target() -> TargetModel {
    TargetModel {
        uri: "https://localhost:8443/api"@,
        host: "localhost"@,
        authority: "localhost:8443"@,
        path: "/api"@,
        port: 8443,
    }
}

fn default_endpoint() -> (r: TargetEndpoint)
    ensures
        r@ == default_target(),
{
    TargetEndpoint {
        uri: "https://localhost:8443/api".to_owned(),
        host: "localhost".to_owned(),
        authority: "localhost:8443".to_owned(),
        path: "/api".to_owned(),
        port: 8443,
    }
}

/// What is run where no flag says otherwise.
pub open spec fn nginx_defaults() -> NginxPpsModel {
    NginxPpsModel {
        protocols: seq![Protocol::H2, Protocol::H3],
        payload_sizes: seq![1024],
        target_pps: seq![1000, 3000, 6000, 10000],
        duration: 10,
        max_inflight: 100,
        repeats: 1,
        target: default_target(),
        nginx_container: "quic-nginx"@,
        output: "reports/nginx_rust_client_results/results.csv"@,
    }
}

/// Whether `flag` is followed by a value.
pub open spec fn nginx_takes_value(flag: Seq<char>) -> bool {
    ||| flag == "-protocols"@ || flag == "--protocols"@
    ||| flag == "-payload-sizes"@ || flag == "--payload-sizes"@
    ||| flag == "-pps"@ || flag == "--pps"@ || flag == "-target-pps"@ || flag == "--target-pps"@
    ||| flag == "-duration"@ || flag == "--duration"@
    ||| flag == "-max-inflight"@ || flag == "--max-inflight"@
        || flag == "-concurrency"@ || flag == "--concurrency"@
    ||| sets_repeats(flag)
    ||| flag == "-target"@ || flag == "--target"@
    ||| flag == "-nginx-container"@ || flag == "--nginx-container"@
    ||| flag == "-output"@ || flag == "--output"@
}

/// The configuration with `flag` set to `value`.
pub open spec fn nginx_with(
    cfg: NginxPpsModel,
    flag: Seq<char>,
    value: Seq<char>,
) -> Result<NginxPpsModel, UsageError<Seq<char>>> {
    if flag == "-protocols"@ || flag == "--protocols"@ {
        match protocol_list(value) {
            Ok(v) => Ok(NginxPpsModel { protocols: v, ..cfg }),
            Err(e) => Err(e),
        }
    } else if flag == "-payload-sizes"@ || flag == "--payload-sizes"@ {
        match positive_numbers(value, "payload-sizes"@) {
            Ok(v) => Ok(NginxPpsModel { payload_sizes: v, ..cfg }),
            Err(e) => Err(e),
        }
    } else if flag == "-pps"@ || flag == "--pps"@ || flag == "-target-pps"@
        || flag == "--target-pps"@ {
        match positive_numbers(value, "target-pps"@) {
            Ok(v) => Ok(NginxPpsModel { target_pps: v, ..cfg }),
            Err(e) => Err(e),
        }
    } else if flag == "-duration"@ || flag == "--duration"@ {
        match positive_number(value, "duration"@) {
            Ok(v) => Ok(NginxPpsModel { duration: v as u64, ..cfg }),
            Err(e) => Err(e),
        }
    } else if flag == "-max-inflight"@ || flag == "--max-inflight"@
        || flag == "-concurrency"@ || flag == "--concurrency"@ {
        match positive_number(value, "max-inflight"@) {
            Ok(v) => Ok(NginxPpsModel { max_inflight: v, ..cfg }),
            Err(e) => Err(e),
        }
    } else if sets_repeats(flag) {
        match positive_number(value, "repeats"@) {
            Ok(v) => Ok(NginxPpsModel { repeats: v, ..cfg }),
            Err(e) => Err(e),
        }
    } else if flag == "-target"@ || flag == "--target"@ {
        match target_of(value) {
            Ok(v) => Ok(NginxPpsModel { target: v, ..cfg }),
            Err(e) => Err(e),
        }
    } else if flag == "-nginx-container"@ || flag == "--nginx-container"@ {
        Ok(NginxPpsModel { nginx_container: value, ..cfg })
    } else {
        Ok(NginxPpsModel { output: value, ..cfg })
    }
}

/// The configuration that `args` turn `cfg` into, flag by flag.
pub open spec fn nginx_after(
    cfg: NginxPpsModel,
    args: Seq<Seq<char>>,
) -> Result<NginxPpsModel, UsageError<Seq<char>>>
    decreases args.len(),
{
    if args.len() == 0 {
        Ok(cfg)
    } else if nginx_takes_value(args[0]) {
        if args.len() == 1 {
            Err(UsageError::MissingValue(args[0]))
        } else {
            match nginx_with(cfg, args[0], args[1]) {
                Ok(next) => nginx_after(next, args.skip(2)),
                Err(e) => Err(e),
            }
        }
    } else if asks_help(args[0]) {
        Err(UsageError::HelpRequested(Subcommand::RustPpsNginx))
    } else {
        Err(UsageError::UnknownArgument(Subcommand::RustPpsNginx, args[0]))
    }
}

/// The configuration that a command line denotes.
pub open spec fn nginx_of(args: Seq<Seq<char>>) -> Result<NginxPpsModel, UsageError<Seq<char>>> {
    nginx_after(nginx_defaults(), args)
}

/// The endpoints that `args` name until they end or cannot be read.
pub open spec fn nginx_named(cfg: NginxPpsModel, args: Seq<Seq<char>>) -> Seq<TargetModel>
    decreases args.len(),
{
    if args.len() < 2 || !nginx_takes_value(args[0]) {
        seq![]
    } else {
        match nginx_with(cfg, args[0], args[1]) {
            Err(_) => seq![],
            Ok(next) => if args[0] == "-target"@ || args[0] == "--target"@ {
                seq![next.target] + nginx_named(next, args.skip(2))
            } else {
                nginx_named(next, args.skip(2))
            },
        }
    }
}

/// The endpoints whose hosts are looked up: the default one, then those that the
/// arguments name.
pub open spec fn nginx_targets(args: Seq<Seq<char>>) -> Seq<TargetModel> {
    seq![default_target()] + nginx_named(nginx_defaults(), args)
}

/// An accepted configuration sends to the endpoint that was looked up last.
pub proof fn law_nginx_target(args: Seq<Seq<char>>)
    requires
        nginx_of(args) is Ok,
    ensures
        nginx_of(args)->Ok_0.target == nginx_targets(args).last(),
{
    lemma_nginx_target(nginx_defaults(), args);
    let named = nginx_named(nginx_defaults(), args);
    if named.len() > 0 {
        assert(nginx_targets(args).last() == named.last());
    }
}

proof fn lemma_nginx_target(cfg: NginxPpsModel, args: Seq<Seq<char>>)
    requires
        nginx_after(cfg, args) is Ok,
    ensures
        ({
            let named = nginx_named(cfg, args);
            nginx_after(cfg, args)->Ok_0.target == if named.len() > 0 {
                named.last()
            } else {
                cfg.target
            }
        }),
    decreases args.len(),
{
    if args.len() > 0 {
        let next = nginx_with(cfg, args[0], args[1])->Ok_0;
        lemma_nginx_target(next, args.skip(2));
    }
}

/// What holds of every configuration that is run: every list has
/// an entry, no protocol is listed twice, and every number is positive.
pub open spec fn nginx_valid(cfg: NginxPpsModel) -> bool {
    &&& cfg.protocols.len() > 0
    &&& cfg.protocols.no_duplicates()
    &&& positive_list(cfg.payload_sizes)
    &&& positive_list(cfg.target_pps)
    &&& cfg.duration > 0
    &&& cfg.max_inflight > 0
    &&& cfg.repeats > 0
}

proof fn lemma_nginx_with(cfg: NginxPpsModel, flag: Seq<char>, value: Seq<char>)
    requires
        nginx_valid(cfg),
        nginx_with(cfg, flag, value) is Ok,
    ensures
        nginx_valid(nginx_with(cfg, flag, value)->Ok_0),
{
    if flag == "-protocols"@ || flag == "--protocols"@ {
        law_protocol_list(value);
    } else if flag == "-payload-sizes"@ || flag == "--payload-sizes"@ {
        law_positive_numbers(value, "payload-sizes"@);
    } else if flag == "-pps"@ || flag == "--pps"@ || flag == "-target-pps"@
        || flag == "--target-pps"@ {
        law_positive_numbers(value, "target-pps"@);
    }
}

proof fn lemma_nginx_after(cfg: NginxPpsModel, args: Seq<Seq<char>>)
    requires
        nginx_valid(cfg),
        nginx_after(cfg, args) is Ok,
    ensures
        nginx_valid(nginx_after(cfg, args)->Ok_0),
    decreases args.len(),
{
    if args.len() == 0 {
    } else if nginx_takes_value(args[0]) {
        lemma_nginx_with(cfg, args[0], args[1]);
        lemma_nginx_after(nginx_with(cfg, args[0], args[1])->Ok_0, args.skip(2));
    }
}

/// Every accepted command line denotes a valid configuration.
pub proof fn law_nginx_valid(args: Seq<Seq<char>>)
    requires
        nginx_of(args) is Ok,
    ensures
        nginx_valid(nginx_of(args)->Ok_0),
{
    lemma_nginx_after(nginx_defaults(), args);
}

impl NginxPpsConfig {
    fn defaults() -> (r: NginxPpsConfig)
        ensures
            r@ == nginx_defaults(),
    {
        let target = default_endpoint();
        let r = NginxPpsConfig {
            protocols: vec![Protocol::H2, Protocol::H3],
            payload_sizes: vec![1024],
            target_pps: vec![1000, 3000, 6000, 10000],
            duration: 10,
            max_inflight: 100,
            repeats: 1,
            target,
            nginx_container: "quic-nginx".to_owned(),
            output: "reports/nginx_rust_client_results/results.csv".to_owned(),
        };
        assert(r@.protocols =~= nginx_defaults().protocols);
        assert(r@.payload_sizes =~= nginx_defaults().payload_sizes);
        assert(r@.target_pps =~= nginx_defaults().target_pps);
        r
    }

    fn takes_value(flag: &str) -> (r: bool)
        ensures
            r == nginx_takes_value(flag@),
    {
        is_either(flag, "-protocols", "--protocols")
            || is_either(flag, "-payload-sizes", "--payload-sizes")
            || is_either(flag, "-pps", "--pps")
            || is_either(flag, "-target-pps", "--target-pps")
            || is_either(flag, "-duration", "--duration")
            || is_either(flag, "-max-inflight", "--max-inflight")
            || is_either(flag, "-concurrency", "--concurrency")
            || is_repeats(flag)
            || is_either(flag, "-target", "--target")
            || is_either(flag, "-nginx-container", "--nginx-container")
            || is_either(flag, "-output", "--output")
    }

    /// Sets what `flag` names.
    fn with(self, flag: &str, value: &str) -> (r: Result<NginxPpsConfig, CliError>)
        requires
            nginx_takes_value(flag@),
        ensures
            outcome(r) == nginx_with(self@, flag@, value@),
    {
        let mut cfg = self;
        if is_either(flag, "-protocols", "--protocols") {
            match parse_protocols(value) {
                Ok(v) => {
                    cfg.protocols = v;
                },
                Err(e) => {
                    return Err(e);
                },
            }
        } else if is_either(flag, "-payload-sizes", "--payload-sizes") {
            match parse_positive_usizes(value, "payload-sizes") {
                Ok(v) => {
                    cfg.payload_sizes = v;
                },
                Err(e) => {
                    return Err(e);
                },
            }
        } else if is_either(flag, "-pps", "--pps")
            || is_either(flag, "-target-pps", "--target-pps") {
            match parse_positive_usizes(value, "target-pps") {
                Ok(v) => {
                    cfg.target_pps = v;
                },
                Err(e) => {
                    return Err(e);
                },
            }
        } else if is_either(flag, "-duration", "--duration") {
            match parse_positive_usize(value, "duration") {
                Ok(v) => {
                    cfg.duration = v as u64;
                },
                Err(e) => {
                    return Err(e);
                },
            }
        } else if is_either(flag, "-max-inflight", "--max-inflight")
            || is_either(flag, "-concurrency", "--concurrency") {
            match parse_positive_usize(value, "max-inflight") {
                Ok(v) => {
                    cfg.max_inflight = v;
                },
                Err(e) => {
                    return Err(e);
                },
            }
        } else if is_repeats(flag) {
            match parse_positive_usize(value, "repeats") {
                Ok(v) => {
                    cfg.repeats = v;
                },
                Err(e) => {
                    return Err(e);
                },
            }
        } else if is_either(flag, "-target", "--target") {
            match TargetEndpoint::parse(value) {
                Ok(v) => {
                    cfg.target = v;
                },
                Err(e) => {
                    return Err(e);
                },
            }
        } else if is_either(flag, "-nginx-container", "--nginx-container") {
            cfg.nginx_container = value.to_owned();
        } else {
            cfg.output = value.to_owned();
        }
        Ok(cfg)
    }

    /// Reads the arguments behind the name of the subcommand. The first part
    /// holds the endpoints whose hosts have to be looked up, in this order, before
    /// the second part counts: a host that has no address comes before what is
    /// wrong with an argument behind it.
    pub fn from_args(args: Vec<String>) -> (r: (
        Vec<TargetEndpoint>,
        Result<NginxPpsConfig, CliError>,
    ))
        ensures
            r.0@.len() == nginx_targets(args.deep_view()).len(),
            forall|i: int|
                0 <= i < r.0@.len() ==> (#[trigger] r.0@[i])@ == nginx_targets(args.deep_view())[i],
            outcome(r.1) == nginx_of(args.deep_view()),
            r.1 matches Ok(cfg) ==> nginx_valid(cfg@),
    {
        let mut targets: Vec<TargetEndpoint> = Vec::new();
        let ghost mut named: Seq<TargetModel> = seq![default_target()];
        let mut cfg = NginxPpsConfig::defaults();
        targets.push(default_endpoint());
        let ghost all = args.deep_view();
        let mut at: usize = 0;
        assert(all.skip(0) =~= all);
        while at < args.len()
            invariant
                at <= args@.len(),
                all == args.deep_view(),
                nginx_after(nginx_defaults(), all) == nginx_after(cfg@, all.skip(at as int)),
                nginx_targets(all) == named + nginx_named(cfg@, all.skip(at as int)),
                named.len() == targets@.len(),
                forall|i: int| 0 <= i < named.len() ==> (#[trigger] targets@[i])@ == named[i],
            decreases args@.len() - at,
        {
            let ghost rest = all.skip(at as int);
            let ghost before = cfg@;
            let arg = args[at].clone();
            at = at + 1;
            assert(rest[0] == arg@);
            if NginxPpsConfig::takes_value(arg.as_str()) {
                match next_arg(&args, &mut at, arg.as_str()) {
                    Err(e) => {
                        return (targets, Err(e));
                    },
                    Ok(value) => {
                        assert(rest[1] == value@);
                        assert(rest.skip(2) =~= all.skip(at as int));
                        match cfg.with(arg.as_str(), value.as_str()) {
                            Err(e) => {
                                return (targets, Err(e));
                            },
                            Ok(next) => {
                                cfg = next;
                            },
                        }
                        if is_either(arg.as_str(), "-target", "--target") {
                            targets.push(cfg.target.copy());
                            proof {
                                assert(nginx_named(before, rest) =~= seq![cfg@.target]
                                    + nginx_named(cfg@, rest.skip(2)));
                                assert(named + nginx_named(before, rest) =~= named.push(
                                    cfg@.target,
                                ) + nginx_named(cfg@, rest.skip(2)));
                                named = named.push(cfg@.target);
                            }
                        }
                    },
                }
            } else if is_either(arg.as_str(), "-h", "--help") {
                return (targets, Err(UsageError::HelpRequested(Subcommand::RustPpsNginx)));
            } else {
                return (targets, Err(UsageError::UnknownArgument(Subcommand::RustPpsNginx, arg)));
            }
        }
        assert(all.skip(at as int) =~= seq![]);
        proof {
            law_nginx_valid(all);
        }
        (targets, Ok(cfg))
    }
}

// ---------------------------------------------------------------------------
// What the flags do
// ---------------------------------------------------------------------------

/// Each flag of the fixed-rate client, however it is spelled, sets what it names to what its value
/// says, refuses a value that says nothing of the kind, and leaves all else as it was.
pub proof fn law_nginx_flags(cfg: NginxPpsModel, flag: Seq<char>, value: Seq<char>)
    ensures
        ({
            let r = nginx_after(cfg, seq![flag, value]);
            &&& flag == "-protocols"@ || flag == "--protocols"@ ==> match protocol_list(value) {
                Ok(v) => r == Ok::<NginxPpsModel, UsageError<Seq<char>>>(
                    NginxPpsModel { protocols: v, ..cfg },
                ),
                Err(e) => r == Err::<NginxPpsModel, UsageError<Seq<char>>>(e),
            }
            &&& flag == "-payload-sizes"@ || flag == "--payload-sizes"@ ==> match positive_numbers(
                value,
                "payload-sizes"@,
            ) {
                Ok(v) => r == Ok::<NginxPpsModel, UsageError<Seq<char>>>(
                    NginxPpsModel { payload_sizes: v, ..cfg },
                ),
                Err(e) => r == Err::<NginxPpsModel, UsageError<Seq<char>>>(e),
            }
            &&& flag == "-pps"@ || flag == "--pps"@ || flag == "-target-pps"@
                || flag == "--target-pps"@ ==> match positive_numbers(value, "target-pps"@) {
                Ok(v) => r == Ok::<NginxPpsModel, UsageError<Seq<char>>>(
                    NginxPpsModel { target_pps: v, ..cfg },
                ),
                Err(e) => r == Err::<NginxPpsModel, UsageError<Seq<char>>>(e),
            }
            &&& flag == "-duration"@ || flag == "--duration"@ ==> match positive_number(
                value,
                "duration"@,
            ) {
                Ok(v) => r == Ok::<NginxPpsModel, UsageError<Seq<char>>>(
                    NginxPpsModel { duration: v as u64, ..cfg },
                ),
                Err(e) => r == Err::<NginxPpsModel, UsageError<Seq<char>>>(e),
            }
            &&& flag == "-max-inflight"@ || flag == "--max-inflight"@
                || flag == "-concurrency"@ || flag == "--concurrency"@ ==> match positive_number(
                value,
                "max-inflight"@,
            ) {
                Ok(v) => r == Ok::<NginxPpsModel, UsageError<Seq<char>>>(
                    NginxPpsModel { max_inflight: v, ..cfg },
                ),
                Err(e) => r == Err::<NginxPpsModel, UsageError<Seq<char>>>(e),
            }
            &&& flag == "-repeat"@ || flag == "--repeat"@ || flag == "-repeats"@
                || flag == "--repeats"@ ==> match positive_number(value, "repeats"@) {
                Ok(v) => r == Ok::<NginxPpsModel, UsageError<Seq<char>>>(
                    NginxPpsModel { repeats: v, ..cfg },
                ),
                Err(e) => r == Err::<NginxPpsModel, UsageError<Seq<char>>>(e),
            }
            &&& flag == "-target"@ || flag == "--target"@ ==> match target_of(value) {
                Ok(v) => r == Ok::<NginxPpsModel, UsageError<Seq<char>>>(
                    NginxPpsModel { target: v, ..cfg },
                ),
                Err(e) => r == Err::<NginxPpsModel, UsageError<Seq<char>>>(e),
            }
            &&& flag == "-nginx-container"@ || flag == "--nginx-container"@ ==> r == Ok::<
                NginxPpsModel,
                UsageError<Seq<char>>,
            >(
                NginxPpsModel { nginx_container: value, ..cfg },
            )
            &&& flag == "-output"@ || flag == "--output"@ ==> r == Ok::<
                NginxPpsModel,
                UsageError<Seq<char>>,
            >(
                NginxPpsModel { output: value, ..cfg },
            )
        }),
{
    lemma_nginx_spellings();
    let args = seq![flag, value];
    assert(args.skip(2) =~= Seq::<Seq<char>>::empty());
    reveal_with_fuel(nginx_after, 2);
}

/// The last argument needs a value where it is a flag that takes one; a call for help is
/// answered by the help; and any other word is refused. Without arguments nothing is changed.
pub proof fn law_nginx_words(cfg: NginxPpsModel, flag: Seq<char>, rest: Seq<Seq<char>>)
    ensures
        ({
            let alone = nginx_after(cfg, seq![flag]);
            let r = nginx_after(cfg, seq![flag] + rest);
            let takes_value = flag == "-protocols"@ || flag == "--protocols"@
                || flag == "-payload-sizes"@
                || flag == "--payload-sizes"@ || flag == "-pps"@ || flag == "--pps"@
                || flag == "-target-pps"@ || flag == "--target-pps"@ || flag == "-duration"@
                || flag == "--duration"@ || flag == "-max-inflight"@
                || flag == "--max-inflight"@ || flag == "-concurrency"@
                || flag == "--concurrency"@ || flag == "-repeat"@ || flag == "--repeat"@
                || flag == "-repeats"@ || flag == "--repeats"@ || flag == "-target"@
                || flag == "--target"@ || flag == "-nginx-container"@
                || flag == "--nginx-container"@ || flag == "-output"@ || flag == "--output"@;
            &&& takes_value ==> alone == Err::<NginxPpsModel, UsageError<Seq<char>>>(
                UsageError::MissingValue(flag),
            )
            &&& flag == "-h"@ || flag == "--help"@ ==> r == Err::<
                NginxPpsModel,
                UsageError<Seq<char>>,
            >(
                UsageError::HelpRequested(Subcommand::RustPpsNginx),
            )
            &&& !takes_value && flag != "-h"@ && flag != "--help"@ ==> r
                == Err::<NginxPpsModel, UsageError<Seq<char>>>(
                UsageError::UnknownArgument(Subcommand::RustPpsNginx, flag),
            )
        }),
        nginx_after(cfg, Seq::empty()) == Ok::<NginxPpsModel, UsageError<Seq<char>>>(cfg),
{
    lemma_nginx_spellings();
    assert((seq![flag] + rest)[0] == flag);
    assert((seq![flag] + rest).skip(1) =~= rest);
    reveal_with_fuel(nginx_after, 2);
}

proof fn lemma_nginx_spellings()
    ensures
        "-protocols"@.len() == 10,
        "--protocols"@.len() == 11,
        "-payload-sizes"@.len() == 14,
        "--payload-sizes"@.len() == 15,
        "-pps"@.len() == 4,
        "--pps"@.len() == 5,
        "-target-pps"@.len() == 11,
        "--target-pps"@.len() == 12,
        "-duration"@.len() == 9,
        "--duration"@.len() == 10,
        "-max-inflight"@.len() == 13,
        "--max-inflight"@.len() == 14,
        "-concurrency"@.len() == 12,
        "--concurrency"@.len() == 13,
        "-repeat"@.len() == 7,
        "--repeat"@.len() == 8,
        "-repeats"@.len() == 8,
        "--repeats"@.len() == 9,
        "-target"@.len() == 7,
        "--target"@.len() == 8,
        "-nginx-container"@.len() == 16,
        "--nginx-container"@.len() == 17,
        "-output"@.len() == 7,
        "--output"@.len() == 8,
        "-h"@.len() == 2,
        "--help"@.len() == 6,
        "-protocols"@[1] == 'p',
        "--duration"@[1] == '-',
        "--protocols"@[1] == '-',
        "-target-pps"@[1] == 't',
        "-payload-sizes"@[1] == 'p',
        "--max-inflight"@[1] == '-',
        "--target-pps"@[1] == '-',
        "-concurrency"@[1] == 'c',
        "-duration"@[1] == 'd',
        "--repeats"@[1] == '-',
        "-max-inflight"@[1] == 'm',
        "--concurrency"@[1] == '-',
        "-repeat"@[1] == 'r',
        "-target"@[1] == 't',
        "-output"@[1] == 'o',
        "--repeat"@[1] == '-',
        "-repeats"@[1] == 'r',
        "--repeat"@[2] == 'r',
        "--target"@[2] == 't',
        "--output"@[2] == 'o',
        "--target"@[1] == '-',
        "--output"@[1] == '-',
{
    reveal_strlit("-protocols");
    reveal_strlit("--protocols");
    reveal_strlit("-payload-sizes");
    reveal_strlit("--payload-sizes");
    reveal_strlit("-pps");
    reveal_strlit("--pps");
    reveal_strlit("-target-pps");
    reveal_strlit("--target-pps");
    reveal_strlit("-duration");
    reveal_strlit("--duration");
    reveal_strlit("-max-inflight");
    reveal_strlit("--max-inflight");
    reveal_strlit("-concurrency");
    reveal_strlit("--concurrency");
    reveal_strlit("-repeat");
    reveal_strlit("--repeat");
    reveal_strlit("-repeats");
    reveal_strlit("--repeats");
    reveal_strlit("-target");
    reveal_strlit("--target");
    reveal_strlit("-nginx-container");
    reveal_strlit("--nginx-container");
    reveal_strlit("-output");
    reveal_strlit("--output");
    reveal_strlit("-h");
    reveal_strlit("--help");
}

/// What nothing is said of is as it usually is.
pub proof fn law_nginx_defaults(args: Seq<Seq<char>>)
    ensures
        ({
            let d = NginxPpsModel {
                protocols: seq![Protocol::H2, Protocol::H3],
                payload_sizes: seq![1024],
                target_pps: seq![1000, 3000, 6000, 10000],
                duration: 10,
                max_inflight: 100,
                repeats: 1,
                target: default_target(),
                nginx_container: "quic-nginx"@,
                output: "reports/nginx_rust_client_results/results.csv"@,
            };
            nginx_of(args) == nginx_after(d, args)
        }),
{
}

/// What stands later on a command line is read as if it stood alone, on top of what stands
/// before it.
pub proof fn law_nginx_follow(cfg: NginxPpsModel, a: Seq<Seq<char>>, b: Seq<Seq<char>>)
    requires
        nginx_after(cfg, a) is Ok,
    ensures
        nginx_after(cfg, a + b) == nginx_after(nginx_after(cfg, a)->Ok_0, b),
    decreases a.len(),
{
    if a.len() == 0 {
        assert(a + b =~= b);
    } else {
        assert((a + b)[0] == a[0]);
        if nginx_takes_value(a[0]) {
            assert((a + b)[1] == a[1]);
            assert((a + b).skip(2) =~= a.skip(2) + b);
            law_nginx_follow(nginx_with(cfg, a[0], a[1])->Ok_0, a.skip(2), b);
        }
    }
}

/// The targets that a command line names: one for each time that it names one, in their order,
/// behind the one that is usual. A target that cannot be read, as any flag that is refused,
/// ends them.
pub proof fn law_nginx_named_follow(cfg: NginxPpsModel, a: Seq<Seq<char>>, b: Seq<Seq<char>>)
    requires
        nginx_after(cfg, a) is Ok,
    ensures
        nginx_named(cfg, a + b) == nginx_named(cfg, a) + nginx_named(nginx_after(cfg, a)->Ok_0, b),
    decreases a.len(),
{
    if a.len() == 0 {
        assert(a + b =~= b);
        assert(nginx_named(cfg, a) + nginx_named(cfg, b) =~= nginx_named(cfg, b));
    } else {
        assert((a + b)[0] == a[0]);
        assert((a + b)[1] == a[1]);
        assert((a + b).skip(2) =~= a.skip(2) + b);
        let next = nginx_with(cfg, a[0], a[1])->Ok_0;
        law_nginx_named_follow(next, a.skip(2), b);
        assert(nginx_named(cfg, a + b) =~= nginx_named(cfg, a) + nginx_named(
            nginx_after(cfg, a)->Ok_0,
            b,
        ));
    }
}

/// A flag that names a target adds it, if it can be read, and no other flag adds one.
pub proof fn law_nginx_named(cfg: NginxPpsModel, flag: Seq<char>, value: Seq<char>)
    ensures
        ({
            let named = nginx_named(cfg, seq![flag, value]);
            let target = flag == "-target"@ || flag == "--target"@;
            &&& target && target_of(value) is Ok ==> named == seq![target_of(value)->Ok_0]
            &&& target && target_of(value) is Err ==> named.len() == 0
            &&& !target ==> named.len() == 0
        }),
        nginx_targets(Seq::empty()) == seq![default_target()],
        nginx_targets(seq![flag, value])[0] == default_target(),
        nginx_targets(seq![flag, value]).skip(1) == nginx_named(
            nginx_defaults(),
            seq![flag, value],
        ),
{
    lemma_nginx_spellings();
    let args = seq![flag, value];
    assert(args.skip(2) =~= Seq::<Seq<char>>::empty());
    reveal_with_fuel(nginx_named, 2);
    if flag == "-target"@ || flag == "--target"@ {
        if target_of(value) is Ok {
            assert(nginx_with(cfg, flag, value) is Ok);
            assert(nginx_named(cfg, args) =~= seq![target_of(value)->Ok_0]);
        }
    }
    assert(nginx_targets(Seq::empty()) =~= seq![default_target()]);
    assert(nginx_targets(args).skip(1) =~= nginx_named(nginx_defaults(), args));
}

} // verus!
