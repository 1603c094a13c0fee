//! What can be wrong with a command line, and how it is said.
use crate::text::{debug_text, quoted, same};
use vstd::prelude::*;
use vstd::string::*;

verus! {

/// The benchmarks that the first argument selects.
#[derive(Debug, Clone, Copy, PartialEq, Eq, Structural)]
pub enum Subcommand {
    /// The H2/H3 scenario matrix, which runs when no subcommand is named.
    Matrix,
    Overload,
    H2LoadRate,
    RustPps,
    RustPpsNginx,
}

/// The subcommand that an argument names.
pub open spec fn subcommand_named(arg: Seq<char>) -> Option<Subcommand> {
    if arg == "overload"@ {
        Some(Subcommand::Overload)
    } else if arg == "h2load-rate"@ {
        Some(Subcommand::H2LoadRate)
    } else if arg == "rust-pps"@ {
        Some(Subcommand::RustPps)
    } else if arg == "rust-pps-nginx"@ {
        Some(Subcommand::RustPpsNginx)
    } else {
        None
    }
}

/// The subcommand of a command line, and the arguments behind its name.
pub open spec fn command_line(args: Seq<Seq<char>>) -> (Subcommand, Seq<Seq<char>>) {
    if args.len() > 0 && subcommand_named(args[0]) is Some {
        (subcommand_named(args[0])->0, args.skip(1))
    } else {
        (Subcommand::Matrix, args)
    }
}

impl Subcommand {
    /// Takes the subcommand's name off the arguments, where there is one.
    pub fn select(args: Vec<String>) -> (r: (Subcommand, Vec<String>))
        ensures
            (r.0, r.1.deep_view()) == command_line(args.deep_view()),
    {
        let mut rest = args;
        let ghost all = rest.deep_view();
        if rest.len() == 0 {
            return (Subcommand::Matrix, rest);
        }
        assert(all[0] == rest@[0]@);
        let command = if same(rest[0].as_str(), "overload") {
            Subcommand::Overload
        } else if same(rest[0].as_str(), "h2load-rate") {
            Subcommand::H2LoadRate
        } else if same(rest[0].as_str(), "rust-pps") {
            Subcommand::RustPps
        } else if same(rest[0].as_str(), "rust-pps-nginx") {
            Subcommand::RustPpsNginx
        } else {
            return (Subcommand::Matrix, rest);
        };
        rest.remove(0);
        assert(rest.deep_view() =~= all.skip(1));
        (command, rest)
    }
}

/// What keeps a command line from being run. `T` is the type of the texts that
/// it quotes.
#[derive(Debug, Clone)]
pub enum UsageError<T> {
    /// Help was asked for.
    HelpRequested(Subcommand),
    UnknownArgument(Subcommand, T),
    MissingValue(T),
    UnknownProtocol(T),
    NoProtocol,
    /// The name of a value, and the text that is no number.
    NotAnInteger(T, T),
    /// One of the values of a list is zero.
    ZeroInList(T),
    /// A single value is zero.
    ZeroValue(T),
    NoValue(T),
    UnknownFailure(T),
    NoFailure,
    FailureNeedsNetem(T),
    NotANumber(T),
    PercentOutOfRange,
    UnknownMode(T),
    NoMode,
    TargetScheme,
    TargetPort(T),
    NoLogFile(T),
    NoH3(T),
    H3Clients,
    NoRps(T),
}

/// The errors of this library.
pub type CliError = UsageError<String>;

/// What a result says, over the values that its parts stand for.
pub open spec fn outcome<T: View>(r: Result<T, CliError>) -> Result<T::V, UsageError<Seq<char>>> {
    match r {
        Ok(v) => Ok(v@),
        Err(e) => Err(e@),
    }
}

impl View for UsageError<String> {
    type V = UsageError<Seq<char>>;

    open spec fn view(&self) -> UsageError<Seq<char>> {
        match self {
            UsageError::HelpRequested(c) => UsageError::HelpRequested(*c),
            UsageError::UnknownArgument(c, t) => UsageError::UnknownArgument(*c, t@),
            UsageError::MissingValue(t) => UsageError::MissingValue(t@),
            UsageError::UnknownProtocol(t) => UsageError::UnknownProtocol(t@),
            UsageError::NoProtocol => UsageError::NoProtocol,
            UsageError::NotAnInteger(n, t) => UsageError::NotAnInteger(n@, t@),
            UsageError::ZeroInList(n) => UsageError::ZeroInList(n@),
            UsageError::ZeroValue(n) => UsageError::ZeroValue(n@),
            UsageError::NoValue(n) => UsageError::NoValue(n@),
            UsageError::UnknownFailure(t) => UsageError::UnknownFailure(t@),
            UsageError::NoFailure => UsageError::NoFailure,
            UsageError::FailureNeedsNetem(t) => UsageError::FailureNeedsNetem(t@),
            UsageError::NotANumber(t) => UsageError::NotANumber(t@),
            UsageError::PercentOutOfRange => UsageError::PercentOutOfRange,
            UsageError::UnknownMode(t) => UsageError::UnknownMode(t@),
            UsageError::NoMode => UsageError::NoMode,
            UsageError::TargetScheme => UsageError::TargetScheme,
            UsageError::TargetPort(t) => UsageError::TargetPort(t@),
            UsageError::NoLogFile(t) => UsageError::NoLogFile(t@),
            UsageError::NoH3(t) => UsageError::NoH3(t@),
            UsageError::H3Clients => UsageError::H3Clients,
            UsageError::NoRps(t) => UsageError::NoRps(t@),
        }
    }
}

/// What is said about an argument that a subcommand does not know.
pub open spec fn unknown_argument_prefix(command: Subcommand) -> Seq<char> {
    match command {
        Subcommand::Matrix => "unknown argument "@,
        Subcommand::Overload => "unknown overload argument "@,
        Subcommand::H2LoadRate => "unknown h2load-rate argument "@,
        Subcommand::RustPps => "unknown rust-pps argument "@,
        Subcommand::RustPpsNginx => "unknown rust-pps-nginx argument "@,
    }
}

/// The sentence that an error is reported with.
pub open spec fn error_message(e: UsageError<Seq<char>>) -> Seq<char> {
    match e {
        UsageError::HelpRequested(c) => "help requested"@,
        UsageError::UnknownArgument(c, t) => unknown_argument_prefix(c) + t,
        UsageError::MissingValue(t) => t + " requires a value"@,
        UsageError::UnknownProtocol(t) => "unknown protocol "@ + debug_text(t),
        UsageError::NoProtocol => "at least one protocol is required"@,
        UsageError::NotAnInteger(n, t) => n + " contains non-integer value "@ + debug_text(t),
        UsageError::ZeroInList(n) => n + " values must be positive"@,
        UsageError::ZeroValue(n) => n + " value must be positive"@,
        UsageError::NoValue(n) => "at least one "@ + n + " value is required"@,
        UsageError::UnknownFailure(t) => "unknown failure profile "@ + debug_text(t),
        UsageError::NoFailure => "at least one failure profile is required"@,
        UsageError::FailureNeedsNetem(t) => "failure profile "@ + debug_text(t)
            + " requires -netem"@,
        UsageError::NotANumber(t) => "percent contains non-number value "@ + debug_text(t),
        UsageError::PercentOutOfRange => "percent must be between 0 and 100"@,
        UsageError::UnknownMode(t) => "unknown overload mode "@ + debug_text(t),
        UsageError::NoMode => "at least one overload mode is required"@,
        UsageError::TargetScheme => "target must start with https://"@,
        UsageError::TargetPort(t) => "invalid target port in "@ + debug_text(t),
        UsageError::NoLogFile(t) => t + " does not support --log-file"@,
        UsageError::NoH3(t) => t
            + " does not support --h3; provide a HTTP/3-enabled h2load with -h2load"@,
        UsageError::H3Clients => "Rust h3 h2load-rate currently supports -clients 1 because the simple quiche server accepts one client connection"@,
        UsageError::NoRps(t) => t + " lacks --rps; use -clients 1 or provide a newer h2load"@,
    }
}

fn before_quoted(before: &str, text: &str) -> (r: String)
    ensures
        r@ == before@ + debug_text(text@),
{
    let mut out = before.to_owned();
    out.append(quoted(text).as_str());
    out
}

fn two(a: &str, b: &str) -> (r: String)
    ensures
        r@ == a@ + b@,
{
    let mut out = a.to_owned();
    out.append(b);
    out
}

impl UsageError<String> {
    /// The sentence that the error is reported with.
    pub fn message(&self) -> (r: String)
        ensures
            r@ == error_message(self@),
    {
        match self {
            UsageError::HelpRequested(_) => "help requested".to_owned(),
            UsageError::UnknownArgument(command, arg) => match command {
                Subcommand::Matrix => two("unknown argument ", arg.as_str()),
                Subcommand::Overload => two("unknown overload argument ", arg.as_str()),
                Subcommand::H2LoadRate => two("unknown h2load-rate argument ", arg.as_str()),
                Subcommand::RustPps => two("unknown rust-pps argument ", arg.as_str()),
                Subcommand::RustPpsNginx => two("unknown rust-pps-nginx argument ", arg.as_str()),
            },
            UsageError::MissingValue(flag) => two(flag.as_str(), " requires a value"),
            UsageError::UnknownProtocol(part) => before_quoted("unknown protocol ", part.as_str()),
            UsageError::NoProtocol => "at least one protocol is required".to_owned(),
            UsageError::NotAnInteger(name, part) => before_quoted(
                two(name.as_str(), " contains non-integer value ").as_str(),
                part.as_str(),
            ),
            UsageError::ZeroInList(name) => two(name.as_str(), " values must be positive"),
            UsageError::ZeroValue(name) => two(name.as_str(), " value must be positive"),
            UsageError::NoValue(name) => two(
                two("at least one ", name.as_str()).as_str(),
                " value is required",
            ),
            UsageError::UnknownFailure(part) => before_quoted(
                "unknown failure profile ",
                part.as_str(),
            ),
            UsageError::NoFailure => "at least one failure profile is required".to_owned(),
            UsageError::FailureNeedsNetem(name) => two(
                before_quoted("failure profile ", name.as_str()).as_str(),
                " requires -netem",
            ),
            UsageError::NotANumber(text) => before_quoted(
                "percent contains non-number value ",
                text.as_str(),
            ),
            UsageError::PercentOutOfRange => "percent must be between 0 and 100".to_owned(),
            UsageError::UnknownMode(part) => before_quoted("unknown overload mode ", part.as_str()),
            UsageError::NoMode => "at least one overload mode is required".to_owned(),
            UsageError::TargetScheme => "target must start with https://".to_owned(),
            UsageError::TargetPort(text) => before_quoted("invalid target port in ", text.as_str()),
            UsageError::NoLogFile(tool) => two(tool.as_str(), " does not support --log-file"),
            UsageError::NoH3(tool) => two(
                tool.as_str(),
                " does not support --h3; provide a HTTP/3-enabled h2load with -h2load",
            ),
            UsageError::H3Clients => "Rust h3 h2load-rate currently supports -clients 1 because the simple quiche server accepts one client connection".to_owned(),
            UsageError::NoRps(tool) => two(
                tool.as_str(),
                " lacks --rps; use -clients 1 or provide a newer h2load",
            ),
        }
    }
}

/// Which benchmark a command line asks for: the one that its first word names, with the words
/// behind it, and otherwise the scenario matrix, with all its words.
pub proof fn law_command_line(word: Seq<char>, rest: Seq<Seq<char>>)
    ensures
        ({
            let all = seq![word] + rest;
            let r = command_line(all);
            &&& word == "overload"@ ==> r == (Subcommand::Overload, rest)
            &&& word == "h2load-rate"@ ==> r == (Subcommand::H2LoadRate, rest)
            &&& word == "rust-pps"@ ==> r == (Subcommand::RustPps, rest)
            &&& word == "rust-pps-nginx"@ ==> r == (Subcommand::RustPpsNginx, rest)
            &&& word != "overload"@ && word != "h2load-rate"@ && word != "rust-pps"@ && word
                != "rust-pps-nginx"@ ==> r == (Subcommand::Matrix, all)
        }),
        command_line(Seq::empty()) == (Subcommand::Matrix, Seq::<Seq<char>>::empty()),
{
    reveal_strlit("overload");
    reveal_strlit("h2load-rate");
    reveal_strlit("rust-pps");
    reveal_strlit("rust-pps-nginx");
    assert("overload"@.len() == 8 && "rust-pps"@.len() == 8 && "h2load-rate"@.len() == 11
        && "rust-pps-nginx"@.len() == 14);
    assert("overload"@[0] == 'o' && "rust-pps"@[0] == 'r');
    let all = seq![word] + rest;
    assert(all[0] == word);
    assert(all.skip(1) =~= rest);
}

/// A message tells the word that it is about: a flag or a name in front, an argument that is
/// not known at its end, and a value, as it is shown in quotes, where it was refused.
pub proof fn law_messages_tell(command: Subcommand, name: Seq<char>, text: Seq<char>)
    ensures
        text.is_suffix_of(error_message(UsageError::UnknownArgument(command, text))),
        text.is_prefix_of(error_message(UsageError::MissingValue(text))),
        debug_text(text).is_suffix_of(error_message(UsageError::UnknownProtocol(text))),
        name.is_prefix_of(error_message(UsageError::NotAnInteger(name, text))),
        debug_text(text).is_suffix_of(error_message(UsageError::NotAnInteger(name, text))),
        name.is_prefix_of(error_message(UsageError::ZeroInList(name))),
        name.is_prefix_of(error_message(UsageError::ZeroValue(name))),
        debug_text(text).is_suffix_of(error_message(UsageError::UnknownFailure(text))),
        debug_text(text).is_suffix_of(error_message(UsageError::NotANumber(text))),
        debug_text(text).is_suffix_of(error_message(UsageError::UnknownMode(text))),
        debug_text(text).is_suffix_of(error_message(UsageError::TargetPort(text))),
        text.is_prefix_of(error_message(UsageError::NoLogFile(text))),
        text.is_prefix_of(error_message(UsageError::NoH3(text))),
        text.is_prefix_of(error_message(UsageError::NoRps(text))),
{
    let q = debug_text(text);
    let m = error_message(UsageError::UnknownArgument(command, text));
    assert(m.subrange(m.len() - text.len(), m.len() as int) =~= text);
    let m = error_message(UsageError::UnknownProtocol(text));
    assert(m.subrange(m.len() - q.len(), m.len() as int) =~= q);
    let m = error_message(UsageError::NotAnInteger(name, text));
    assert(m.subrange(m.len() - q.len(), m.len() as int) =~= q);
    assert(m.subrange(0, name.len() as int) =~= name);
    let m = error_message(UsageError::UnknownFailure(text));
    assert(m.subrange(m.len() - q.len(), m.len() as int) =~= q);
    let m = error_message(UsageError::NotANumber(text));
    assert(m.subrange(m.len() - q.len(), m.len() as int) =~= q);
    let m = error_message(UsageError::UnknownMode(text));
    assert(m.subrange(m.len() - q.len(), m.len() as int) =~= q);
    let m = error_message(UsageError::TargetPort(text));
    assert(m.subrange(m.len() - q.len(), m.len() as int) =~= q);
}

} // verus!
