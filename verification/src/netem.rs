//! Network failure profiles, and the `tc` commands that impose them on loopback.
use crate::error::{CliError, UsageError};
use crate::text::{csv_parts, quoted, debug_text, same, split_csv};
use vstd::prelude::*;
use vstd::string::*;

verus! {

/// A named network condition, and what `tc ... netem` is told to bring it about.
#[derive(Debug, Clone)]
pub struct FailureProfile {
    pub name: String,
    pub netem_args: Vec<String>,
}

/// The texts of a failure profile.
#[verifier::ext_equal]
pub struct FailureModel {
    pub name: Seq<char>,
    pub netem_args: Seq<Seq<char>>,
}

impl View for FailureProfile {
    type V = FailureModel;

    open spec fn view(&self) -> FailureModel {
        FailureModel { name: self.name@, netem_args: self.netem_args.deep_view() }
    }
}

impl DeepView for FailureProfile {
    type V = FailureModel;

    open spec fn deep_view(&self) -> FailureModel {
        self.view()
    }
}

/// A copy of a list of texts.
pub fn copy_texts(texts: &Vec<String>) -> (r: Vec<String>)
    ensures
        r.deep_view() == texts.deep_view(),
{
    let mut out: Vec<String> = Vec::new();
    let mut i: usize = 0;
    while i < texts.len()
        invariant
            i <= texts@.len(),
            out@.len() == i,
            forall|k: int| 0 <= k < i ==> (#[trigger] out@[k])@ == texts@[k]@,
        decreases texts@.len() - i,
    {
        out.push(texts[i].clone());
        i = i + 1;
    }
    assert(out.deep_view() =~= texts.deep_view());
    out
}

fn one_setting(kind: &str, amount: &str) -> (r: Vec<String>)
    ensures
        r.deep_view() == seq![kind@, amount@],
{
    let mut out: Vec<String> = Vec::new();
    out.push(kind.to_owned());
    out.push(amount.to_owned());
    assert(out.deep_view() =~= seq![kind@, amount@]);
    out
}

impl FailureProfile {
    pub open spec fn none_model() -> FailureModel {
        FailureModel { name: "none"@, netem_args: seq![] }
    }

    /// The profile of an undisturbed network.
    pub fn none() -> (r: FailureProfile)
        ensures
            r@ == FailureProfile::none_model(),
    {
        let r = FailureProfile { name: "none".to_owned(), netem_args: Vec::new() };
        assert(r@.netem_args =~= seq![]);
        r
    }

    /// A copy of the profile.
    pub fn copy(&self) -> (r: FailureProfile)
        ensures
            r@ == self@,
    {
        FailureProfile { name: self.name.clone(), netem_args: copy_texts(&self.netem_args) }
    }
}

/// What `netem` is told for a profile of that name.
pub open spec fn netem_settings(name: Seq<char>) -> Option<Seq<Seq<char>>> {
    if name == "none"@ {
        Some(seq![])
    } else if name == "loss0.001"@ {
        Some(seq!["loss"@, "0.001%"@])
    } else if name == "loss0.01"@ {
        Some(seq!["loss"@, "0.01%"@])
    } else if name == "loss0.1"@ {
        Some(seq!["loss"@, "0.1%"@])
    } else if name == "loss1"@ {
        Some(seq!["loss"@, "1%"@])
    } else if name == "delay100ms"@ {
        Some(seq!["delay"@, "100ms"@])
    } else if name == "delay1s"@ {
        Some(seq!["delay"@, "1s"@])
    } else if name == "delay100ms_loss1"@ {
        Some(seq!["delay"@, "100ms"@, "loss"@, "1%"@])
    } else {
        None
    }
}

/// The profile of that name.
pub open spec fn failure_named(name: Seq<char>) -> Option<FailureModel> {
    match netem_settings(name) {
        Some(netem_args) => Some(FailureModel { name, netem_args }),
        None => None,
    }
}

/// The profiles that `parts` name, in order, or the first part that names none.
pub open spec fn failures_in(parts: Seq<Seq<char>>) -> Result<
    Seq<FailureModel>,
    UsageError<Seq<char>>,
>
    decreases parts.len(),
{
    if parts.len() == 0 {
        Ok(seq![])
    } else {
        match failures_in(parts.drop_last()) {
            Err(e) => Err(e),
            Ok(head) => match failure_named(parts.last()) {
                None => Err(UsageError::UnknownFailure(parts.last())),
                Some(f) => Ok(head.push(f)),
            },
        }
    }
}

/// The profiles of a comma-separated list, of which there must be one.
pub open spec fn failure_list(value: Seq<char>) -> Result<
    Seq<FailureModel>,
    UsageError<Seq<char>>,
> {
    match failures_in(csv_parts(value)) {
        Err(e) => Err(e),
        Ok(out) => if out.len() == 0 {
            Err(UsageError::NoFailure)
        } else {
            Ok(out)
        },
    }
}

proof fn lemma_failures_in_err(parts: Seq<Seq<char>>, i: int)
    requires
        0 <= i <= parts.len(),
        failures_in(parts.take(i)) is Err,
    ensures
        failures_in(parts) == failures_in(parts.take(i)),
    decreases parts.len() - i,
{
    if i < parts.len() {
        assert(parts.take(i + 1).drop_last() =~= parts.take(i));
        lemma_failures_in_err(parts, i + 1);
    } else {
        assert(parts.take(i) =~= parts);
    }
}

fn settings_of(name: &str) -> (r: Option<Vec<String>>)
    ensures
        match r {
            Some(out) => netem_settings(name@) == Some(out.deep_view()),
            None => netem_settings(name@) is None,
        },
{
    if same(name, "none") {
        let out: Vec<String> = Vec::new();
        assert(out.deep_view() =~= seq![]);
        Some(out)
    } else if same(name, "loss0.001") {
        Some(one_setting("loss", "0.001%"))
    } else if same(name, "loss0.01") {
        Some(one_setting("loss", "0.01%"))
    } else if same(name, "loss0.1") {
        Some(one_setting("loss", "0.1%"))
    } else if same(name, "loss1") {
        Some(one_setting("loss", "1%"))
    } else if same(name, "delay100ms") {
        Some(one_setting("delay", "100ms"))
    } else if same(name, "delay1s") {
        Some(one_setting("delay", "1s"))
    } else if same(name, "delay100ms_loss1") {
        let mut out = one_setting("delay", "100ms");
        let ghost first = out.deep_view();
        let mut more = one_setting("loss", "1%");
        let ghost second = more.deep_view();
        out.append(&mut more);
        assert(out.deep_view() =~= first + second);
        assert(first + second =~= seq!["delay"@, "100ms"@, "loss"@, "1%"@]);
        Some(out)
    } else {
        None
    }
}

/// Reads a comma-separated list of failure profiles.
pub fn parse_failures(value: &str) -> (r: Result<Vec<FailureProfile>, CliError>)
    ensures
        match r {
            Ok(out) => failure_list(value@) == Ok::<Seq<FailureModel>, UsageError<Seq<char>>>(
                out.deep_view(),
            ),
            Err(e) => failure_list(value@) == Err::<Seq<FailureModel>, UsageError<Seq<char>>>(e@),
        },
{
    let parts = split_csv(value);
    let ghost all = parts.deep_view();
    let mut out: Vec<FailureProfile> = Vec::new();
    let mut i: usize = 0;
    assert(out.deep_view() =~= seq![]);
    while i < parts.len()
        invariant
            i <= parts@.len(),
            all == parts.deep_view(),
            all == csv_parts(value@),
            failures_in(all.take(i as int)) == Ok::<Seq<FailureModel>, UsageError<Seq<char>>>(
                out.deep_view(),
            ),
        decreases parts@.len() - i,
    {
        assert(all.take(i + 1).drop_last() =~= all.take(i as int));
        assert(all[i as int] == parts@[i as int]@);
        let ghost before = out.deep_view();
        match settings_of(parts[i].as_str()) {
            None => {
                proof {
                    lemma_failures_in_err(all, i + 1);
                }
                return Err(UsageError::UnknownFailure(parts[i].clone()));
            },
            Some(netem_args) => {
                let profile = FailureProfile { name: parts[i].clone(), netem_args };
                assert(failure_named(all[i as int]) == Some(profile@));
                out.push(profile);
                assert(out.deep_view() =~= before.push(profile@));
            },
        }
        i = i + 1;
    }
    assert(all.take(i as int) =~= all);
    if out.len() == 0 {
        return Err(UsageError::NoFailure);
    }
    Ok(out)
}

/// Whether failure profiles may be imposed.
pub struct Netem {
    pub enabled: bool,
}

/// The arguments of `tc` up to the settings of a profile.
pub open spec fn tc_replace() -> Seq<Seq<char>> {
    seq!["qdisc"@, "replace"@, "dev"@, "lo"@, "root"@, "netem"@]
}

/// The arguments of `tc` that lift every profile.
pub open spec fn tc_delete() -> Seq<Seq<char>> {
    seq!["qdisc"@, "del"@, "dev"@, "lo"@, "root"@]
}

impl Netem {
    /// The arguments with which `tc` imposes `failure`, where there is anything
    /// to impose and it may be.
    pub fn apply(&self, failure: &FailureProfile) -> (r: Option<Vec<String>>)
        ensures
            match r {
                Some(args) => self.enabled && failure@.netem_args.len() > 0 && args.deep_view()
                    == tc_replace() + failure@.netem_args,
                None => !self.enabled || failure@.netem_args.len() == 0,
            },
    {
        if !self.enabled || failure.netem_args.len() == 0 {
            return None;
        }
        let mut args: Vec<String> = Vec::new();
        args.push("qdisc".to_owned());
        args.push("replace".to_owned());
        args.push("dev".to_owned());
        args.push("lo".to_owned());
        args.push("root".to_owned());
        args.push("netem".to_owned());
        let ghost fixed = args.deep_view();
        assert(fixed =~= tc_replace());
        let mut more = copy_texts(&failure.netem_args);
        let ghost settings = more.deep_view();
        args.append(&mut more);
        assert(args.deep_view() =~= fixed + settings);
        Some(args)
    }

    /// The arguments with which `tc` lifts whatever is imposed.
    pub fn clear(&self) -> (r: Option<Vec<String>>)
        ensures
            match r {
                Some(args) => self.enabled && args.deep_view() == tc_delete(),
                None => !self.enabled,
            },
    {
        if !self.enabled {
            return None;
        }
        let mut args: Vec<String> = Vec::new();
        args.push("qdisc".to_owned());
        args.push("del".to_owned());
        args.push("dev".to_owned());
        args.push("lo".to_owned());
        args.push("root".to_owned());
        assert(args.deep_view() =~= tc_delete());
        Some(args)
    }

    /// What is reported when `tc` refuses a profile.
    pub fn refusal(failure: &FailureProfile, stderr: &str) -> (r: String)
        ensures
            r@ == "apply netem "@ + debug_text(failure@.name) + ": "@ + stderr@,
    {
        let mut out = "apply netem ".to_owned();
        out.append(quoted(failure.name.as_str()).as_str());
        out.append(": ");
        out.append(stderr);
        out
    }
}

/// When a list of failures is read: exactly when there is a part and each names one; then it
/// has a failure for each part, in their order. The first part that names none is what an
/// error tells.
pub proof fn law_failure_list(value: Seq<char>, k: int)
    ensures
        ({
            let parts = csv_parts(value);
            let r = failure_list(value);
            &&& r is Ok <==> parts.len() > 0 && forall|i: int|
                0 <= i < parts.len() ==> netem_settings(#[trigger] parts[i]) is Some
            &&& r is Ok ==> r->Ok_0.len() == parts.len()
            &&& r is Ok && 0 <= k < parts.len() ==> r->Ok_0[k].name == parts[k] && Some(
                r->Ok_0[k].netem_args,
            ) == netem_settings(parts[k])
            &&& parts.len() == 0 ==> r == Err::<Seq<FailureModel>, UsageError<Seq<char>>>(
                UsageError::NoFailure,
            )
            &&& 0 <= k < parts.len() && netem_settings(parts[k]) is None && (forall|i: int|
                0 <= i < k ==> netem_settings(#[trigger] parts[i]) is Some) ==> r == Err::<
                Seq<FailureModel>,
                UsageError<Seq<char>>,
            >(UsageError::UnknownFailure(parts[k]))
        }),
{
    let parts = csv_parts(value);
    lemma_failures_in_all(parts);
    if 0 <= k < parts.len() && netem_settings(parts[k]) is None && (forall|i: int|
        0 <= i < k ==> netem_settings(#[trigger] parts[i]) is Some) {
        let before = parts.take(k);
        assert forall|i: int| 0 <= i < before.len() implies netem_settings(
            #[trigger] before[i],
        ) is Some by {
            assert(before[i] == parts[i]);
        }
        lemma_failures_in_all(before);
        assert(parts.take(k + 1).drop_last() =~= before);
        lemma_failures_in_err(parts, k + 1);
    }
}

proof fn lemma_failures_in_all(parts: Seq<Seq<char>>)
    ensures
        failures_in(parts) is Ok <==> forall|i: int|
            0 <= i < parts.len() ==> netem_settings(#[trigger] parts[i]) is Some,
        failures_in(parts) is Ok ==> failures_in(parts)->Ok_0.len() == parts.len(),
        failures_in(parts) is Ok ==> forall|i: int|
            0 <= i < parts.len() ==> (#[trigger] failures_in(parts)->Ok_0[i]).name == parts[i]
                && Some(failures_in(parts)->Ok_0[i].netem_args) == netem_settings(parts[i]),
    decreases parts.len(),
{
    if parts.len() > 0 {
        let head = parts.drop_last();
        lemma_failures_in_all(head);
        assert(parts[parts.len() - 1] == parts.last());
        if failures_in(parts) is Ok {
            let out = failures_in(parts)->Ok_0;
            let before = failures_in(head)->Ok_0;
            assert forall|i: int| 0 <= i < parts.len() implies (#[trigger] out[i]).name == parts[i]
                && Some(out[i].netem_args) == netem_settings(parts[i]) by {
                if i < head.len() {
                    assert(out[i] == before[i]);
                    assert(head[i] == parts[i]);
                }
            }
            assert forall|i: int| 0 <= i < parts.len() implies netem_settings(
                #[trigger] parts[i],
            ) is Some by {
                assert(out[i].name == parts[i]);
            }
        }
        if forall|i: int| 0 <= i < parts.len() ==> netem_settings(#[trigger] parts[i]) is Some {
            assert forall|i: int| 0 <= i < head.len() implies netem_settings(
                #[trigger] head[i],
            ) is Some by {
                assert(head[i] == parts[i]);
            }
        }
    }
}

/// A failure's name says what the network is told: `loss` and a share is that loss in
/// percent, `delay` and a time is that delay, both with a line between them are both, and
/// `none` is nothing. There are these eight names.
pub proof fn law_failure_names(name: Seq<char>)
    ensures
        netem_settings(name) is Some <==> name == "none"@ || name == "loss0.001"@ || name
            == "loss0.01"@ || name == "loss0.1"@ || name == "loss1"@ || name == "delay100ms"@
            || name == "delay1s"@ || name == "delay100ms_loss1"@,
        netem_settings(name) matches Some(args) ==> {
            &&& args.len() == 0 ==> name == "none"@
            &&& args.len() > 0 ==> args.len() == 2 || args.len() == 4
            &&& args.len() == 2 && args[0] == "loss"@ ==> args[1].len() > 0 && args[1].last() == '%'
                && name == "loss"@ + args[1].drop_last()
            &&& args.len() == 2 && args[0] != "loss"@ ==> args[0] == "delay"@ && name == "delay"@
                + args[1]
            &&& args.len() == 4 ==> args[0] == "delay"@ && args[2] == "loss"@ && args[3].len() > 0
                && args[3].last() == '%' && name == "delay"@ + args[1] + "_loss"@
                + args[3].drop_last()
        },
{
    reveal_strlit("none");
    reveal_strlit("loss0.001");
    reveal_strlit("loss0.01");
    reveal_strlit("loss0.1");
    reveal_strlit("loss1");
    reveal_strlit("delay100ms");
    reveal_strlit("delay1s");
    reveal_strlit("delay100ms_loss1");
    reveal_strlit("loss");
    reveal_strlit("_loss");
    reveal_strlit("delay");
    reveal_strlit("0.001%");
    reveal_strlit("0.01%");
    reveal_strlit("0.1%");
    reveal_strlit("1%");
    reveal_strlit("100ms");
    reveal_strlit("1s");
    assert("loss"@.len() == 4 && "delay"@.len() == 5);
    assert("loss0.001"@ =~= "loss"@ + "0.001%"@.drop_last());
    assert("loss0.01"@ =~= "loss"@ + "0.01%"@.drop_last());
    assert("loss0.1"@ =~= "loss"@ + "0.1%"@.drop_last());
    assert("loss1"@ =~= "loss"@ + "1%"@.drop_last());
    assert("delay100ms"@ =~= "delay"@ + "100ms"@);
    assert("delay1s"@ =~= "delay"@ + "1s"@);
    assert("delay100ms_loss1"@ =~= "delay"@ + "100ms"@ + "_loss"@ + "1%"@.drop_last());
}

/// Only the device of this machine's own traffic is touched, at its root: a profile replaces
/// what is there with what its settings say, and lifting takes it away.
pub proof fn law_tc_arguments(settings: Seq<Seq<char>>)
    ensures
        (tc_replace() + settings).take(6) == seq![
            "qdisc"@,
            "replace"@,
            "dev"@,
            "lo"@,
            "root"@,
            "netem"@,
        ],
        (tc_replace() + settings).skip(6) == settings,
        tc_delete() == seq!["qdisc"@, "del"@, "dev"@, "lo"@, "root"@],
{
    assert((tc_replace() + settings).take(6) =~= tc_replace());
    assert((tc_replace() + settings).skip(6) =~= settings);
}

} // verus!
