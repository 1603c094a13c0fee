//! How an overloaded server turns a request away.
use crate::error::{outcome, CliError, UsageError};
use crate::text::{csv_parts, same, split_csv};
use vstd::prelude::*;
use vstd::string::*;

verus! {

/// The two answers to a request that is too much.
#[derive(Debug, Clone, Copy, PartialEq, Eq, PartialOrd, Ord, Structural)]
pub enum OverloadMode {
    /// A response of the application.
    App503,
    /// A reset of the stream.
    Reset,
}

impl OverloadMode {
    /// The mode's name.
    pub open spec fn name(self) -> Seq<char> {
        match self {
            OverloadMode::App503 => "app503"@,
            OverloadMode::Reset => "reset"@,
        }
    }

    /// The mode's name.
    pub fn as_str(self) -> (r: &'static str)
        ensures
            r@ == self.name(),
    {
        match self {
            OverloadMode::App503 => "app503",
            OverloadMode::Reset => "reset",
        }
    }
}

/// The mode that a part of a list names.
pub open spec fn mode_named(part: Seq<char>) -> Option<OverloadMode> {
    if part == "app503"@ {
        Some(OverloadMode::App503)
    } else if part == "reset"@ {
        Some(OverloadMode::Reset)
    } else {
        None
    }
}

/// The modes that `parts` name, each where it is named first.
pub open spec fn modes_in(parts: Seq<Seq<char>>) -> Result<
    Seq<OverloadMode>,
    UsageError<Seq<char>>,
>
    decreases parts.len(),
{
    if parts.len() == 0 {
        Ok(seq![])
    } else {
        match modes_in(parts.drop_last()) {
            Err(e) => Err(e),
            Ok(out) => match mode_named(parts.last()) {
                None => Err(UsageError::UnknownMode(parts.last())),
                Some(m) => if out.contains(m) {
                    Ok(out)
                } else {
                    Ok(out.push(m))
                },
            },
        }
    }
}

/// The modes that a comma-separated list names.
pub open spec fn mode_list(value: Seq<char>) -> Result<Seq<OverloadMode>, UsageError<Seq<char>>> {
    match modes_in(csv_parts(value)) {
        Err(e) => Err(e),
        Ok(out) => if out.len() == 0 {
            Err(UsageError::NoMode)
        } else {
            Ok(out)
        },
    }
}

proof fn lemma_modes_in_err(parts: Seq<Seq<char>>, i: int)
    requires
        0 <= i <= parts.len(),
        modes_in(parts.take(i)) is Err,
    ensures
        modes_in(parts) == modes_in(parts.take(i)),
    decreases parts.len() - i,
{
    if i < parts.len() {
        assert(parts.take(i + 1).drop_last() =~= parts.take(i));
        lemma_modes_in_err(parts, i + 1);
    } else {
        assert(parts.take(i) =~= parts);
    }
}

proof fn lemma_modes_in(parts: Seq<Seq<char>>)
    requires
        modes_in(parts) is Ok,
    ensures
        modes_in(parts)->Ok_0.no_duplicates(),
        forall|m: OverloadMode|
            #[trigger] modes_in(parts)->Ok_0.contains(m) <==> exists|i: int|
                0 <= i < parts.len() && mode_named(#[trigger] parts[i]) == Some(m),
    decreases parts.len(),
{
    if parts.len() > 0 {
        let head = parts.drop_last();
        lemma_modes_in(head);
        let before = modes_in(head)->Ok_0;
        let out = modes_in(parts)->Ok_0;
        let last = mode_named(parts.last())->0;
        assert forall|m: OverloadMode| #[trigger] out.contains(m) <==> exists|i: int|
            0 <= i < parts.len() && mode_named(#[trigger] parts[i]) == Some(m) by {
            assert(out.contains(m) <==> before.contains(m) || m == last) by {
                if !before.contains(last) {
                    if before.contains(m) {
                        let k = choose|k: int| 0 <= k < before.len() && before[k] == m;
                        assert(out[k] == m);
                    }
                    if m == last {
                        assert(out[before.len() as int] == m);
                    }
                }
            }
            if before.contains(m) {
                let i = choose|i: int|
                    0 <= i < head.len() && mode_named(#[trigger] head[i]) == Some(m);
                assert(parts[i] == head[i]);
            }
            if m == last {
                assert(mode_named(parts[parts.len() - 1]) == Some(m));
            }
            if exists|i: int| 0 <= i < parts.len() && mode_named(#[trigger] parts[i]) == Some(m) {
                let i = choose|i: int|
                    0 <= i < parts.len() && mode_named(#[trigger] parts[i]) == Some(m);
                if i < head.len() {
                    assert(head[i] == parts[i]);
                }
            }
        }
    }
}

/// An accepted list of modes is not empty, names none twice, and holds exactly those
/// that some part of the text names.
pub proof fn law_mode_list(value: Seq<char>)
    requires
        mode_list(value) is Ok,
    ensures
        ({
            let out = mode_list(value)->Ok_0;
            let parts = csv_parts(value);
            &&& out.len() > 0
            &&& out.no_duplicates()
            &&& forall|m: OverloadMode|
                #[trigger] out.contains(m) <==> exists|i: int|
                    0 <= i < parts.len() && mode_named(#[trigger] parts[i]) == Some(m)
        }),
{
    lemma_modes_in(csv_parts(value));
}

fn has_mode(list: &Vec<OverloadMode>, m: OverloadMode) -> (r: bool)
    ensures
        r == list@.contains(m),
{
    let mut i: usize = 0;
    while i < list.len()
        invariant
            i <= list@.len(),
            forall|k: int| 0 <= k < i ==> list@[k] != m,
        decreases list@.len() - i,
    {
        if list[i] == m {
            assert(list@[i as int] == m);
            return true;
        }
        i = i + 1;
    }
    false
}

/// Reads a comma-separated list of modes.
pub fn parse_overload_modes(value: &str) -> (r: Result<Vec<OverloadMode>, CliError>)
    ensures
        outcome(r) == mode_list(value@),
{
    let parts = split_csv(value);
    let ghost all = parts.deep_view();
    let mut out: Vec<OverloadMode> = Vec::new();
    let mut i: usize = 0;
    assert(all.take(0) =~= seq![]);
    while i < parts.len()
        invariant
            i <= parts@.len(),
            all == parts.deep_view(),
            all == csv_parts(value@),
            modes_in(all.take(i as int)) == Ok::<Seq<OverloadMode>, UsageError<Seq<char>>>(out@),
        decreases parts@.len() - i,
    {
        assert(all.take(i + 1).drop_last() =~= all.take(i as int));
        assert(all.take(i + 1).last() == parts@[i as int]@);
        let part = parts[i].as_str();
        let mode: OverloadMode;
        if same(part, "app503") {
            mode = OverloadMode::App503;
        } else if same(part, "reset") {
            mode = OverloadMode::Reset;
        } else {
            proof {
                lemma_modes_in_err(all, i + 1);
            }
            return Err(UsageError::UnknownMode(part.to_owned()));
        }
        if !has_mode(&out, mode) {
            out.push(mode);
        }
        i = i + 1;
    }
    assert(all.take(i as int) =~= all);
    if out.len() == 0 {
        return Err(UsageError::NoMode);
    }
    Ok(out)
}

/// When a list is read: exactly when there is a part and each is a name. The first name comes
/// first; the first part that is none is what an error tells.
pub proof fn law_mode_list_order(value: Seq<char>, k: int)
    ensures
        ({
            let parts = csv_parts(value);
            let r = mode_list(value);
            &&& r is Ok <==> parts.len() > 0 && forall|i: int|
                0 <= i < parts.len() ==> mode_named(#[trigger] parts[i]) is Some
            &&& r is Ok ==> mode_named(parts[0]) == Some(r->Ok_0[0])
            &&& parts.len() == 0 ==> r == Err::<Seq<OverloadMode>, UsageError<Seq<char>>>(
                UsageError::NoMode,
            )
            &&& 0 <= k < parts.len() && mode_named(parts[k]) is None && (forall|i: int|
                0 <= i < k ==> mode_named(#[trigger] parts[i]) is Some) ==> r == Err::<
                Seq<OverloadMode>,
                UsageError<Seq<char>>,
            >(UsageError::UnknownMode(parts[k]))
        }),
{
    let parts = csv_parts(value);
    lemma_modes_in_all(parts);
    if 0 <= k < parts.len() && mode_named(parts[k]) is None && (forall|i: int|
        0 <= i < k ==> mode_named(#[trigger] parts[i]) is Some) {
        let before = parts.take(k);
        assert forall|i: int| 0 <= i < before.len() implies mode_named(
            #[trigger] before[i],
        ) is Some by {
            assert(before[i] == parts[i]);
        }
        lemma_modes_in_all(before);
        assert(parts.take(k + 1).drop_last() =~= before);
        lemma_modes_in_err(parts, k + 1);
    }
}

proof fn lemma_modes_in_all(parts: Seq<Seq<char>>)
    ensures
        modes_in(parts) is Ok <==> forall|i: int|
            0 <= i < parts.len() ==> mode_named(#[trigger] parts[i]) is Some,
        modes_in(parts) is Ok && parts.len() > 0 ==> modes_in(parts)->Ok_0.len() > 0
            && mode_named(parts[0]) == Some(modes_in(parts)->Ok_0[0]),
    decreases parts.len(),
{
    if parts.len() > 0 {
        let head = parts.drop_last();
        lemma_modes_in_all(head);
        assert(parts[parts.len() - 1] == parts.last());
        if modes_in(parts) is Ok {
            assert forall|i: int| 0 <= i < parts.len() implies mode_named(
                #[trigger] parts[i],
            ) is Some by {
                if i < head.len() {
                    assert(head[i] == parts[i]);
                }
            }
            if head.len() > 0 {
                assert(head[0] == parts[0]);
            }
        }
        if forall|i: int| 0 <= i < parts.len() ==> mode_named(#[trigger] parts[i]) is Some {
            assert forall|i: int| 0 <= i < head.len() implies mode_named(
                #[trigger] head[i],
            ) is Some by {
                assert(head[i] == parts[i]);
            }
        }
    }
}

/// A mode is named by its name and by no other word.
pub proof fn law_mode_names(part: Seq<char>)
    ensures
        mode_named(part) == Some(OverloadMode::App503) <==> part == "app503"@,
        mode_named(part) == Some(OverloadMode::Reset) <==> part == "reset"@,
        forall|m: OverloadMode| mode_named(#[trigger] m.name()) == Some(m),
{
    reveal_strlit("app503");
    reveal_strlit("reset");
    assert("app503"@.len() == 6 && "reset"@.len() == 5);
}

} // verus!
