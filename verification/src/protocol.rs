//! The transports under test, and the names that flags and reports give them.
use crate::error::{outcome, CliError, UsageError};
use crate::text::{csv_parts, same, split_csv};
use vstd::prelude::*;
use vstd::string::*;

verus! {

/// HTTP/2 over TLS and TCP, or HTTP/3 over QUIC.
#[derive(Debug, Clone, Copy, PartialEq, Eq, Structural)]
pub enum Protocol {
    H2,
    H3,
}

impl Protocol {
    pub open spec fn report_name(self) -> Seq<char> {
        match self {
            Protocol::H2 => "h2"@,
            Protocol::H3 => "h3-quiche"@,
        }
    }

    pub open spec fn client_scheduler_name(self) -> Seq<char> {
        match self {
            Protocol::H2 => "tokio_user_tasks"@,
            Protocol::H3 => "quiche_readiness_loop"@,
        }
    }

    pub open spec fn server_scheduler_name(self) -> Seq<char> {
        match self {
            Protocol::H2 => "in_connection_futures"@,
            Protocol::H3 => "quiche_readiness_loop"@,
        }
    }

    pub open spec fn short_name(self) -> Seq<char> {
        match self {
            Protocol::H2 => "h2"@,
            Protocol::H3 => "h3"@,
        }
    }

    /// The name in the report of the scenario matrix.
    pub fn as_str(self) -> (r: &'static str)
        ensures
            r@ == self.report_name(),
    {
        match self {
            Protocol::H2 => "h2",
            Protocol::H3 => "h3-quiche",
        }
    }

    /// How the client side is scheduled.
    pub fn client_scheduler(self) -> (r: &'static str)
        ensures
            r@ == self.client_scheduler_name(),
    {
        match self {
            Protocol::H2 => "tokio_user_tasks",
            Protocol::H3 => "quiche_readiness_loop",
        }
    }

    /// How the server side is scheduled.
    pub fn server_scheduler(self) -> (r: &'static str)
        ensures
            r@ == self.server_scheduler_name(),
    {
        match self {
            Protocol::H2 => "in_connection_futures",
            Protocol::H3 => "quiche_readiness_loop",
        }
    }
}

/// The name in file names and in the reports of the fixed-rate runs.
pub fn h2load_protocol_name(protocol: Protocol) -> (r: &'static str)
    ensures
        r@ == protocol.short_name(),
{
    match protocol {
        Protocol::H2 => "h2",
        Protocol::H3 => "h3",
    }
}

/// The protocol that a part of a list names.
pub open spec fn protocol_named(part: Seq<char>) -> Option<Protocol> {
    if part == "h2"@ || part == "h2-inline"@ {
        Some(Protocol::H2)
    } else if part == "h3"@ || part == "h3-quiche"@ {
        Some(Protocol::H3)
    } else {
        None
    }
}

/// The protocols that `parts` name, each once and where it is named first, or
/// the first part that names none.
pub open spec fn protocols_in(parts: Seq<Seq<char>>) -> Result<
    Seq<Protocol>,
    UsageError<Seq<char>>,
>
    decreases parts.len(),
{
    if parts.len() == 0 {
        Ok(seq![])
    } else {
        match protocols_in(parts.drop_last()) {
            Err(e) => Err(e),
            Ok(head) => match protocol_named(parts.last()) {
                None => Err(UsageError::UnknownProtocol(parts.last())),
                Some(p) => if head.contains(p) {
                    Ok(head)
                } else {
                    Ok(head.push(p))
                },
            },
        }
    }
}

/// The protocols of a comma-separated list, of which there must be one.
pub open spec fn protocol_list(value: Seq<char>) -> Result<Seq<Protocol>, UsageError<Seq<char>>> {
    match protocols_in(csv_parts(value)) {
        Err(e) => Err(e),
        Ok(out) => if out.len() == 0 {
            Err(UsageError::NoProtocol)
        } else {
            Ok(out)
        },
    }
}

proof fn lemma_protocols_in_err(parts: Seq<Seq<char>>, i: int)
    requires
        0 <= i <= parts.len(),
        protocols_in(parts.take(i)) is Err,
    ensures
        protocols_in(parts) == protocols_in(parts.take(i)),
    decreases parts.len() - i,
{
    if i < parts.len() {
        assert(parts.take(i + 1).drop_last() =~= parts.take(i));
        lemma_protocols_in_err(parts, i + 1);
    } else {
        assert(parts.take(i) =~= parts);
    }
}

proof fn lemma_protocols_in(parts: Seq<Seq<char>>)
    requires
        protocols_in(parts) is Ok,
    ensures
        protocols_in(parts)->Ok_0.no_duplicates(),
        forall|p: Protocol|
            #[trigger] protocols_in(parts)->Ok_0.contains(p) <==> exists|i: int|
                0 <= i < parts.len() && protocol_named(#[trigger] parts[i]) == Some(p),
    decreases parts.len(),
{
    if parts.len() > 0 {
        let head = parts.drop_last();
        lemma_protocols_in(head);
        let before = protocols_in(head)->Ok_0;
        let out = protocols_in(parts)->Ok_0;
        let last = protocol_named(parts.last())->0;
        assert forall|p: Protocol| #[trigger] out.contains(p) <==> exists|i: int|
            0 <= i < parts.len() && protocol_named(#[trigger] parts[i]) == Some(p) by {
            assert(out.contains(p) <==> before.contains(p) || p == last) by {
                if !before.contains(last) {
                    if before.contains(p) {
                        let k = choose|k: int| 0 <= k < before.len() && before[k] == p;
                        assert(out[k] == p);
                    }
                    if p == last {
                        assert(out[before.len() as int] == p);
                    }
                }
            }
            if before.contains(p) {
                let i = choose|i: int|
                    0 <= i < head.len() && protocol_named(#[trigger] head[i]) == Some(p);
                assert(parts[i] == head[i]);
            }
            if p == last {
                assert(protocol_named(parts[parts.len() - 1]) == Some(p));
            }
            if exists|i: int| 0 <= i < parts.len() && protocol_named(#[trigger] parts[i]) == Some(
                p,
            ) {
                let i = choose|i: int|
                    0 <= i < parts.len() && protocol_named(#[trigger] parts[i]) == Some(p);
                if i < head.len() {
                    assert(head[i] == parts[i]);
                }
            }
        }
    }
}

/// An accepted list of protocols is not empty, names none twice, and holds
/// exactly those that some part of the text names.
pub proof fn law_protocol_list(value: Seq<char>)
    requires
        protocol_list(value) is Ok,
    ensures
        ({
            let out = protocol_list(value)->Ok_0;
            let parts = csv_parts(value);
            &&& out.len() > 0
            &&& out.no_duplicates()
            &&& forall|p: Protocol|
                #[trigger] out.contains(p) <==> exists|i: int|
                    0 <= i < parts.len() && protocol_named(#[trigger] parts[i]) == Some(p)
        }),
{
    lemma_protocols_in(csv_parts(value));
}

/// Whether a protocol is in a list.
pub fn has_protocol(list: &Vec<Protocol>, p: Protocol) -> (r: bool)
    ensures
        r == list@.contains(p),
{
    let mut i: usize = 0;
    while i < list.len()
        invariant
            i <= list@.len(),
            forall|k: int| 0 <= k < i ==> list@[k] != p,
        decreases list@.len() - i,
    {
        if list[i] == p {
            assert(list@[i as int] == p);
            return true;
        }
        i = i + 1;
    }
    false
}

fn named_protocol(part: &str) -> (r: Option<Protocol>)
    ensures
        r == protocol_named(part@),
{
    if same(part, "h2") || same(part, "h2-inline") {
        Some(Protocol::H2)
    } else if same(part, "h3") || same(part, "h3-quiche") {
        Some(Protocol::H3)
    } else {
        None
    }
}

/// Reads a comma-separated list of protocols.
pub fn parse_protocols(value: &str) -> (r: Result<Vec<Protocol>, CliError>)
    ensures
        outcome(r) == protocol_list(value@),
{
    let parts = split_csv(value);
    let ghost all = parts.deep_view();
    let mut out: Vec<Protocol> = Vec::new();
    let mut i: usize = 0;
    while i < parts.len()
        invariant
            i <= parts@.len(),
            all == parts.deep_view(),
            all == csv_parts(value@),
            protocols_in(all.take(i as int)) == Ok::<Seq<Protocol>, UsageError<Seq<char>>>(out@),
        decreases parts@.len() - i,
    {
        assert(all.take(i + 1).drop_last() =~= all.take(i as int));
        assert(all[i as int] == parts@[i as int]@);
        match named_protocol(parts[i].as_str()) {
            None => {
                proof {
                    lemma_protocols_in_err(all, i + 1);
                }
                return Err(UsageError::UnknownProtocol(parts[i].clone()));
            },
            Some(p) => {
                if !has_protocol(&out, p) {
                    out.push(p);
                }
            },
        }
        i = i + 1;
    }
    assert(all.take(i as int) =~= all);
    if out.len() == 0 {
        return Err(UsageError::NoProtocol);
    }
    Ok(out)
}

/// When a list is read: exactly when there is a part and each is a name. The first name comes
/// first; the first part that is none is what an error tells.
pub proof fn law_protocol_list_order(value: Seq<char>, k: int)
    ensures
        ({
            let parts = csv_parts(value);
            let r = protocol_list(value);
            &&& r is Ok <==> parts.len() > 0 && forall|i: int|
                0 <= i < parts.len() ==> protocol_named(#[trigger] parts[i]) is Some
            &&& r is Ok ==> protocol_named(parts[0]) == Some(r->Ok_0[0])
            &&& parts.len() == 0 ==> r == Err::<Seq<Protocol>, UsageError<Seq<char>>>(
                UsageError::NoProtocol,
            )
            &&& 0 <= k < parts.len() && protocol_named(parts[k]) is None && (forall|i: int|
                0 <= i < k ==> protocol_named(#[trigger] parts[i]) is Some) ==> r == Err::<
                Seq<Protocol>,
                UsageError<Seq<char>>,
            >(UsageError::UnknownProtocol(parts[k]))
        }),
{
    let parts = csv_parts(value);
    lemma_protocols_in_all(parts);
    if 0 <= k < parts.len() && protocol_named(parts[k]) is None && (forall|i: int|
        0 <= i < k ==> protocol_named(#[trigger] parts[i]) is Some) {
        let before = parts.take(k);
        assert forall|i: int| 0 <= i < before.len() implies protocol_named(
            #[trigger] before[i],
        ) is Some by {
            assert(before[i] == parts[i]);
        }
        lemma_protocols_in_all(before);
        assert(parts.take(k + 1).drop_last() =~= before);
        lemma_protocols_in_err(parts, k + 1);
    }
}

proof fn lemma_protocols_in_all(parts: Seq<Seq<char>>)
    ensures
        protocols_in(parts) is Ok <==> forall|i: int|
            0 <= i < parts.len() ==> protocol_named(#[trigger] parts[i]) is Some,
        protocols_in(parts) is Ok && parts.len() > 0 ==> protocols_in(parts)->Ok_0.len() > 0
            && protocol_named(parts[0]) == Some(protocols_in(parts)->Ok_0[0]),
    decreases parts.len(),
{
    if parts.len() > 0 {
        let head = parts.drop_last();
        lemma_protocols_in_all(head);
        assert(parts[parts.len() - 1] == parts.last());
        if protocols_in(parts) is Ok {
            assert forall|i: int| 0 <= i < parts.len() implies protocol_named(
                #[trigger] parts[i],
            ) is Some by {
                if i < head.len() {
                    assert(head[i] == parts[i]);
                }
            }
            if head.len() > 0 {
                assert(head[0] == parts[0]);
            }
        }
        if forall|i: int| 0 <= i < parts.len() ==> protocol_named(#[trigger] parts[i]) is Some {
            assert forall|i: int| 0 <= i < head.len() implies protocol_named(
                #[trigger] head[i],
            ) is Some by {
                assert(head[i] == parts[i]);
            }
        }
    }
}

/// A transport is named by each of its names and by no other word.
pub proof fn law_protocol_names(part: Seq<char>)
    ensures
        protocol_named(part) == Some(Protocol::H2) <==> part == "h2"@ || part == "h2-inline"@,
        protocol_named(part) == Some(Protocol::H3) <==> part == "h3"@ || part == "h3-quiche"@,
        forall|p: Protocol|
            protocol_named(#[trigger] p.short_name()) == Some(p) && protocol_named(p.report_name())
                == Some(p),
{
    reveal_strlit("h2");
    reveal_strlit("h2-inline");
    reveal_strlit("h3");
    reveal_strlit("h3-quiche");
    assert("h2"@.len() == 2 && "h3"@.len() == 2 && "h2"@[1] == '2' && "h3"@[1] == '3');
    assert("h2-inline"@.len() == 9 && "h3-quiche"@.len() == 9);
    assert("h2-inline"@[1] == '2' && "h3-quiche"@[1] == '3');
}

} // verus!
