//! The address of a server outside of this process.
use crate::error::{outcome, CliError, UsageError};
use crate::number::{
    decimal, law_printed_digits, law_read_undoes_print, read_u16, unsigned_number,
};
use crate::text::{
    after_last, chars_of, find, find_from, find_last, law_first_occurrence, law_last_occurrence,
    lemma_find, matches_at, stands_at, text_between,
};
use vstd::prelude::*;
use vstd::string::*;

verus! {

/// An `https` endpoint, taken apart.
#[derive(Debug, Clone)]
pub struct TargetEndpoint {
    /// The whole address as it was written.
    pub uri: String,
    /// The name of the host.
    pub host: String,
    /// The host and, where one was written, the port.
    pub authority: String,
    /// The path, which starts with a slash.
    pub path: String,
    /// The port.
    pub port: u16,
}

/// The values of a `TargetEndpoint`.
#[verifier::ext_equal]
pub struct TargetModel {
    pub uri: Seq<char>,
    pub host: Seq<char>,
    pub authority: Seq<char>,
    pub path: Seq<char>,
    pub port: u16,
}

impl View for TargetEndpoint {
    type V = TargetModel;

    open spec fn view(&self) -> TargetModel {
        TargetModel {
            uri: self.uri@,
            host: self.host@,
            authority: self.authority@,
            path: self.path@,
            port: self.port,
        }
    }
}

/// The port of an address that names none.
pub const HTTPS_PORT: u16 = 443;

/// What stands between the scheme and the path.
pub open spec fn authority_of(rest: Seq<char>) -> Seq<char> {
    rest.take(find(rest, '/'))
}

/// What follows the authority, and a slash where nothing does.
pub open spec fn path_of(rest: Seq<char>) -> Seq<char> {
    if rest.contains('/') {
        rest.skip(find(rest, '/'))
    } else {
        seq!['/']
    }
}

/// The endpoint that an address denotes.
pub open spec fn target_of(value: Seq<char>) -> Result<TargetModel, UsageError<Seq<char>>> {
    if !stands_at(value, "https://"@, 0) {
        Err(UsageError::TargetScheme)
    } else {
        let rest = value.skip(8);
        let authority = authority_of(rest);
        let path = path_of(rest);
        let colon = find_last(authority, ':');
        if colon < 0 {
            Ok(TargetModel { uri: value, host: authority, authority, path, port: HTTPS_PORT })
        } else {
            match unsigned_number(authority.skip(colon + 1), u16::MAX as nat) {
                None => Err(UsageError::TargetPort(value)),
                Some(port) => Ok(
                    TargetModel {
                        uri: value,
                        host: authority.take(colon),
                        authority,
                        path,
                        port: port as u16,
                    },
                ),
            }
        }
    }
}

impl TargetEndpoint {
    /// A copy.
    pub fn copy(&self) -> (r: TargetEndpoint)
        ensures
            r@ == self@,
    {
        TargetEndpoint {
            uri: self.uri.clone(),
            host: self.host.clone(),
            authority: self.authority.clone(),
            path: self.path.clone(),
            port: self.port,
        }
    }

    /// Takes an address apart.
    pub fn parse(value: &str) -> (r: Result<TargetEndpoint, CliError>)
        ensures
            outcome(r) == target_of(value@),
    {
        let chars = chars_of(value);
        let scheme = chars_of("https://");
        proof {
            reveal_strlit("https://");
        }
        if !matches_at(&chars, &scheme, 0) {
            return Err(UsageError::TargetScheme);
        }
        let ghost rest = value@.skip(8);
        let slash: usize = find_from(&chars, 8, '/');
        proof {
            lemma_find(rest, '/');
        }
        let authority = text_between(&chars, 8, slash);
        assert(authority@ =~= authority_of(rest));
        let mut path = text_between(&chars, slash, chars.len());
        if slash == chars.len() {
            path.push('/');
            assert(path@ =~= seq!['/']);
        } else {
            assert(path@ =~= rest.skip(slash - 8));
        }
        let letters = chars_of(authority.as_str());
        let behind: usize = after_last(&letters, ':');
        if behind == 0 {
            return Ok(
                TargetEndpoint {
                    uri: value.to_owned(),
                    host: authority.clone(),
                    authority,
                    path,
                    port: HTTPS_PORT,
                },
            );
        }
        let digits = text_between(&letters, behind, letters.len());
        assert(digits@ =~= authority@.skip(behind as int));
        match read_u16(digits.as_str()) {
            None => Err(UsageError::TargetPort(value.to_owned())),
            Some(port) => {
                let host = text_between(&letters, 0, behind - 1);
                assert(host@ =~= authority@.take(behind - 1));
                Ok(TargetEndpoint { uri: value.to_owned(), host, authority, path, port })
            },
        }
    }
}

/// An accepted address is put together again from its parts: the scheme, the
/// authority, and the path, unless none was written. The authority is the host
/// alone or the host and a port.
pub proof fn law_target_parts(value: Seq<char>)
    requires
        target_of(value) is Ok,
    ensures
        ({
            let t = target_of(value)->Ok_0;
            &&& t.uri == value
            &&& value == "https://"@ + t.authority + t.path || (value == "https://"@ + t.authority
                && t.path == seq!['/'])
            &&& !t.authority.contains('/')
            &&& t.path.len() > 0 && t.path[0] == '/'
            &&& (t.authority == t.host && t.port == HTTPS_PORT) || exists|digits: Seq<char>|
                t.authority == #[trigger] t.host.push(':') + digits && unsigned_number(
                    digits,
                    u16::MAX as nat,
                ) == Some(t.port as nat)
        }),
{
    reveal_strlit("https://");
    let t = target_of(value)->Ok_0;
    let rest = value.skip(8);
    let scheme = value.subrange(0, 8);
    lemma_find(rest, '/');
    assert(value =~= scheme + rest);
    if rest.contains('/') {
        assert(rest =~= t.authority + t.path);
        assert(value =~= "https://"@ + t.authority + t.path);
    } else {
        assert(rest =~= t.authority);
    }
    let colon = find_last(t.authority, ':');
    if colon >= 0 {
        lemma_find_last(t.authority, ':');
        let digits = t.authority.skip(colon + 1);
        assert(t.authority =~= t.host.push(':') + digits);
    }
}

proof fn lemma_find_last(s: Seq<char>, c: char)
    ensures
        -1 <= find_last(s, c) < s.len(),
        find_last(s, c) >= 0 ==> s[find_last(s, c)] == c,
    decreases s.len(),
{
    if s.len() > 0 && s.last() != c {
        lemma_find_last(s.drop_last(), c);
    }
}

/// An endpoint that is put together is taken apart again: a host, a port behind a colon and a
/// path that starts with a slash; the port is 443 where none is given, and the path a slash
/// alone where nothing follows the host.
pub proof fn law_target_read_back(host: Seq<char>, port: u16, path: Seq<char>)
    requires
        !host.contains('/'),
        path.len() > 0,
        path[0] == '/',
    ensures
        ({
            let authority = host.push(':') + decimal(port as nat);
            let uri = "https://"@ + authority + path;
            target_of(uri) == Ok::<TargetModel, UsageError<Seq<char>>>(
                TargetModel { uri, host, authority, path, port },
            )
        }),
        ({
            let authority = host.push(':') + decimal(port as nat);
            let uri = "https://"@ + authority;
            target_of(uri) == Ok::<TargetModel, UsageError<Seq<char>>>(
                TargetModel { uri, host, authority, path: seq!['/'], port },
            )
        }),
        !host.contains(':') ==> target_of("https://"@ + host + path) == Ok::<
            TargetModel,
            UsageError<Seq<char>>,
        >(
            TargetModel {
                uri: "https://"@ + host + path,
                host,
                authority: host,
                path,
                port: 443,
            },
        ),
{
    let digits = decimal(port as nat);
    let authority = host.push(':') + digits;
    law_printed_digits(port as nat);
    law_read_undoes_print(port as nat, u16::MAX as nat);
    assert forall|i: int| 0 <= i < authority.len() implies authority[i] != '/' by {
        if i < host.len() {
            assert(host[i] == authority[i]);
        } else if i > host.len() {
            assert(authority[i] == digits[i - host.len() - 1]);
        }
    }
    let colon = host.len() as int;
    law_last_occurrence(authority, ':');
    assert(authority[colon] == ':');
    assert forall|i: int| colon < i < authority.len() implies authority[i] != ':' by {
        assert(authority[i] == digits[i - host.len() - 1]);
    }
    assert(find_last(authority, ':') == colon);
    assert(authority.skip(colon + 1) =~= digits);
    assert(authority.take(colon) =~= host);
    lemma_endpoint(authority, path);
    lemma_endpoint(authority, Seq::empty());
    assert("https://"@ + authority + Seq::<char>::empty() =~= "https://"@ + authority);
    if !host.contains(':') {
        law_last_occurrence(host, ':');
        lemma_endpoint(host, path);
    }
}

proof fn lemma_endpoint(authority: Seq<char>, path: Seq<char>)
    requires
        !authority.contains('/'),
        path.len() > 0 ==> path[0] == '/',
    ensures
        ({
            let value = "https://"@ + authority + path;
            let rest = value.skip(8);
            &&& stands_at(value, "https://"@, 0)
            &&& authority_of(rest) == authority
            &&& path_of(rest) == if path.len() > 0 {
                path
            } else {
                seq!['/']
            }
        }),
{
    reveal_strlit("https://");
    let value = "https://"@ + authority + path;
    let rest = value.skip(8);
    assert(value.subrange(0, 8) =~= "https://"@);
    assert(rest =~= authority + path);
    let n = authority.len() as int;
    lemma_find(rest, '/');
    if path.len() > 0 {
        assert(rest[n] == '/');
        assert(rest.take(n) =~= authority);
        law_first_occurrence(rest, '/', n);
        assert(rest.skip(n) =~= path);
    } else {
        assert(rest =~= authority);
        assert(rest.take(n) =~= authority);
    }
}

/// What is refused: a value that does not start with the scheme, and a port, behind the last
/// colon before the path, that is no number of sixteen bits.
pub proof fn law_target_refused(value: Seq<char>, authority: Seq<char>, path: Seq<char>, colon: int)
    requires
        !authority.contains('/'),
        path.len() > 0 ==> path[0] == '/',
    ensures
        target_of(value) == Err::<TargetModel, UsageError<Seq<char>>>(UsageError::TargetScheme)
            <==> !(value.len() >= 8 && value.take(8) == "https://"@),
        0 <= colon < authority.len() && authority[colon] == ':' && !authority.skip(
            colon + 1,
        ).contains(':') && unsigned_number(authority.skip(colon + 1), 0xffff) is None ==> target_of(
            "https://"@ + authority + path,
        ) == Err::<TargetModel, UsageError<Seq<char>>>(
            UsageError::TargetPort("https://"@ + authority + path),
        ),
{
    reveal_strlit("https://");
    if value.len() >= 8 {
        assert(value.take(8) =~= value.subrange(0, 8));
    }
    if 0 <= colon < authority.len() && authority[colon] == ':' && !authority.skip(
        colon + 1,
    ).contains(':') {
        law_last_occurrence(authority, ':');
        let last = find_last(authority, ':');
        if last > colon {
            assert(authority.skip(colon + 1)[last - colon - 1] == ':');
        }
        assert(last == colon);
        lemma_endpoint(authority, path);
    }
}

} // verus!
