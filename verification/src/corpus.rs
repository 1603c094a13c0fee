//! What requests carry: the payloads of a corpus, or bytes of a given number.
use vstd::arithmetic::div_mod::*;
use vstd::prelude::*;

verus! {

/// Why a JSON text cannot be read.
#[verifier::external_type_specification]
#[verifier::external_body]
pub struct ExJsonError(serde_json::Error);

/// The texts of the elements of the JSON array that `data` holds, each without the
/// white space around it; none where `data` is not read as such an array.
pub uninterp spec fn raw_values(data: Seq<u8>) -> Option<Seq<Seq<u8>>>;

/// `serde_json::from_slice` into boxed raw values: the text of each element of the
/// array that `data` holds. What counts as JSON, and where an element's text begins
/// and ends, is left unsaid; both depend on `data` alone.
#[verifier::external_body]
fn read_raw_values(data: &Vec<u8>) -> (r: Result<Vec<Vec<u8>>, serde_json::Error>)
    ensures
        match r {
            Ok(values) => raw_values(data@) == Some(values.deep_view()),
            Err(_) => raw_values(data@) is None,
        },
{
    let values: Vec<Box<serde_json::value::RawValue>> = serde_json::from_slice(data)?;
    Ok(values.iter().map(|value| value.get().as_bytes().to_vec()).collect())
}

/// Why there is no corpus.
#[derive(Debug)]
pub enum CorpusError {
    /// The file does not hold a JSON array.
    Parse(serde_json::Error),
    /// The array has no element.
    Empty,
}

/// Payloads that requests take turns with.
#[derive(Debug, Clone)]
pub struct PayloadCorpus {
    pub payloads: Vec<Vec<u8>>,
    /// Their mean length, rounded down.
    pub avg_bytes: usize,
}

/// The length of all payloads together.
pub open spec fn total_bytes(payloads: Seq<Seq<u8>>) -> nat
    decreases payloads.len(),
{
    if payloads.len() == 0 {
        0
    } else {
        total_bytes(payloads.drop_last()) + payloads.last().len()
    }
}

/// Whether `corpus` holds exactly these payloads.
pub open spec fn corpus_holds(corpus: PayloadCorpus, payloads: Seq<Seq<u8>>) -> bool {
    &&& corpus.payloads.deep_view() == payloads
    &&& payloads.len() > 0
    &&& corpus.avg_bytes == total_bytes(payloads) / payloads.len()
}

/// Makes a corpus of payloads; none without any.
pub fn corpus_of(payloads: Vec<Vec<u8>>) -> (r: Option<PayloadCorpus>)
    ensures
        match r {
            Some(corpus) => corpus_holds(corpus, payloads.deep_view()),
            None => payloads@.len() == 0,
        },
{
    let n: usize = payloads.len();
    if n == 0 {
        return None;
    }
    let ghost all = payloads.deep_view();
    let mut total: u128 = 0;
    let mut i: usize = 0;
    while i < n
        invariant
            i <= n,
            n == payloads@.len(),
            all == payloads.deep_view(),
            total == total_bytes(all.take(i as int)),
            total <= i * usize::MAX,
        decreases n - i,
    {
        assert(all.take(i + 1).drop_last() =~= all.take(i as int));
        assert(all.take(i + 1).last() == payloads@[i as int].deep_view());
        assert(payloads@[i as int].deep_view().len() == payloads@[i as int]@.len());
        assert((i + 1) * usize::MAX == i * usize::MAX + usize::MAX) by (nonlinear_arith);
        assert(i * usize::MAX <= usize::MAX * usize::MAX) by (nonlinear_arith)
            requires
                i <= usize::MAX,
        ;
        assert(usize::MAX * usize::MAX + usize::MAX <= u128::MAX) by (nonlinear_arith)
            requires
                usize::MAX <= 0xffff_ffff_ffff_ffff,
        ;
        total = total + payloads[i].len() as u128;
        i = i + 1;
    }
    assert(all.take(i as int) =~= all);
    let mean: u128 = total / n as u128;
    assert(mean <= usize::MAX) by (nonlinear_arith)
        requires
            mean == total / n as u128,
            total <= n * usize::MAX,
            n > 0,
    ;
    Some(PayloadCorpus { payloads, avg_bytes: mean as usize })
}

/// Reads the corpus that a file's bytes hold.
pub fn load_payloads(data: &Vec<u8>) -> (r: Result<PayloadCorpus, CorpusError>)
    ensures
        match r {
            Ok(corpus) => match raw_values(data@) {
                Some(values) => corpus_holds(corpus, values),
                None => false,
            },
            Err(CorpusError::Parse(_)) => raw_values(data@) is None,
            Err(CorpusError::Empty) => raw_values(data@) == Some(Seq::<Seq<u8>>::empty()),
        },
{
    match read_raw_values(data) {
        Err(e) => Err(CorpusError::Parse(e)),
        Ok(values) => {
            let ghost all = values.deep_view();
            match corpus_of(values) {
                Some(corpus) => Ok(corpus),
                None => {
                    assert(all =~= Seq::<Seq<u8>>::empty());
                    Err(CorpusError::Empty)
                },
            }
        },
    }
}

/// Which of the payloads a message of a user takes.
pub open spec fn payload_turn(user: nat, per_user: nat, message: nat, payloads: nat) -> nat {
    (user * per_user + message) % payloads
}

/// Which payload a user's message carries: messages are counted user by user, and
/// the payloads take turns.
pub fn payload_index(user: usize, per_user: usize, message: usize, payloads: usize) -> (r: usize)
    requires
        user * per_user + message <= usize::MAX,
        payloads > 0,
    ensures
        r == (user * per_user + message) % payloads as int,
        r == payload_turn(user as nat, per_user as nat, message as nat, payloads as nat),
        r < payloads,
{
    assert(0 <= user * per_user <= usize::MAX) by (nonlinear_arith)
        requires
            user * per_user + message <= usize::MAX,
            user >= 0,
            per_user >= 0,
            message >= 0,
    ;
    (user * per_user + message) % payloads
}

/// The byte that payloads of a given size are made of.
pub const FILLER: u8 = 0x42;

/// A payload of `size` bytes.
pub fn filled_payload(size: usize) -> (r: Vec<u8>)
    ensures
        r@ == Seq::new(size as nat, |i: int| FILLER),
{
    let mut out: Vec<u8> = Vec::new();
    let mut i: usize = 0;
    while i < size
        invariant
            i <= size,
            out@ == Seq::new(i as nat, |j: int| FILLER),
        decreases size - i,
    {
        out.push(FILLER);
        i = i + 1;
        assert(out@ =~= Seq::new(i as nat, |j: int| FILLER));
    }
    out
}

/// The average of a corpus is the number of bytes of all its payloads over their number, cut
/// to whole bytes.
pub proof fn law_average(corpus: PayloadCorpus, payloads: Seq<Seq<u8>>)
    requires
        corpus_holds(corpus, payloads),
    ensures
        corpus.payloads.deep_view() == payloads,
        payloads.len() > 0,
        corpus.avg_bytes * payloads.len() <= payloads.flatten_alt().len() < (corpus.avg_bytes + 1)
            * payloads.len(),
{
    lemma_total_bytes(payloads);
    let n = payloads.len() as int;
    let total = total_bytes(payloads) as int;
    let q = total / n;
    lemma_fundamental_div_mod(total, n);
    lemma_mod_bound(total, n);
    assert(n * q == q * n && (q + 1) * n == q * n + n) by (nonlinear_arith);
}

proof fn lemma_total_bytes(payloads: Seq<Seq<u8>>)
    ensures
        total_bytes(payloads) == payloads.flatten_alt().len(),
    decreases payloads.len(),
{
    if payloads.len() > 0 {
        lemma_total_bytes(payloads.drop_last());
    }
}

/// Messages take the payloads in turn: the first message of the first user takes the first
/// payload, each message of a user the one behind that of the message before, and the first
/// message of a user the one behind that of the last message of the user before; the first
/// follows the last.
pub proof fn law_payloads_take_turns(user: nat, per_user: nat, message: nat, payloads: nat)
    requires
        payloads > 0,
    ensures
        payload_turn(0, per_user, 0, payloads) == 0,
        payload_turn(user, per_user, message, payloads) < payloads,
        payload_turn(user + 1, per_user, 0, payloads) == payload_turn(
            user,
            per_user,
            per_user,
            payloads,
        ),
        ({
            let here = payload_turn(user, per_user, message, payloads);
            let next = payload_turn(user, per_user, message + 1, payloads);
            next == here + 1 || next == 0 && here == payloads - 1
        }),
{
    let x = (user * per_user + message) as int;
    let n = payloads as int;
    assert(0 * per_user == 0 && (user + 1) * per_user == user * per_user + per_user)
        by (nonlinear_arith);
    lemma_small_mod(0, payloads);
    lemma_fundamental_div_mod(x, n);
    lemma_mod_bound(x, n);
    let q = x / n;
    let r = x % n;
    if r + 1 < n {
        lemma_fundamental_div_mod_converse(x + 1, n, q, r + 1);
    } else {
        assert(n * (q + 1) == n * q + n) by (nonlinear_arith);
        lemma_fundamental_div_mod_converse(x + 1, n, q + 1, 0);
    }
}

} // verus!
