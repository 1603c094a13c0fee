//! A cursor over all combinations of choices, the last choice turning fastest.
use vstd::arithmetic::div_mod::*;
use vstd::prelude::*;

verus! {

/// How many combinations there are where place `i` offers `radices[i]` choices.
pub open spec fn combinations(radices: Seq<usize>) -> nat
    decreases radices.len(),
{
    if radices.len() == 0 {
        1
    } else {
        combinations(radices.drop_last()) * radices.last() as nat
    }
}

/// Whether `digits` make a choice at every place.
pub open spec fn in_radices(digits: Seq<usize>, radices: Seq<usize>) -> bool {
    &&& digits.len() == radices.len()
    &&& forall|i: int| 0 <= i < digits.len() ==> #[trigger] digits[i] < radices[i]
}

/// How many combinations come before `digits`.
pub open spec fn place(digits: Seq<usize>, radices: Seq<usize>) -> nat
    decreases digits.len(),
{
    if digits.len() == 0 {
        0
    } else {
        place(digits.drop_last(), radices.drop_last()) * radices.last() as nat
            + digits.last() as nat
    }
}

/// The combination that `position` others come before.
pub open spec fn digits_at(radices: Seq<usize>, position: nat) -> Seq<usize>
    decreases radices.len(),
{
    if radices.len() == 0 {
        seq![]
    } else {
        let r = radices.last() as nat;
        digits_at(radices.drop_last(), position / r).push((position % r) as usize)
    }
}

/// Whether every place offers a choice.
pub open spec fn all_positive(radices: Seq<usize>) -> bool {
    forall|i: int| 0 <= i < radices.len() ==> #[trigger] radices[i] > 0
}

proof fn lemma_prefix(digits: Seq<usize>, radices: Seq<usize>)
    requires
        in_radices(digits, radices),
        digits.len() > 0,
    ensures
        in_radices(digits.drop_last(), radices.drop_last()),
        digits.last() < radices.last(),
{
    let d = digits.drop_last();
    let r = radices.drop_last();
    assert forall|i: int| 0 <= i < d.len() implies #[trigger] d[i] < r[i] by {
        assert(d[i] == digits[i]);
    }
    assert(digits[digits.len() - 1] < radices[digits.len() - 1]);
}

/// Every combination has a position of its own: it is found again there, and it
/// is one of those that there are.
pub proof fn law_place(digits: Seq<usize>, radices: Seq<usize>)
    requires
        in_radices(digits, radices),
    ensures
        place(digits, radices) < combinations(radices),
        digits_at(radices, place(digits, radices)) == digits,
    decreases digits.len(),
{
    if digits.len() > 0 {
        lemma_prefix(digits, radices);
        let d = digits.drop_last();
        let r = radices.drop_last();
        law_place(d, r);
        let p = place(d, r);
        let m = radices.last() as nat;
        let x = digits.last() as nat;
        let c = combinations(r);
        assert(p * m + x < c * m) by (nonlinear_arith)
            requires
                p + 1 <= c,
                x < m,
        ;
        lemma_fundamental_div_mod_converse((p * m + x) as int, m as int, p as int, x as int);
        assert(digits_at(radices, place(digits, radices)) =~= digits);
    }
}

/// Every position before the last holds a combination, which is at that position.
pub proof fn law_digits_at(radices: Seq<usize>, position: nat)
    requires
        position < combinations(radices),
    ensures
        in_radices(digits_at(radices, position), radices),
        place(digits_at(radices, position), radices) == position,
    decreases radices.len(),
{
    if radices.len() > 0 {
        let r = radices.drop_last();
        let m = radices.last() as nat;
        let c = combinations(r);
        if m == 0 {
            assert(c * m == 0) by (nonlinear_arith)
                requires
                    m == 0,
            ;
        }
        lemma_fundamental_div_mod(position as int, m as int);
        assert(position / m < c) by (nonlinear_arith)
            requires
                position < c * m,
                m > 0,
        ;
        law_digits_at(r, position / m);
        let d = digits_at(radices, position);
        let head = digits_at(r, position / m);
        assert(d.drop_last() =~= head);
        assert forall|i: int| 0 <= i < d.len() implies #[trigger] d[i] < radices[i] by {
            if i < head.len() {
                assert(d[i] == head[i]);
                assert(r[i] == radices[i]);
            }
        }
        assert(place(d, radices) == position) by (nonlinear_arith)
            requires
                place(d, radices) == (position / m) * m + position % m,
                position == m * (position / m) + position % m,
        ;
    }
}

/// Combinations are in dictionary order: of two that agree up to a place, the one
/// with the smaller choice there comes first.
pub proof fn law_dictionary_order(a: Seq<usize>, b: Seq<usize>, radices: Seq<usize>, k: int)
    requires
        in_radices(a, radices),
        in_radices(b, radices),
        0 <= k < radices.len(),
        forall|i: int| 0 <= i < k ==> a[i] == b[i],
        a[k] < b[k],
    ensures
        place(a, radices) < place(b, radices),
    decreases radices.len(),
{
    lemma_prefix(a, radices);
    lemma_prefix(b, radices);
    let r = radices.drop_last();
    let m = radices.last() as nat;
    let x = a.drop_last();
    let y = b.drop_last();
    if k == radices.len() - 1 {
        assert(x =~= y);
    } else {
        law_dictionary_order(x, y, r, k);
        let p = place(x, r);
        let q = place(y, r);
        assert(p * m + a.last() < q * m + b.last()) by (nonlinear_arith)
            requires
                p + 1 <= q,
                a.last() < m,
                b.last() >= 0,
        ;
    }
}

proof fn lemma_carry(a: Seq<usize>, b: Seq<usize>, radices: Seq<usize>, k: int)
    requires
        a.len() == radices.len(),
        b.len() == radices.len(),
        0 <= k < radices.len(),
        forall|i: int| 0 <= i < k ==> a[i] == b[i],
        b[k] == a[k] + 1,
        forall|i: int| k < i < radices.len() ==> a[i] + 1 == #[trigger] radices[i] && b[i] == 0,
    ensures
        place(b, radices) == place(a, radices) + 1,
    decreases radices.len(),
{
    let r = radices.drop_last();
    let x = a.drop_last();
    let y = b.drop_last();
    if k == radices.len() - 1 {
        assert(x =~= y);
    } else {
        assert forall|i: int| k < i < r.len() implies x[i] + 1 == #[trigger] r[i] && y[i] == 0 by {
            assert(r[i] == radices[i]);
        }
        lemma_carry(x, y, r, k);
        assert(radices[radices.len() - 1] == a.last() + 1);
        let p = place(x, r);
        let m = radices.last() as nat;
        assert((p + 1) * m == p * m + (m - 1) + 1) by (nonlinear_arith);
    }
}

proof fn lemma_full(a: Seq<usize>, radices: Seq<usize>)
    requires
        a.len() == radices.len(),
        forall|i: int| 0 <= i < radices.len() ==> a[i] + 1 == #[trigger] radices[i],
    ensures
        place(a, radices) + 1 == combinations(radices),
    decreases radices.len(),
{
    if radices.len() > 0 {
        let r = radices.drop_last();
        let x = a.drop_last();
        assert forall|i: int| 0 <= i < r.len() implies x[i] + 1 == #[trigger] r[i] by {
            assert(r[i] == radices[i]);
        }
        lemma_full(x, r);
        assert(radices[radices.len() - 1] == a.last() + 1);
        let p = place(x, r);
        let m = radices.last() as nat;
        assert(p * m + (m - 1) + 1 == (p + 1) * m) by (nonlinear_arith);
    }
}

proof fn lemma_zeros(zeros: Seq<usize>, radices: Seq<usize>)
    requires
        zeros.len() == radices.len(),
        forall|i: int| 0 <= i < zeros.len() ==> #[trigger] zeros[i] == 0,
    ensures
        place(zeros, radices) == 0,
    decreases radices.len(),
{
    if radices.len() > 0 {
        let z = zeros.drop_last();
        assert forall|i: int| 0 <= i < z.len() implies #[trigger] z[i] == 0 by {
            assert(z[i] == zeros[i]);
        }
        lemma_zeros(z, radices.drop_last());
        assert(zeros[zeros.len() - 1] == 0);
        let m = radices.last() as nat;
        assert(0 * m == 0);
    }
}

/// A combination of choices.
#[derive(Debug)]
pub struct Odometer {
    radices: Vec<usize>,
    digits: Vec<usize>,
}

impl Odometer {
    #[verifier::type_invariant]
    spec fn valid(self) -> bool {
        in_radices(self.digits@, self.radices@)
    }

    /// How many choices each place offers.
    pub closed spec fn radices(self) -> Seq<usize> {
        self.radices@
    }

    /// The choices.
    pub closed spec fn digits(self) -> Seq<usize> {
        self.digits@
    }

    /// How many combinations come before this one.
    pub open spec fn position(self) -> nat {
        place(self.digits(), self.radices())
    }

    /// The first combination.
    pub fn start(radices: Vec<usize>) -> (r: Odometer)
        requires
            all_positive(radices@),
        ensures
            r.radices() == radices@,
            r.position() == 0,
            r.digits() == digits_at(radices@, 0),
    {
        let mut digits: Vec<usize> = Vec::new();
        let mut i: usize = 0;
        while i < radices.len()
            invariant
                i <= radices@.len(),
                digits@.len() == i,
                forall|j: int| 0 <= j < i ==> #[trigger] digits@[j] == 0,
            decreases radices@.len() - i,
        {
            digits.push(0);
            i = i + 1;
        }
        proof {
            assert forall|j: int| 0 <= j < digits@.len() implies #[trigger] digits@[j]
                < radices@[j] by {}
            lemma_zeros(digits@, radices@);
            law_place(digits@, radices@);
        }
        Odometer { radices, digits }
    }

    /// The choice at a place.
    pub fn digit(&self, i: usize) -> (r: usize)
        requires
            i < self.radices().len(),
        ensures
            r == self.digits()[i as int],
            r == digits_at(self.radices(), self.position())[i as int],
            r < self.radices()[i as int],
    {
        proof {
            use_type_invariant(self);
            law_place(self.digits@, self.radices@);
        }
        self.digits[i]
    }

    /// Goes on to the next combination; false, and back at the first one, where
    /// there is none.
    pub fn advance(&mut self) -> (r: bool)
        ensures
            final(self).radices() == old(self).radices(),
            r == (old(self).position() + 1 < combinations(old(self).radices())),
            final(self).position() == if r {
                old(self).position() + 1
            } else {
                0
            },
            final(self).digits() == digits_at(final(self).radices(), final(self).position()),
    {
        proof {
            use_type_invariant(&*self);
        }
        let ghost before = self.digits@;
        let ghost radices = self.radices@;
        let mut digits: Vec<usize> = Vec::new();
        let mut n: usize = 0;
        while n < self.digits.len()
            invariant
                n <= self.digits@.len(),
                self.digits@ == before,
                digits@ == before.take(n as int),
            decreases self.digits@.len() - n,
        {
            digits.push(self.digits[n]);
            n = n + 1;
            assert(digits@ =~= before.take(n as int));
        }
        assert(digits@ =~= before);
        let mut i: usize = digits.len();
        while i > 0
            invariant
                i <= digits@.len(),
                in_radices(before, radices),
                self.radices@ == radices,
                self.digits@ == before,
                old(self).digits@ == before,
                old(self).radices@ == radices,
                digits@.len() == before.len(),
                forall|j: int| 0 <= j < i ==> #[trigger] digits@[j] == before[j],
                forall|j: int| i <= j < before.len() ==> #[trigger] digits@[j] == 0,
                forall|j: int| i <= j < before.len() ==> before[j] + 1 == #[trigger] radices[j],
            decreases i,
        {
            i = i - 1;
            let digit: usize = digits[i];
            assert(before[i as int] < radices[i as int]);
            if digit + 1 < self.radices[i] {
                digits.set(i, digit + 1);
                proof {
                    lemma_carry(before, digits@, radices, i as int);
                    assert forall|j: int| 0 <= j < digits@.len() implies #[trigger] digits@[j]
                        < radices[j] by {
                        if j < i {
                            assert(digits@[j] == before[j]);
                        } else if j > i {
                            assert(before[j] < radices[j]);
                        }
                    }
                    law_place(digits@, radices);
                }
                self.digits = digits;
                return true;
            }
            digits.set(i, 0);
        }
        proof {
            lemma_full(before, radices);
            lemma_zeros(digits@, radices);
            assert forall|j: int| 0 <= j < digits@.len() implies #[trigger] digits@[j]
                < radices[j] by {
                assert(before[j] < radices[j]);
            }
            law_place(digits@, radices);
        }
        self.digits = digits;
        false
    }
}

} // verus!
