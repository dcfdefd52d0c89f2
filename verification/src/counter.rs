//! An increment-only counter of unbounded size, compared first by its number
//! of digits and then by its value. The coordinator uses it as pseudo-time.

use vstd::prelude::*;
use vstd::std_specs::cmp::{PartialEqSpecImpl, PartialOrdSpecImpl};
use vstd::std_specs::convert::FromSpecImpl;
use core::cmp::Ordering;

verus! {

/// The number of values that one digit can take.
pub open spec fn radix() -> nat {
    0x1_0000_0000_0000_0000
}

/// The number that the digits stand for, least significant digit first.
pub open spec fn digits_value(digits: Seq<u64>) -> nat
    decreases digits.len(),
{
    if digits.len() == 0 {
        0
    } else {
        digits[0] as nat + radix() * digits_value(digits.drop_first())
    }
}

/// `radix()` raised to the power `n`.
pub open spec fn radix_pow(n: nat) -> nat
    decreases n,
{
    if n == 0 {
        1
    } else {
        radix() * radix_pow((n - 1) as nat)
    }
}

/// Every digit holds the largest value a digit can take.
pub open spec fn all_max(digits: Seq<u64>) -> bool {
    forall|i: int| 0 <= i < digits.len() ==> digits[i] == u64::MAX
}

/// The digits of the next number. Digits that are all at their largest roll
/// over to zeros with a new most significant digit 1.
pub open spec fn successor(digits: Seq<u64>) -> Seq<u64>
    decreases digits.len(),
{
    if digits.len() == 0 {
        seq![1u64]
    } else if digits[0] < u64::MAX {
        digits.update(0, (digits[0] + 1) as u64)
    } else {
        seq![0u64] + successor(digits.drop_first())
    }
}

/// The order of counters: fewer digits come first; among counters with the
/// same number of digits, the smaller value comes first.
pub open spec fn precedes(a: Seq<u64>, b: Seq<u64>) -> bool {
    a.len() < b.len() || (a.len() == b.len() && digits_value(a) < digits_value(b))
}

/// The three-way comparison that `precedes` induces.
pub open spec fn compare_digits(a: Seq<u64>, b: Seq<u64>) -> Ordering {
    if precedes(a, b) {
        Ordering::Less
    } else if precedes(b, a) {
        Ordering::Greater
    } else {
        Ordering::Equal
    }
}

/// Two counters with as many digits and the same value have the same digits.
pub proof fn lemma_digits_unique(a: Seq<u64>, b: Seq<u64>)
    requires
        a.len() == b.len(),
        digits_value(a) == digits_value(b),
    ensures
        a == b,
    decreases a.len(),
{
    if a.len() > 0 {
        let ra = a.drop_first();
        let rb = b.drop_first();
        let r = radix();
        let va = digits_value(ra);
        let vb = digits_value(rb);
        assert(va == vb && a[0] == b[0]) by (nonlinear_arith)
            requires
                a[0] as nat + r * va == b[0] as nat + r * vb,
                (a[0] as nat) < r,
                (b[0] as nat) < r,
        ;
        lemma_digits_unique(ra, rb);
        assert(a =~= seq![a[0]] + ra);
        assert(b =~= seq![b[0]] + rb);
    } else {
        assert(a =~= b);
    }
}

/// Appending a most significant digit adds that digit times the weight of
/// its place.
pub proof fn lemma_value_push(digits: Seq<u64>, top: u64)
    ensures
        digits_value(digits.push(top)) == digits_value(digits) + top as nat * radix_pow(
            digits.len(),
        ),
    decreases digits.len(),
{
    let r = radix();
    if digits.len() == 0 {
        assert(digits.push(top).drop_first() =~= Seq::<u64>::empty());
        assert(digits_value(digits.push(top)) == top as nat + r * digits_value(
            Seq::<u64>::empty(),
        ));
        assert(top as nat * 1 == top as nat) by (nonlinear_arith);
    } else {
        let rest = digits.drop_first();
        lemma_value_push(rest, top);
        assert(digits.push(top).drop_first() =~= rest.push(top));
        let v = digits_value(rest);
        let p = radix_pow(rest.len());
        assert(radix_pow(digits.len()) == r * p);
        assert(r * (v + top as nat * p) == r * v + top as nat * (r * p)) by (nonlinear_arith);
    }
}

/// Replacing one digit changes the value by the difference of the two
/// digits times the weight of the place.
pub proof fn lemma_value_update(digits: Seq<u64>, i: int, d: u64)
    requires
        0 <= i < digits.len(),
    ensures
        digits_value(digits.update(i, d)) + digits[i] as nat * radix_pow(i as nat)
            == digits_value(digits) + d as nat * radix_pow(i as nat),
    decreases digits.len(),
{
    let r = radix();
    let rest = digits.drop_first();
    if i == 0 {
        assert(digits.update(0, d).drop_first() =~= rest);
        assert(d as nat * 1 == d as nat) by (nonlinear_arith);
        assert(digits[0] as nat * 1 == digits[0] as nat) by (nonlinear_arith);
    } else {
        lemma_value_update(rest, i - 1, d);
        assert(digits.update(i, d).drop_first() =~= rest.update(i - 1, d));
        let p = radix_pow((i - 1) as nat);
        assert(radix_pow(i as nat) == r * p);
        let v1 = digits_value(rest.update(i - 1, d));
        let v0 = digits_value(rest);
        let x = digits[i] as nat;
        assert(rest[i - 1] == digits[i]);
        assert(r * v1 + x * (r * p) == r * v0 + d as nat * (r * p)) by (nonlinear_arith)
            requires
                v1 + x * p == v0 + d as nat * p,
        ;
    }
}

/// Among counters with as many digits, the one that is smaller at the most
/// significant digit in which they differ has the smaller value.
pub proof fn lemma_value_decided_at(a: Seq<u64>, b: Seq<u64>, i: int)
    requires
        a.len() == b.len(),
        0 <= i < a.len(),
        a[i] < b[i],
        forall|j: int| i < j < a.len() ==> a[j] == b[j],
    ensures
        digits_value(a) < digits_value(b),
    decreases a.len(),
{
    let r = radix();
    let ra = a.drop_first();
    let rb = b.drop_first();
    if i == 0 {
        assert(ra =~= rb);
    } else {
        assert(ra[i - 1] == a[i] && rb[i - 1] == b[i]);
        assert forall|j: int| i - 1 < j < ra.len() implies ra[j] == rb[j] by {
            assert(ra[j] == a[j + 1] && rb[j] == b[j + 1]);
        }
        lemma_value_decided_at(ra, rb, i - 1);
        let va = digits_value(ra);
        let vb = digits_value(rb);
        assert(r * va + r <= r * vb) by (nonlinear_arith)
            requires
                va + 1 <= vb,
        ;
    }
}

/// No counter comes before itself.
pub proof fn lemma_precedes_irreflexive(a: Seq<u64>)
    ensures
        !precedes(a, a),
{
}

/// The order of counters is transitive.
pub proof fn lemma_precedes_transitive(a: Seq<u64>, b: Seq<u64>, c: Seq<u64>)
    requires
        precedes(a, b),
        precedes(b, c),
    ensures
        precedes(a, c),
{
}

/// Of two different counters, one comes before the other.
pub proof fn lemma_precedes_total(a: Seq<u64>, b: Seq<u64>)
    ensures
        a == b || precedes(a, b) || precedes(b, a),
        !(precedes(a, b) && precedes(b, a)),
{
    if !precedes(a, b) && !precedes(b, a) {
        lemma_digits_unique(a, b);
    }
}

/// The successor stands for the value plus one; it is one digit longer when
/// all digits were at their largest, and as long as before otherwise.
pub proof fn lemma_successor(digits: Seq<u64>)
    ensures
        digits_value(successor(digits)) == digits_value(digits) + 1,
        successor(digits).len() == digits.len() + if all_max(digits) {
            1nat
        } else {
            0nat
        },
        precedes(digits, successor(digits)),
    decreases digits.len(),
{
    let r = radix();
    if digits.len() == 0 {
        assert(seq![1u64].drop_first() =~= Seq::<u64>::empty());
        assert(digits_value(seq![1u64]) == 1 + r * digits_value(Seq::<u64>::empty()));
    } else if digits[0] < u64::MAX {
        assert(successor(digits).drop_first() =~= digits.drop_first());
        assert(!all_max(digits));
    } else {
        let rest = digits.drop_first();
        lemma_successor(rest);
        let next = seq![0u64] + successor(rest);
        assert(next.drop_first() =~= successor(rest));
        assert(next[0] == 0);
        let v = digits_value(rest);
        assert(r * (v + 1) == r * v + r) by (nonlinear_arith);
        if all_max(rest) {
            assert forall|i: int| 0 <= i < digits.len() implies digits[i] == u64::MAX by {
                if i > 0 {
                    assert(digits[i] == rest[i - 1]);
                }
            }
        } else {
            let j = choose|j: int| 0 <= j < rest.len() && rest[j] != u64::MAX;
            assert(digits[j + 1] == rest[j]);
        }
    }
}

/// A counter: a number of unbounded size that can only grow by one.
#[derive(Debug)]
pub struct Counter {
    digits: Vec<u64>,
}

impl View for Counter {
    type V = Seq<u64>;

    /// The digits of the counter, least significant first.
    closed spec fn view(&self) -> Seq<u64> {
        self.digits@
    }
}

impl Counter {
    /// The number that the counter holds.
    pub open spec fn value(&self) -> nat {
        digits_value(self@)
    }

    /// The digits of the counter, least significant first.
    pub fn digits(&self) -> (digits: &Vec<u64>)
        ensures
            digits@ == self@,
    {
        &self.digits
    }

    /// Add one to the counter. A counter whose digits are all at their
    /// largest gains a digit; any other keeps its number of digits.
    pub fn increment(&mut self)
        ensures
            final(self).value() == old(self).value() + 1,
            final(self)@.len() == old(self)@.len() + if all_max(old(self)@) {
                1nat
            } else {
                0nat
            },
            precedes(old(self)@, final(self)@),
            final(self)@ == successor(old(self)@),
    {
        let ghost before = self.digits@;
        proof {
            lemma_successor(before);
        }
        let n: usize = self.digits.len();
        let mut i: usize = 0;
        while i < n
            invariant
                i <= n,
                before == old(self)@,
                n == before.len(),
                self.digits@.len() == n,
                forall|j: int| 0 <= j < i ==> before[j] == u64::MAX,
                forall|j: int| i <= j < n ==> self.digits@[j] == before[j],
                digits_value(self.digits@) + radix_pow(i as nat) == digits_value(before) + 1,
            decreases n - i,
        {
            let digit: u64 = self.digits[i];
            let ghost current = self.digits@;
            proof {
                assert(radix_pow((i + 1) as nat) == radix() * radix_pow(i as nat));
            }
            if digit < u64::MAX {
                self.digits.set(i, digit + 1);
                proof {
                    lemma_value_update(current, i as int, (digit + 1) as u64);
                    let p = radix_pow(i as nat);
                    assert((digit + 1) as nat * p == digit as nat * p + p) by (nonlinear_arith);
                    assert(current[i as int] == digit);
                    assert(before[i as int] != u64::MAX);
                    assert(!all_max(before));
                    assert(digits_value(self.digits@) == digits_value(before) + 1);
                    lemma_successor(before);
                    lemma_digits_unique(self.digits@, successor(before));
                }
                return ;
            }
            self.digits.set(i, 0);
            proof {
                lemma_value_update(current, i as int, 0u64);
                let p = radix_pow(i as nat);
                assert(0 * p == 0) by (nonlinear_arith);
                assert(radix() * p == digit as nat * p + p) by (nonlinear_arith)
                    requires
                        digit == u64::MAX,
                ;
            }
            i += 1;
        }
        let ghost current = self.digits@;
        self.digits.push(1);
        proof {
            lemma_value_push(current, 1u64);
            let p = radix_pow(n as nat);
            assert(1 * p == p) by (nonlinear_arith);
            assert(all_max(before));
            assert(digits_value(self.digits@) == digits_value(before) + 1);
            lemma_digits_unique(self.digits@, successor(before));
        }
    }
}

impl Default for Counter {
    /// The counter at its start: the single digit 0.
    fn default() -> (counter: Counter)
        ensures
            counter@ == seq![0u64],
    {
        let mut digits: Vec<u64> = Vec::with_capacity(1);
        digits.push(0);
        assert(digits@ =~= seq![0u64]);
        Counter { digits }
    }
}

impl Clone for Counter {
    fn clone(&self) -> (copy: Counter)
        ensures
            copy@ == self@,
    {
        Counter { digits: self.digits.clone() }
    }
}

impl Counter {
    /// The most significant place in which two counters with as many digits
    /// differ, if there is one. Whichever is smaller there has the smaller
    /// value.
    fn leading_difference(&self, other: &Counter) -> (place: Option<usize>)
        requires
            self@.len() == other@.len(),
        ensures
            place is None <==> self@ == other@,
            place matches Some(i) ==> {
                &&& i < self@.len()
                &&& self@[i as int] != other@[i as int]
                &&& self@[i as int] < other@[i as int] ==> self.value() < other.value()
                &&& self@[i as int] > other@[i as int] ==> other.value() < self.value()
            },
    {
        let n: usize = self.digits.len();
        let mut i: usize = n;
        while i > 0
            invariant
                i <= n,
                n == self.digits@.len(),
                n == other.digits@.len(),
                forall|j: int| i <= j < n ==> self.digits@[j] == other.digits@[j],
            decreases i,
        {
            i -= 1;
            if self.digits[i] != other.digits[i] {
                proof {
                    if self.digits@[i as int] < other.digits@[i as int] {
                        lemma_value_decided_at(self.digits@, other.digits@, i as int);
                    } else {
                        lemma_value_decided_at(other.digits@, self.digits@, i as int);
                    }
                }
                return Some(i);
            }
        }
        assert(self.digits@ =~= other.digits@);
        None
    }

    /// Compare two counters: fewer digits come first, then the smaller value.
    pub fn cmp(&self, other: &Counter) -> (order: Ordering)
        ensures
            order == compare_digits(self@, other@),
    {
        if self.digits.len() < other.digits.len() {
            Ordering::Less
        } else if self.digits.len() > other.digits.len() {
            Ordering::Greater
        } else {
            match self.leading_difference(other) {
                Some(i) => {
                    if self.digits[i] < other.digits[i] {
                        Ordering::Less
                    } else {
                        Ordering::Greater
                    }
                },
                None => Ordering::Equal,
            }
        }
    }

    /// The comparison is `Equal` exactly for counters with the same digits.
    pub proof fn lemma_equal_iff_same_digits(a: Seq<u64>, b: Seq<u64>)
        ensures
            compare_digits(a, b) == Ordering::Equal <==> a == b,
    {
        if compare_digits(a, b) == Ordering::Equal {
            lemma_digits_unique(a, b);
        }
    }
}

impl PartialEq for Counter {
    fn eq(&self, other: &Counter) -> (equal: bool) {
        if self.digits.len() != other.digits.len() {
            false
        } else {
            self.leading_difference(other).is_none()
        }
    }
}

impl PartialEqSpecImpl for Counter {
    open spec fn obeys_eq_spec() -> bool {
        true
    }

    /// Two counters are equal when they have the same digits.
    open spec fn eq_spec(&self, other: &Counter) -> bool {
        self@ == other@
    }
}

impl Eq for Counter {

}

impl PartialOrd for Counter {
    fn partial_cmp(&self, other: &Counter) -> (order: Option<Ordering>) {
        Some(self.cmp(other))
    }
}

impl PartialOrdSpecImpl for Counter {
    open spec fn obeys_partial_cmp_spec() -> bool {
        true
    }

    /// Every two counters are comparable, in the order of `compare_digits`.
    open spec fn partial_cmp_spec(&self, other: &Counter) -> Option<Ordering> {
        Some(compare_digits(self@, other@))
    }
}

impl From<Vec<u64>> for Counter {
    fn from(digits: Vec<u64>) -> (counter: Counter)
        ensures
            counter@ == digits@,
    {
        Counter { digits }
    }
}

impl FromSpecImpl<Vec<u64>> for Counter {
    open spec fn obeys_from_spec() -> bool {
        true
    }

    /// The counter whose digits, least significant first, are those given.
    closed spec fn from_spec(digits: Vec<u64>) -> Counter {
        Counter { digits }
    }
}

} // verus!
