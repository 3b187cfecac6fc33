use vstd::prelude::*;
use vstd::arithmetic::mul::{
    lemma_mul_inequality, lemma_mul_is_distributive_add, lemma_mul_is_distributive_sub,
    lemma_mul_is_associative, lemma_mul_is_commutative,
};
use vstd::arithmetic::power::{lemma_pow_positive, lemma_pow_increases, pow};

verus! {

/// The value of a little-endian sequence of base-2^64 digits.
pub open spec fn digits_value(s: Seq<u64>) -> nat
    decreases s.len(),
{
    if s.len() == 0 {
        0nat
    } else {
        (s[0] + digits_value(s.drop_first()) * 0x1_0000_0000_0000_0000) as nat
    }
}

/// Canonical form: no trailing (most significant) zero digit.
pub open spec fn canonical(s: Seq<u64>) -> bool {
    s.len() == 0 || s.last() != 0
}

/// A single digit's value is that digit.
pub proof fn lemma_value_singleton(x: u64)
    ensures
        digits_value(seq![x]) == x,
{
    let s = seq![x];
    assert(s.len() == 1);
    assert(s[0] == x);
    assert(s.drop_first() =~= Seq::<u64>::empty());
    assert(digits_value(Seq::<u64>::empty()) == 0);
    assert(digits_value(s) == (s[0] + digits_value(s.drop_first()) * 0x1_0000_0000_0000_0000)
        as nat);
}

/// Dropping a most-significant zero digit does not change the value.
pub proof fn lemma_value_drop_last_zero(s: Seq<u64>)
    requires
        s.len() > 0,
        s.last() == 0,
    ensures
        digits_value(s) == digits_value(s.drop_last()),
    decreases s.len(),
{
    if s.len() == 1 {
        assert(s.drop_last() =~= Seq::<u64>::empty());
        assert(s.drop_first() =~= Seq::<u64>::empty());
        assert(digits_value(Seq::<u64>::empty()) == 0);
        assert(s[0] == s.last());
    } else {
        let d = s.drop_first();
        assert(d.last() == s.last());
        lemma_value_drop_last_zero(d);
        assert(s.drop_last().drop_first() =~= d.drop_last());
        assert(s.drop_last()[0] == s[0]);
        assert(digits_value(s.drop_last()) == s[0] + digits_value(d.drop_last())
            * 0x1_0000_0000_0000_0000);
    }
}

/// A number of `n` digits is below 2^64 to the `n`.
pub proof fn lemma_value_upper(s: Seq<u64>)
    ensures
        digits_value(s) < pow(0x1_0000_0000_0000_0000, s.len()),
    decreases s.len(),
{
    let b: int = 0x1_0000_0000_0000_0000;
    reveal(pow);
    if s.len() == 0 {
    } else {
        let d = s.drop_first();
        lemma_value_upper(d);
        assert(pow(b, s.len()) == b * pow(b, d.len()));
        lemma_mul_inequality(digits_value(d) as int, pow(b, d.len()) - 1, b);
        lemma_mul_is_commutative(digits_value(d) as int, b);
        lemma_mul_is_distributive_sub(b, pow(b, d.len()), 1);
    }
}

/// A nonempty canonical number of `n` digits is at least 2^64 to the `n - 1`.
pub proof fn lemma_value_lower(s: Seq<u64>)
    requires
        canonical(s),
        s.len() > 0,
    ensures
        digits_value(s) >= pow(0x1_0000_0000_0000_0000, (s.len() - 1) as nat),
    decreases s.len(),
{
    let b: int = 0x1_0000_0000_0000_0000;
    reveal(pow);
    if s.len() == 1 {
        assert(s.drop_first() =~= Seq::<u64>::empty());
        assert(pow(b, 0) == 1);
    } else {
        let d = s.drop_first();
        assert(d.last() == s.last());
        lemma_value_lower(d);
        assert(pow(b, (s.len() - 1) as nat) == b * pow(b, (d.len() - 1) as nat));
        lemma_mul_inequality(pow(b, (d.len() - 1) as nat), digits_value(d) as int, b);
        lemma_mul_is_commutative(pow(b, (d.len() - 1) as nat), b);
        lemma_mul_is_commutative(digits_value(d) as int, b);
    }
}

/// Of two canonical numbers, the one with fewer digits is smaller.
pub proof fn lemma_fewer_digits_smaller(a: Seq<u64>, b: Seq<u64>)
    requires
        canonical(a),
        canonical(b),
        a.len() < b.len(),
    ensures
        digits_value(a) < digits_value(b),
{
    let base: int = 0x1_0000_0000_0000_0000;
    lemma_value_upper(a);
    lemma_value_lower(b);
    lemma_pow_increases(0x1_0000_0000_0000_0000nat, a.len(), (b.len() - 1) as nat);
}

/// The value splits at any position `k`: low digits plus the high digits
/// scaled by 2^64 to the `k`.
pub proof fn lemma_value_split(s: Seq<u64>, k: int)
    requires
        0 <= k <= s.len(),
    ensures
        digits_value(s) == digits_value(s.take(k)) + pow(0x1_0000_0000_0000_0000, k as nat)
            * digits_value(s.skip(k)),
    decreases k,
{
    let b: int = 0x1_0000_0000_0000_0000;
    reveal(pow);
    if k == 0 {
        assert(s.take(0) =~= Seq::<u64>::empty());
        assert(s.skip(0) =~= s);
        assert(pow(b, 0) == 1);
        assert(1 * digits_value(s) == digits_value(s));
    } else {
        let d = s.drop_first();
        lemma_value_split(d, k - 1);
        assert(s.take(k).drop_first() =~= d.take(k - 1));
        assert(s.take(k)[0] == s[0]);
        assert(s.skip(k) =~= d.skip(k - 1));
        let low = digits_value(d.take(k - 1)) as int;
        let high = digits_value(d.skip(k - 1)) as int;
        let p1 = pow(b, (k - 1) as nat);
        assert(digits_value(d) == low + p1 * high);
        assert(digits_value(s) == s[0] + (low + p1 * high) * b);
        lemma_mul_is_distributive_add(b, low, p1 * high);
        lemma_mul_is_commutative(low + p1 * high, b);
        lemma_mul_is_commutative(low, b);
        assert(digits_value(s.take(k)) == s[0] + low * b);
        assert(pow(b, k as nat) == b * p1);
        lemma_mul_is_associative(b, p1, high);
        lemma_mul_is_commutative(b, p1 * high);
    }
}

/// Appending a digit raises the value by that digit at its place.
pub proof fn lemma_value_push(s: Seq<u64>, x: u64)
    ensures
        digits_value(s.push(x)) == digits_value(s) + pow(0x1_0000_0000_0000_0000, s.len()) * x,
{
    let t = s.push(x);
    lemma_value_split(t, s.len() as int);
    assert(t.take(s.len() as int) =~= s);
    assert(t.skip(s.len() as int) =~= seq![x]);
    lemma_value_singleton(x);
}

/// If two equally long numbers agree above position `j` and differ at `j`,
/// the one with the smaller digit there is smaller.
pub proof fn lemma_msb_compare(a: Seq<u64>, b: Seq<u64>, j: int)
    requires
        a.len() == b.len(),
        0 <= j < a.len(),
        forall|i: int| j < i < a.len() ==> a[i] == b[i],
        a[j] < b[j],
    ensures
        digits_value(a) < digits_value(b),
{
    let base: int = 0x1_0000_0000_0000_0000;
    reveal(pow);
    lemma_value_split(a, j);
    lemma_value_split(b, j);
    let pj = pow(base, j as nat);
    lemma_pow_positive(base, j as nat);
    assert(a.skip(j).drop_first() =~= b.skip(j).drop_first()) by {
        assert(forall|i: int|
            0 <= i < a.skip(j).drop_first().len() ==> a.skip(j).drop_first()[i] == a[j + 1 + i]
                && b.skip(j).drop_first()[i] == b[j + 1 + i]);
    }
    let t = digits_value(a.skip(j).drop_first());
    assert(digits_value(a.skip(j)) == a[j] + t * base);
    assert(digits_value(b.skip(j)) == b[j] + t * base);
    lemma_value_upper(a.take(j));
    assert(a.take(j).len() == j);
    // value(b) - value(a) >= pj * (b[j] - a[j]) - value(a.take(j)) > 0
    lemma_mul_is_distributive_sub(pj, digits_value(b.skip(j)) as int, digits_value(a.skip(j)) as int);
    lemma_mul_inequality(1, digits_value(b.skip(j)) - digits_value(a.skip(j)), pj);
    lemma_mul_is_commutative(digits_value(b.skip(j)) - digits_value(a.skip(j)), pj);
}

/// Two equally long digit sequences with the same value are equal.
pub proof fn lemma_equal_value_equal_digits(a: Seq<u64>, b: Seq<u64>)
    requires
        a.len() == b.len(),
        digits_value(a) == digits_value(b),
    ensures
        a == b,
    decreases a.len(),
{
    let base: int = 0x1_0000_0000_0000_0000;
    if a.len() == 0 {
        assert(a =~= b);
    } else {
        let j = a.len() - 1;
        if a[j] < b[j] {
            lemma_msb_compare(a, b, j);
        } else if b[j] < a[j] {
            lemma_msb_compare(b, a, j);
        }
        assert(a[j] == b[j]);
        lemma_value_split(a, j);
        lemma_value_split(b, j);
        assert(a.skip(j) =~= seq![a[j]]);
        assert(b.skip(j) =~= seq![b[j]]);
        lemma_value_singleton(a[j]);
        lemma_value_singleton(b[j]);
        lemma_pow_positive(base, j as nat);
        assert(digits_value(a.take(j)) == digits_value(b.take(j)));
        lemma_equal_value_equal_digits(a.take(j), b.take(j));
        assert forall|i: int| 0 <= i < a.len() implies a[i] == b[i] by {
            if i < j {
                assert(a.take(j)[i] == a[i]);
                assert(b.take(j)[i] == b[i]);
            }
        }
        assert(a =~= b);
    }
}

/// A value has exactly one canonical digit sequence.
pub proof fn lemma_canonical_unique(a: Seq<u64>, b: Seq<u64>)
    requires
        canonical(a),
        canonical(b),
        digits_value(a) == digits_value(b),
    ensures
        a == b,
{
    if a.len() < b.len() {
        lemma_fewer_digits_smaller(a, b);
    } else if b.len() < a.len() {
        lemma_fewer_digits_smaller(b, a);
    } else {
        lemma_equal_value_equal_digits(a, b);
    }
}

/// The number of nonzero digits of a sequence.
pub open spec fn nonzero_count(s: Seq<u64>) -> nat
    decreases s.len(),
{
    if s.len() == 0 {
        0nat
    } else {
        nonzero_count(s.drop_last()) + if s.last() != 0 {
            1nat
        } else {
            0nat
        }
    }
}

/// Adds two digits and a carry; the digit result and carry flag together
/// hold the exact sum: `sum + 2^64 * carry_out == a + b + carry`.
pub fn overflowing_add(a: u64, b: u64, carry: bool) -> (r: (u64, bool))
    ensures
        r.0 + 0x1_0000_0000_0000_0000 * (if r.1 {
            1int
        } else {
            0int
        }) == a + b + (if carry {
            1int
        } else {
            0int
        }),
{
    let mut sum = a.wrapping_add(b);
    let mut carry_out = false;
    if sum <= a && b > 0 && a > 0 {
        carry_out = true;
    }
    if carry {
        sum = sum.wrapping_add(1);
        if sum == 0 {
            carry_out = true;
        }
    }
    (sum, carry_out)
}

/// An unbounded natural number, stored as base-2^64 digits with the least
/// significant first and no trailing zero digit.
#[derive(Debug, Clone)]
pub struct BigInt {
    pub data: Vec<u64>,
}

impl View for BigInt {
    type V = nat;

    open spec fn view(&self) -> nat {
        digits_value(self.data@)
    }
}

impl BigInt {
    /// The stored digits are in canonical form.
    pub open spec fn wf(&self) -> bool {
        canonical(self.data@)
    }

    /// The number `x`.
    pub fn new(x: u64) -> (r: BigInt)
        ensures
            r@ == x as nat,
            r.wf(),
    {
        let mut data: Vec<u64> = Vec::new();
        if x != 0 {
            data.push(x);
            proof {
                assert(data@ =~= seq![x]);
                lemma_value_singleton(x);
            }
        } else {
            proof {
                assert(data@ =~= Seq::<u64>::empty());
            }
        }
        BigInt { data }
    }

    /// The number with the given digits, least significant first; trailing
    /// zero digits are stripped.
    pub fn from_vec(v: &Vec<u64>) -> (r: BigInt)
        ensures
            r@ == digits_value(v@),
            r.wf(),
    {
        let mut data: Vec<u64> = Vec::new();
        let mut i: usize = 0;
        while i < v.len()
            invariant
                0 <= i <= v@.len(),
                data@ == v@.take(i as int),
            decreases v@.len() - i,
        {
            data.push(v[i]);
            proof {
                assert(data@ =~= v@.take(i + 1));
            }
            i = i + 1;
        }
        proof {
            assert(v@.take(v@.len() as int) =~= v@);
        }
        while data.len() > 0 && data[data.len() - 1] == 0
            invariant
                digits_value(data@) == digits_value(v@),
            decreases data@.len(),
        {
            proof {
                lemma_value_drop_last_zero(data@);
            }
            data.pop();
        }
        BigInt { data }
    }

    /// How many digits the canonical form has.
    pub fn num_digits(&self) -> (n: usize)
        ensures
            n == self.data@.len(),
    {
        self.data.len()
    }

    /// How many of the digits are nonzero.
    pub fn num_non_zero_digits(&self) -> (n: usize)
        ensures
            n == nonzero_count(self.data@),
    {
        let mut ret: usize = 0;
        let mut i: usize = 0;
        while i < self.data.len()
            invariant
                0 <= i <= self.data@.len(),
                ret == nonzero_count(self.data@.take(i as int)),
                ret <= i,
            decreases self.data@.len() - i,
        {
            proof {
                assert(self.data@.take(i + 1).drop_last() =~= self.data@.take(i as int));
                assert(self.data@.take(i + 1).last() == self.data@[i as int]);
            }
            if self.data[i] != 0 {
                ret = ret + 1;
            }
            i = i + 1;
        }
        proof {
            assert(self.data@.take(self.data@.len() as int) =~= self.data@);
        }
        ret
    }

    /// An iterator over the digits, most significant first.
    pub fn iter<'a>(&'a self) -> (it: Iter<'a>)
        ensures
            it@ == rev_digits(self.data@, self.data@.len() as int),
            it.wf(),
    {
        Iter { nums: &self.data, idx: self.data.len() }
    }
}

/// The digits of `s` below position `idx`, read back to front: what remains
/// for an iterator that walks from most significant to least significant.
pub open spec fn rev_digits(s: Seq<u64>, idx: int) -> Seq<u64>
    decreases idx,
{
    if idx <= 0 {
        Seq::empty()
    } else {
        seq![s[idx - 1]] + rev_digits(s, idx - 1)
    }
}

/// An iterator over a number's digits, most significant first.
pub struct Iter<'a> {
    nums: &'a Vec<u64>,
    idx: usize,
}

impl<'a> Iter<'a> {
    /// The iterator's position lies within the digits.
    pub closed spec fn wf(&self) -> bool {
        self.idx <= self.nums@.len()
    }
}

impl<'a> View for Iter<'a> {
    type V = Seq<u64>;

    closed spec fn view(&self) -> Seq<u64> {
        if self.idx <= self.nums@.len() {
            rev_digits(self.nums@, self.idx as int)
        } else {
            Seq::empty()
        }
    }
}

impl<'a> Iter<'a> {
    /// The next digit, or `None` when all digits have been yielded.
    pub fn next(&mut self) -> (r: Option<&'a u64>)
        requires
            old(self).wf(),
        ensures
            final(self).wf(),
            old(self)@.len() == 0 ==> r is None && final(self)@ == old(self)@,
            old(self)@.len() > 0 ==> r == Some(&old(self)@[0]) && final(self)@ == old(
                self,
            )@.drop_first(),
    {
        proof {
            lemma_rev_digits_len(self.nums@, self.idx as int);
        }
        if self.idx == 0 {
            None
        } else {
            self.idx = self.idx - 1;
            proof {
                lemma_rev_digits_len(self.nums@, self.idx as int);
                assert(self@ =~= old(self)@.drop_first());
            }
            Some(&self.nums[self.idx])
        }
    }
}

/// The reversed prefix has as many digits as the prefix.
proof fn lemma_rev_digits_len(s: Seq<u64>, idx: int)
    ensures
        rev_digits(s, idx).len() == if idx <= 0 {
            0int
        } else {
            idx
        },
    decreases idx,
{
    if idx > 0 {
        lemma_rev_digits_len(s, idx - 1);
    }
}

} // verus!

verus! {

/// The value of a prefix: the first `i` digits, or all of them when `i`
/// runs past the end.
pub open spec fn prefix_value(s: Seq<u64>, i: int) -> nat {
    if 0 <= i <= s.len() {
        digits_value(s.take(i))
    } else if i > s.len() {
        digits_value(s)
    } else {
        0nat
    }
}

/// Taking one more digit adds that digit at its place.
proof fn lemma_prefix_step(s: Seq<u64>, i: int)
    requires
        i >= 0,
    ensures
        prefix_value(s, i + 1) == prefix_value(s, i) + pow(0x1_0000_0000_0000_0000, i as nat) * (
        if i < s.len() {
            s[i] as int
        } else {
            0int
        }),
{
    let b: int = 0x1_0000_0000_0000_0000;
    if i < s.len() {
        assert(s.take(i + 1) =~= s.take(i).push(s[i]));
        lemma_value_push(s.take(i), s[i]);
    } else {
        if i == s.len() {
            assert(s.take(i) =~= s);
        }
        assert(pow(b, i as nat) * 0 == 0) by {
            vstd::arithmetic::mul::lemma_mul_basics(pow(b, i as nat));
        }
    }
}

/// The digit sequence of the sum of two numbers, before normalization.
fn add_digits(a: &Vec<u64>, b: &Vec<u64>) -> (out: Vec<u64>)
    ensures
        digits_value(out@) == digits_value(a@) + digits_value(b@),
        canonical(out@),
{
    let alen = a.len();
    let blen = b.len();
    let max_len = if alen < blen {
        blen
    } else {
        alen
    };
    let mut out: Vec<u64> = Vec::new();
    let mut carry = false;
    let mut i: usize = 0;
    proof {
        assert(out@.take(0) =~= Seq::<u64>::empty());
        assert(a@.take(0) =~= Seq::<u64>::empty());
        assert(b@.take(0) =~= Seq::<u64>::empty());
    }
    while i < max_len
        invariant
            0 <= i <= max_len,
            alen == a@.len(),
            blen == b@.len(),
            max_len == if alen < blen {
                blen
            } else {
                alen
            },
            out@.len() == i,
            digits_value(out@) + pow(0x1_0000_0000_0000_0000, i as nat) * (if carry {
                1int
            } else {
                0int
            }) == prefix_value(a@, i as int) + prefix_value(b@, i as int),
        decreases max_len - i,
    {
        let addend1 = if i < alen {
            a[i]
        } else {
            0
        };
        let addend2 = if i < blen {
            b[i]
        } else {
            0
        };
        let (sum, new_carry) = overflowing_add(addend1, addend2, carry);
        let ghost pre = out@;
        let ghost pi = pow(0x1_0000_0000_0000_0000, i as nat);
        let ghost ci: int = if carry { 1 } else { 0 };
        let ghost ci2: int = if new_carry { 1 } else { 0 };
        out.push(sum);
        proof {
            lemma_value_push(pre, sum);
            lemma_prefix_step(a@, i as int);
            lemma_prefix_step(b@, i as int);
            let a1: int = addend1 as int;
            let a2: int = addend2 as int;
            assert(pow(0x1_0000_0000_0000_0000, (i + 1) as nat) == 0x1_0000_0000_0000_0000 * pi)
                by {
                reveal(pow);
            }
            assert(digits_value(pre) + pi * (sum as int) + (0x1_0000_0000_0000_0000 * pi) * ci2
                == digits_value(pre) + pi * ci + pi * a1 + pi * a2) by (nonlinear_arith)
                requires
                    sum + 0x1_0000_0000_0000_0000 * ci2 == a1 + a2 + ci,
            ;
        }
        carry = new_carry;
        i = i + 1;
    }
    proof {
        assert(prefix_value(a@, max_len as int) == digits_value(a@)) by {
            if max_len == a@.len() {
                assert(a@.take(max_len as int) =~= a@);
            }
        }
        assert(prefix_value(b@, max_len as int) == digits_value(b@)) by {
            if max_len == b@.len() {
                assert(b@.take(max_len as int) =~= b@);
            }
        }
    }
    if carry {
        let ghost pre = out@;
        out.push(1);
        proof {
            lemma_value_push(pre, 1u64);
            vstd::arithmetic::mul::lemma_mul_basics(pow(0x1_0000_0000_0000_0000, max_len as nat));
        }
    } else {
        proof {
            vstd::arithmetic::mul::lemma_mul_basics(pow(0x1_0000_0000_0000_0000, max_len as nat));
        }
    }
    while out.len() > 0 && out[out.len() - 1] == 0
        invariant
            digits_value(out@) == digits_value(a@) + digits_value(b@),
        decreases out@.len(),
    {
        proof {
            lemma_value_drop_last_zero(out@);
        }
        out.pop();
    }
    out
}

impl<'a, 'b> core::ops::Add<&'a BigInt> for &'b BigInt {
    type Output = BigInt;

    /// The sum of two numbers, digit by digit with carries.
    fn add(self, other: &'a BigInt) -> (r: BigInt)
        ensures
            r@ == self@ + other@,
            r.wf(),
    {
        let data = add_digits(&self.data, &other.data);
        BigInt { data }
    }
}

impl<'a, 'b> vstd::std_specs::ops::AddSpecImpl<&'a BigInt> for &'b BigInt {
    open spec fn obeys_add_spec() -> bool {
        false
    }

    open spec fn add_req(self, rhs: &'a BigInt) -> bool {
        true
    }

    open spec fn add_spec(self, rhs: &'a BigInt) -> BigInt {
        vstd::pervasive::arbitrary()
    }
}

impl core::ops::Add<BigInt> for BigInt {
    type Output = BigInt;

    /// The sum of two numbers, taken by value.
    fn add(self, other: BigInt) -> (r: BigInt)
        ensures
            r@ == self@ + other@,
            r.wf(),
    {
        let data = add_digits(&self.data, &other.data);
        BigInt { data }
    }
}

impl vstd::std_specs::ops::AddSpecImpl<BigInt> for BigInt {
    open spec fn obeys_add_spec() -> bool {
        false
    }

    open spec fn add_req(self, rhs: BigInt) -> bool {
        true
    }

    open spec fn add_spec(self, rhs: BigInt) -> BigInt {
        vstd::pervasive::arbitrary()
    }
}

impl PartialEq for BigInt {
    /// Two numbers are equal exactly when their digits are; on canonical
    /// numbers that is the same as having equal values.
    fn eq(&self, other: &Self) -> (r: bool)
        ensures
            self.wf() && other.wf() ==> r == (self@ == other@),
    {
        if self.data.len() != other.data.len() {
            proof {
                if self.wf() && other.wf() && self@ == other@ {
                    lemma_canonical_unique(self.data@, other.data@);
                }
            }
            return false;
        }
        let mut i: usize = 0;
        while i < self.data.len()
            invariant
                0 <= i <= self.data@.len(),
                self.data@.len() == other.data@.len(),
                forall|j: int| 0 <= j < i ==> self.data@[j] == other.data@[j],
            decreases self.data@.len() - i,
        {
            if self.data[i] != other.data[i] {
                proof {
                    if self.wf() && other.wf() && self@ == other@ {
                        lemma_canonical_unique(self.data@, other.data@);
                    }
                }
                return false;
            }
            i = i + 1;
        }
        proof {
            assert(self.data@ =~= other.data@);
        }
        true
    }
}

impl vstd::std_specs::cmp::PartialEqSpecImpl for BigInt {
    open spec fn obeys_eq_spec() -> bool {
        true
    }

    open spec fn eq_spec(&self, other: &Self) -> bool {
        self.data@ == other.data@
    }
}

/// A type with a least-of-two operation under some total order.
pub trait Minimum: Sized {
    /// What the comparison relies on holding of each value.
    spec fn inv(&self) -> bool;

    /// The order the minimum is taken under.
    spec fn le_spec(&self, other: &Self) -> bool;

    proof fn lemma_le_total(a: &Self, b: &Self)
        ensures
            a.le_spec(b) || b.le_spec(a),
    ;

    proof fn lemma_le_trans(a: &Self, b: &Self, c: &Self)
        requires
            a.le_spec(b),
            b.le_spec(c),
        ensures
            a.le_spec(c),
    ;

    /// The smaller of `self` and `other`, by reference.
    fn min<'a>(&'a self, other: &'a Self) -> (r: &'a Self)
        requires
            self.inv(),
            other.inv(),
        ensures
            *r == *self || *r == *other,
            r.le_spec(self),
            r.le_spec(other),
    ;
}

impl Minimum for BigInt {
    open spec fn inv(&self) -> bool {
        self.wf()
    }

    open spec fn le_spec(&self, other: &Self) -> bool {
        self@ <= other@
    }

    proof fn lemma_le_total(a: &Self, b: &Self) {
    }

    proof fn lemma_le_trans(a: &Self, b: &Self, c: &Self) {
    }

    /// The smaller number: fewer digits means smaller; with equally many
    /// digits the most significant difference decides.
    fn min<'a>(&'a self, b: &'a Self) -> (r: &'a Self) {
        if self.num_digits() < b.num_digits() {
            proof {
                lemma_fewer_digits_smaller(self.data@, b.data@);
            }
            self
        } else if b.num_digits() < self.num_digits() {
            proof {
                lemma_fewer_digits_smaller(b.data@, self.data@);
            }
            b
        } else {
            let n = self.data.len();
            let mut k = n;
            while k > 0
                invariant
                    0 <= k <= n,
                    n == self.data@.len(),
                    n == b.data@.len(),
                    forall|j: int| k <= j < n ==> self.data@[j] == b.data@[j],
                decreases k,
            {
                let j = k - 1;
                if b.data[j] < self.data[j] {
                    proof {
                        lemma_msb_compare(b.data@, self.data@, j as int);
                    }
                    return b;
                } else if self.data[j] < b.data[j] {
                    proof {
                        lemma_msb_compare(self.data@, b.data@, j as int);
                    }
                    return self;
                }
                k = j;
            }
            proof {
                assert(self.data@ =~= b.data@);
            }
            self
        }
    }
}

/// The least element of a vector, by the element type's order; `None` when
/// the vector is empty.
pub fn vec_min<T: Minimum>(v: &Vec<T>) -> (r: Option<&T>)
    requires
        forall|i: int| 0 <= i < v@.len() ==> (#[trigger] v@[i]).inv(),
    ensures
        r is Some <==> v@.len() > 0,
        r matches Some(m) ==> (exists|i: int| 0 <= i < v@.len() && *m == v@[i]) && (forall|i: int|
            0 <= i < v@.len() ==> m.le_spec(&v@[i])),
{
    if v.is_empty() {
        return None;
    }
    let mut min: &T = &v[0];
    let mut k: usize = 0;
    while k < v.len()
        invariant
            0 <= k <= v@.len(),
            v@.len() > 0,
            forall|i: int| 0 <= i < v@.len() ==> (#[trigger] v@[i]).inv(),
            exists|i: int| 0 <= i < v@.len() && *min == v@[i],
            min.inv(),
            forall|j: int| 0 <= j < k ==> min.le_spec(&v@[j]),
        decreases v@.len() - k,
    {
        let ghost prev = *min;
        min = min.min(&v[k]);
        proof {
            assert forall|j: int| 0 <= j < k + 1 implies min.le_spec(&v@[j]) by {
                if j < k {
                    T::lemma_le_trans(min, &prev, &v@[j]);
                }
            }
        }
        k = k + 1;
    }
    Some(min)
}

} // verus!
