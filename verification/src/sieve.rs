use vstd::prelude::*;
use vstd::arithmetic::div_mod::{lemma_fundamental_div_mod, lemma_mod_multiples_basic};
use vstd::arithmetic::mul::{lemma_mul_inequality, lemma_mul_is_associative, lemma_mul_is_commutative};
use vstd::pervasive::VecAdditionalExecFns;

verus! {

/// A prime: at least 2, with no divisor strictly between 1 and itself.
pub open spec fn is_prime(n: int) -> bool {
    n >= 2 && forall|d: int| 2 <= d < n ==> #[trigger] (n % d) != 0
}

/// A product of two factors, each at least 2.
pub open spec fn is_composite(n: int) -> bool {
    exists|a: int, b: int| 2 <= a && 2 <= b && n == #[trigger] (a * b)
}

/// A composite number has a divisor strictly between 1 and itself, so it is
/// not prime.
proof fn lemma_composite_not_prime(n: int)
    requires
        is_composite(n),
    ensures
        !is_prime(n),
        n >= 4,
{
    let (a, b) = choose|a: int, b: int| 2 <= a && 2 <= b && n == #[trigger] (a * b);
    lemma_mul_inequality(2, b, a);
    lemma_mul_is_commutative(b, a);
    assert(n >= 2 * a);
    lemma_mul_inequality(2, a, b);
    lemma_mul_is_commutative(a, b);
    assert(n >= 2 * b);
    lemma_mod_multiples_basic(b, a);
    lemma_mul_is_commutative(b, a);
    assert(n % a == 0);
    assert(2 <= a < n);
}

/// A number that is not prime (and at least 2) has a divisor `d` with
/// `d * d` no larger than itself.
proof fn lemma_nonprime_has_small_divisor(n: int)
    requires
        n >= 2,
        !is_prime(n),
    ensures
        exists|d: int| 2 <= d < n && #[trigger] (n % d) == 0 && d * d <= n,
{
    assert(exists|d: int| 2 <= d < n && #[trigger] (n % d) == 0);
    let d0 = choose|d: int| 2 <= d < n && #[trigger] (n % d) == 0;
    assert(2 <= d0 < n && n % d0 == 0);
    let e = n / d0;
    lemma_fundamental_div_mod(n, d0);
    assert(n == d0 * e);
    assert(e >= 2) by {
        if e <= 0 {
            lemma_mul_inequality(e, 0, d0);
            lemma_mul_is_commutative(e, d0);
            lemma_mul_is_commutative(0, d0);
        } else if e == 1 {
            assert(d0 * 1 == d0);
        }
    }
    if d0 * d0 <= n {
        assert(2 <= d0 < n && n % d0 == 0 && d0 * d0 <= n);
    } else {
        // then e is the smaller factor
        assert(e < d0) by {
            if e >= d0 {
                lemma_mul_inequality(d0, e, d0);
            }
        }
        assert(e * e <= n) by {
            lemma_mul_inequality(e, d0, e);
            lemma_mul_is_commutative(e, d0);
        }
        assert(n % e == 0) by {
            lemma_mod_multiples_basic(d0, e);
        }
        assert(e < n) by {
            lemma_mul_inequality(2, d0, e);
            lemma_mul_is_commutative(2, e);
            lemma_mul_is_commutative(d0, e);
        }
        assert(2 <= e < n && n % e == 0 && e * e <= n);
    }
}

/// A divisor of a divisor divides the whole.
proof fn lemma_divides_through(k: int, i: int, a: int)
    requires
        i > 0,
        a > 0,
        k % i == 0,
        i % a == 0,
    ensures
        k % a == 0,
{
    lemma_fundamental_div_mod(k, i);
    lemma_fundamental_div_mod(i, a);
    let q = k / i;
    let m = i / a;
    assert(k == (a * m) * q);
    lemma_mul_is_associative(a, m, q);
    assert(k == (m * q) * a) by {
        lemma_mul_is_commutative(a, m * q);
    }
    lemma_mod_multiples_basic(m * q, a);
}

/// Every marked slot holds a composite number: the witness pair.
spec fn marks_sound(marks: Seq<bool>) -> bool {
    forall|k: int| 0 <= k < marks.len() && marks[k] ==> is_composite(k)
}

/// Every number below `n` that has a divisor `d < bound` whose square does
/// not exceed it is marked.
spec fn marks_complete(marks: Seq<bool>, bound: int) -> bool {
    forall|k: int, d: int|
        0 <= k < marks.len() && 2 <= d < bound && #[trigger] (k % d) == 0 && d * d <= k
            ==> marks[k]
}

/// Find all prime numbers less than `n`.
/// For example, `sieve(7)` should return `[2, 3, 5]`.
///
/// The result holds exactly the primes below `n`, in increasing order. The
/// bound on `n` keeps the squares computed while marking within `u32`.
pub fn sieve(n: u32) -> (result: Vec<u32>)
    requires
        n <= 65537,
    ensures
        forall|t: int|
            0 <= t < result@.len() ==> is_prime(#[trigger] result@[t] as int) && result@[t] < n,
        forall|p: u32| 2 <= p < n && is_prime(p as int) ==> result@.contains(p),
        forall|t1: int, t2: int|
            0 <= t1 < t2 < result@.len() ==> result@[t1] < result@[t2],
{
    let vsize = n as usize;
    let mut not_prime: Vec<bool> = Vec::new();
    let mut z: usize = 0;
    while z < vsize
        invariant
            0 <= z <= vsize,
            not_prime@.len() == z,
            forall|k: int| 0 <= k < z ==> !not_prime@[k],
        decreases vsize - z,
    {
        not_prime.push(false);
        z = z + 1;
    }
    let mut result: Vec<u32> = Vec::new();

    if vsize < 2 {
        return result;
    }

    let mut i: u32 = 2;
    while i < n
        invariant
            2 <= i <= n,
            n <= 65537,
            not_prime@.len() == n,
            marks_sound(not_prime@),
            marks_complete(not_prime@, i as int),
            forall|t: int|
                0 <= t < result@.len() ==> is_prime(#[trigger] result@[t] as int) && result@[t]
                    < i,
            forall|p: u32| 2 <= p < i && is_prime(p as int) ==> result@.contains(p),
            forall|t1: int, t2: int|
                0 <= t1 < t2 < result@.len() ==> result@[t1] < result@[t2],
        decreases n - i,
    {
        if !not_prime[i as usize] {
            proof {
                // Unmarked means prime: a non-prime would have a small
                // divisor, already processed, so it would be marked.
                if !is_prime(i as int) {
                    lemma_nonprime_has_small_divisor(i as int);
                    let d = choose|d: int|
                        2 <= d < i as int && #[trigger] (i as int % d) == 0 && d * d <= i as int;
                    assert(not_prime@[i as int]);
                }
                // A prime here is at most 65535, since 65536 is even.
                if i as int == 65536 {
                    assert(65536int % 2 == 0);
                    assert(!is_prime(i as int));
                }
                assert(i <= 65535);
                assert((i * i) as int <= 65535 * 65535) by {
                    lemma_mul_inequality(i as int, 65535, i as int);
                    lemma_mul_inequality(i as int, 65535, 65535);
                }
            }
            let ghost pre_res = result@;
            result.push(i);
            proof {
                lemma_mod_multiples_basic(i as int, i as int);
                assert forall|p: u32| 2 <= p < i + 1 && is_prime(p as int)
                    implies result@.contains(p) by {
                    if p < i {
                        let t = choose|t: int| 0 <= t < pre_res.len() && pre_res[t] == p;
                        assert(result@[t] == p);
                    } else {
                        assert(result@[result@.len() - 1] == i);
                    }
                }
            }
            let mut j: u32 = i * i;
            while j < n
                invariant
                    2 <= i <= 65535,
                    n <= 65537,
                    not_prime@.len() == n,
                    i * i <= j,
                    j % i == 0,
                    marks_sound(not_prime@),
                    forall|k: int, d: int|
                        0 <= k < n && 2 <= d < i as int && #[trigger] (k % d) == 0 && d * d <= k
                            ==> not_prime@[k],
                    forall|k: int|
                        0 <= k < n && k % (i as int) == 0 && i * i <= k && k < j
                            ==> not_prime@[k],
                decreases n + i - j,
            {
                proof {
                    assert(is_composite(j as int)) by {
                        lemma_fundamental_div_mod(j as int, i as int);
                        let q = j as int / i as int;
                        assert(j as int == i as int * q);
                        assert(q >= 2) by {
                            if q <= 1 {
                                lemma_mul_inequality(q, 1, i as int);
                                lemma_mul_is_commutative(q, i as int);
                                lemma_mul_inequality(2, i as int, i as int);
                            }
                        }
                    }
                }
                not_prime.set(j as usize, true);
                let ghost old_j = j as int;
                j = j + i;
                proof {
                    assert(j % i == 0) by {
                        lemma_fundamental_div_mod(old_j, i as int);
                        let q = old_j / i as int;
                        assert(j as int == i as int * (q + 1)) by {
                            vstd::arithmetic::mul::lemma_mul_is_distributive_add(
                                i as int,
                                q,
                                1,
                            );
                        }
                        lemma_mod_multiples_basic(q + 1, i as int);
                        lemma_mul_is_commutative(q + 1, i as int);
                    }
                    assert forall|k: int|
                        0 <= k < n && k % (i as int) == 0 && i * i <= k && k < j
                        implies not_prime@[k] by {
                        if k >= old_j {
                            assert(k == old_j) by (nonlinear_arith)
                                requires
                                    k % (i as int) == 0,
                                    old_j % (i as int) == 0,
                                    old_j <= k,
                                    k < old_j + i,
                                    i >= 2,
                            ;
                        }
                    }
                }
            }
            proof {
                // Completeness now extends to divisor i: its relevant
                // multiples up to n are exactly those the inner loop marked.
                assert forall|k: int, d: int|
                    0 <= k < n && 2 <= d < i + 1 && #[trigger] (k % d) == 0 && d * d <= k
                    implies not_prime@[k] by {
                    if d == i as int {
                        assert(k % (i as int) == 0 && i * i <= k && k < j);
                    }
                }
            }
        } else {
            proof {
                // i is composite, so any multiple of i with a square bound
                // already has a smaller divisor that was processed earlier.
                assert(is_composite(i as int));
                lemma_composite_not_prime(i as int);
                lemma_nonprime_has_small_divisor(i as int);
                let a = choose|a: int|
                    2 <= a < i as int && #[trigger] (i as int % a) == 0 && a * a <= i as int;
                assert forall|k: int, d: int|
                    0 <= k < n && 2 <= d < i + 1 && #[trigger] (k % d) == 0 && d * d <= k
                    implies not_prime@[k] by {
                    if d == i as int {
                        lemma_divides_through(k, i as int, a);
                        assert(a * a <= k) by {
                            lemma_mul_inequality(a, i as int, a);
                            lemma_mul_is_commutative(a, i as int);
                            lemma_mul_inequality(a, i as int, i as int);
                        }
                    }
                }
            }
        }
        i = i + 1;
    }
    proof {
        assert(forall|p: u32| 2 <= p < n && is_prime(p as int) ==> result@.contains(p));
    }
    result
}

} // verus!
