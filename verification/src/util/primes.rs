use vstd::prelude::*;
use vstd::arithmetic::div_mod::{
    lemma_fundamental_div_mod, lemma_fundamental_div_mod_converse_mod, lemma_mod_multiples_basic,
};

verus! {

/// The primes known to `is_prime` and `get_primes` are those up to this ceiling.
pub const PRIME_CEILING: usize = 10_000;

/// `n` is a prime number: at least 2, with no divisor between 2 and itself.
pub open spec fn is_prime_number(n: int) -> bool {
    n >= 2 && forall|d: int| 2 <= d < n ==> #[trigger] (n % d) != 0
}

/// `i` has no divisor `d` with `2 <= d < bound` and `d * d <= i`.
pub open spec fn no_small_divisor(i: int, bound: int) -> bool {
    forall|d: int| 2 <= d < bound && d * d <= i ==> #[trigger] (i % d) != 0
}

/// Stepping through the multiples of `p`: the numbers strictly between two of them
/// are not multiples.
proof fn lemma_between_multiples(p: int, k: int, r: int)
    requires
        p > 0,
        0 < r < p,
    ensures
        (p * k + r) % p == r,
        (p * k) % p == 0,
{
    assert(p * k + r == k * p + r) by (nonlinear_arith);
    lemma_fundamental_div_mod_converse_mod(p * k + r, p, k, r);
    assert(p * k == k * p) by (nonlinear_arith);
    lemma_mod_multiples_basic(k, p);
}

/// A multiple of a multiple of `d` is a multiple of `d`.
proof fn lemma_divides_transitive(i: int, p: int, d: int)
    requires
        d > 0,
        p > 0,
        i % p == 0,
        p % d == 0,
    ensures
        i % d == 0,
{
    lemma_fundamental_div_mod(i, p);
    lemma_fundamental_div_mod(p, d);
    let a = i / p;
    let b = p / d;
    assert(i == p * a);
    assert(p == d * b);
    assert(i == (b * a) * d) by (nonlinear_arith)
        requires
            i == p * a,
            p == d * b,
    ;
    lemma_mod_multiples_basic(b * a, d);
}

/// A number with a divisor between 2 and itself has one whose square is at most it.
proof fn lemma_small_divisor_exists(i: int, d: int) -> (e: int)
    requires
        2 <= d < i,
        i % d == 0,
    ensures
        2 <= e,
        e * e <= i,
        i % e == 0,
{
    lemma_fundamental_div_mod(i, d);
    let q = i / d;
    assert(i == d * q);
    if q <= 1 {
        assert(d * q <= d) by (nonlinear_arith)
            requires
                q <= 1,
                d >= 2,
        ;
        assert(false);
    }
    if d * d <= i {
        d
    } else {
        assert(q * q <= i) by (nonlinear_arith)
            requires
                i == d * q,
                d * d > i,
                q >= 2,
                d >= 2,
        ;
        assert(i == q * d) by (nonlinear_arith)
            requires
                i == d * q,
        ;
        lemma_mod_multiples_basic(d, q);
        q
    }
}

/// For `2 <= d` with `d * d <= i`, `d` is below `i`, and below any `p` with `i < p * p`.
proof fn lemma_square_bounds(d: int, i: int, p: int)
    requires
        2 <= d,
        d * d <= i,
    ensures
        d < i,
        i < p * p && p >= 0 ==> d < p,
{
    assert(d < d * d) by (nonlinear_arith)
        requires
            2 <= d,
    ;
    if i < p * p && p >= 0 && d >= p {
        assert(p * p <= d * d) by (nonlinear_arith)
            requires
                0 <= p <= d,
        ;
    }
}

/// Once every divisor whose square fits has been ruled out, a number is prime.
proof fn lemma_prime_iff_no_small_divisor(i: int, p: int)
    requires
        i < p * p,
        p >= 0,
    ensures
        (i >= 2 && no_small_divisor(i, p)) == is_prime_number(i),
{
    if i >= 2 && no_small_divisor(i, p) {
        assert forall|d: int| 2 <= d < i implies #[trigger] (i % d) != 0 by {
            if i % d == 0 {
                let e = lemma_small_divisor_exists(i, d);
                lemma_square_bounds(e, i, p);
                assert(i % e != 0);
            }
        }
    }
    if is_prime_number(i) {
        assert forall|d: int| 2 <= d < p && d * d <= i implies #[trigger] (i % d) != 0 by {
            lemma_square_bounds(d, i, p);
        }
    }
}

/// Marks the multiples of `p` from `p * p` up to `max` as not prime.
fn mark_non_primes(sieve: &mut Vec<bool>, p: usize, max: usize)
    requires
        old(sieve).len() == max + 1,
        2 <= p,
        p * p <= max,
        max <= usize::MAX / 4,
    ensures
        final(sieve).len() == max + 1,
        forall|i: int| 0 <= i <= max ==> #[trigger] final(sieve)@[i] == (old(sieve)@[i] && !(p * p <= i
            && i % (p as int) == 0)),
{
    let mut multiple = p * p;
    let ghost mut k: int = p as int;
    assert(p <= p * p) by (nonlinear_arith)
        requires
            p >= 1,
    ;
    while multiple <= max
        invariant
            sieve.len() == max + 1,
            old(sieve)@.len() == max + 1,
            2 <= p <= max,
            p * p <= max,
            p * p <= multiple,
            max <= usize::MAX / 4,
            multiple == p * k,
            k >= p,
            forall|i: int| 0 <= i <= max ==> #[trigger] sieve@[i] == (old(sieve)@[i] && !(p * p <= i
                < multiple && i % (p as int) == 0)),
        decreases max + p - multiple,
    {
        let ghost before = sieve@;
        sieve.set(multiple, false);
        proof {
            lemma_between_multiples(p as int, k, 1);
            assert forall|i: int| 0 <= i <= max implies #[trigger] sieve@[i] == (old(sieve)@[i] && !(p
                * p <= i < multiple + p && i % (p as int) == 0)) by {
                if multiple < i < multiple + p {
                    lemma_between_multiples(p as int, k, i - multiple);
                }
                if i == multiple {
                    assert(sieve@[i] == false);
                } else {
                    assert(sieve@[i] == before[i]);
                }
            }
            k = k + 1;
            assert(p * k == p * (k - 1) + p) by (nonlinear_arith);
            assert(sieve@.len() == max + 1);
        }
        multiple = multiple + p;
    }
}

/// The primes up to `max`, in increasing order, by the sieve of Eratosthenes.
fn sieve_of_eratosthenes(max: usize) -> (primes: Vec<usize>)
    requires
        1 <= max <= usize::MAX / 4,
    ensures
        forall|i: int, j: int| 0 <= i < j < primes.len() ==> primes@[i] < primes@[j],
        forall|i: int| 0 <= i < primes.len() ==> #[trigger] primes@[i] <= max && is_prime_number(
            primes@[i] as int,
        ),
        forall|n: int| 0 <= n <= max && is_prime_number(n) ==> primes@.contains(n as usize),
{
    let mut sieve: Vec<bool> = Vec::new();
    let mut i: usize = 0;
    while i <= max
        invariant
            i <= max + 1,
            max <= usize::MAX / 4,
            sieve.len() == i,
            forall|j: int| 0 <= j < i ==> #[trigger] sieve@[j] == true,
        decreases max + 1 - i,
    {
        sieve.push(true);
        i = i + 1;
    }
    sieve.set(0, false);
    sieve.set(1, false);
    let mut p: usize = 2;
    while p * p <= max
        invariant
            2 <= p,
            p <= max + 1,
            (p - 1) * (p - 1) <= max,
            p * p <= 3 * max + 1,
            1 <= max <= usize::MAX / 4,
            sieve.len() == max + 1,
            forall|i: int| 0 <= i <= max ==> #[trigger] sieve@[i] == (i >= 2 && no_small_divisor(i, p as int)),
        decreases max + 1 - p,
    {
        assert(p <= p * p) by (nonlinear_arith)
            requires
                p >= 1,
        ;
        if sieve[p] {
            mark_non_primes(&mut sieve, p, max);
            assert forall|i: int| 0 <= i <= max implies #[trigger] sieve@[i] == (i >= 2 && no_small_divisor(i, p + 1)) by {
                if p * p <= i && i % (p as int) == 0 {
                    assert(!no_small_divisor(i, p + 1));
                }
            }
        } else {
            assert(!no_small_divisor(p as int, p as int));
            let ghost d = choose|d: int| 2 <= d < p && d * d <= p && #[trigger] ((p as int) % d) == 0;
            assert forall|i: int| 0 <= i <= max implies #[trigger] sieve@[i] == (i >= 2 && no_small_divisor(i, p + 1)) by {
                if p * p <= i && i % (p as int) == 0 {
                    lemma_divides_transitive(i, p as int, d);
                    assert(d * d <= i);
                    assert(!no_small_divisor(i, p as int));
                }
            }
        }
        assert((p + 1) * (p + 1) <= 3 * max + 1) by (nonlinear_arith)
            requires
                p * p <= max,
                p >= 1,
        ;
        p = p + 1;
        assert((p - 1) * (p - 1) <= max);
    }
    let mut primes: Vec<usize> = Vec::new();
    let mut n: usize = 2;
    while n <= max
        invariant
            2 <= n <= max + 1,
            max <= usize::MAX / 4,
            sieve.len() == max + 1,
            p * p > max,
            forall|i: int| 0 <= i <= max ==> #[trigger] sieve@[i] == (i >= 2 && no_small_divisor(i, p as int)),
            forall|i: int, j: int| 0 <= i < j < primes.len() ==> primes@[i] < primes@[j],
            forall|i: int| 0 <= i < primes.len() ==> #[trigger] primes@[i] < n && primes@[i] <= max
                && is_prime_number(primes@[i] as int),
            forall|m: int| 0 <= m < n && is_prime_number(m) ==> primes@.contains(m as usize),
        decreases max + 1 - n,
    {
        proof {
            lemma_prime_iff_no_small_divisor(n as int, p as int);
        }
        let ghost before = primes@;
        if sieve[n] {
            primes.push(n);
            assert(primes@[primes.len() - 1] == n);
        }
        proof {
            assert forall|m: int| 0 <= m < n + 1 && is_prime_number(m) implies primes@.contains(m as usize) by {
                if m == n {
                    assert(primes@[primes.len() - 1] == n);
                } else {
                    let i = choose|i: int| 0 <= i < before.len() && before[i] == m as usize;
                    assert(primes@[i] == m as usize);
                }
            }
        }
        n = n + 1;
    }
    primes
}

/// Whether `n` is one of the primes up to `PRIME_CEILING`.
pub fn is_prime(n: usize) -> (prime: bool)
    ensures
        prime == (n <= PRIME_CEILING && is_prime_number(n as int)),
{
    let primes = sieve_of_eratosthenes(PRIME_CEILING);
    let mut low: usize = 0;
    let mut high: usize = primes.len();
    while low < high
        invariant
            low <= high <= primes.len(),
            forall|i: int, j: int| 0 <= i < j < primes.len() ==> primes@[i] < primes@[j],
            forall|i: int| 0 <= i < primes.len() ==> #[trigger] primes@[i] <= PRIME_CEILING
                && is_prime_number(primes@[i] as int),
            forall|m: int| 0 <= m <= PRIME_CEILING && is_prime_number(m) ==> primes@.contains(m as usize),
            forall|i: int| 0 <= i < low ==> primes@[i] < n,
            forall|i: int| high <= i < primes.len() ==> primes@[i] > n,
        decreases high - low,
    {
        let mid = low + (high - low) / 2;
        if primes[mid] == n {
            assert(primes@[mid as int] <= PRIME_CEILING && is_prime_number(primes@[mid as int] as int));
            return true;
        } else if primes[mid] < n {
            low = mid + 1;
        } else {
            high = mid;
        }
    }
    proof {
        if n <= PRIME_CEILING && is_prime_number(n as int) {
            let i = primes@.index_of(n);
            assert(primes@[i] == n);
        }
    }
    false
}

/// The primes up to `PRIME_CEILING`, in increasing order.
pub fn get_primes() -> (primes: Vec<usize>)
    ensures
        forall|i: int, j: int| 0 <= i < j < primes.len() ==> primes@[i] < primes@[j],
        forall|i: int| 0 <= i < primes.len() ==> #[trigger] primes@[i] <= PRIME_CEILING
            && is_prime_number(primes@[i] as int),
        forall|n: int| 0 <= n <= PRIME_CEILING && is_prime_number(n) ==> primes@.contains(n as usize),
{
    sieve_of_eratosthenes(PRIME_CEILING)
}

} // verus!
