//! Modular arithmetic for the reference solver: falling-factorial products,
//! modular exponentiation, and the combinatorial formula built from them.
use vstd::arithmetic::div_mod::lemma_mul_mod_noop_left;
use vstd::arithmetic::div_mod::lemma_mul_mod_noop_right;
use vstd::arithmetic::div_mod::lemma_small_mod;
use vstd::arithmetic::mul::lemma_mul_is_associative;
use vstd::arithmetic::mul::lemma_mul_upper_bound;
use vstd::arithmetic::power::lemma_pow0;
use vstd::arithmetic::power::lemma_pow1;
use vstd::arithmetic::power::lemma_pow_adds;
use vstd::arithmetic::power::lemma_pow_mod_noop;
use vstd::arithmetic::power::lemma_pow_multiplies;
use vstd::arithmetic::power::lemma_square_is_pow2;
use vstd::arithmetic::power::pow;
use vstd::prelude::*;

verus! {

/// Product of the integers `a..=b`, as a mathematical integer
/// (1 when the range is empty).
pub open spec fn prod_range(a: int, b: int) -> int
    decreases b + 1 - a,
{
    if a > b {
        1
    } else {
        prod_range(a, b - 1) * b
    }
}

/// Modular exponentiation by repeated squaring: `pow(x, y) % p`.
pub fn power(x: u64, y: u64, p: u64) -> (r: u64)
    requires
        2 <= p,
        x < p,
        (p - 1) * (p - 1) <= u64::MAX,
    ensures
        r == pow(x as int, y as nat) % (p as int),
{
    let ghost x0: int = x as int;
    let ghost y0: nat = y as nat;
    let mut res: u64 = 1;
    let mut x = x;
    let mut y = y;
    while y != 0
        invariant
            2 <= p,
            x < p,
            res < p,
            (p - 1) * (p - 1) <= u64::MAX,
            (res * pow(x as int, y as nat)) % (p as int) == pow(x0, y0) % (p as int),
        decreases y,
    {
        let ghost xi: int = x as int;
        let ghost yi: nat = y as nat;
        let ghost ri: int = res as int;
        let ghost pp: int = p as int;
        proof {
            lemma_mul_upper_bound(res as int, pp - 1, x as int, pp - 1);
            lemma_mul_upper_bound(x as int, pp - 1, x as int, pp - 1);
        }
        if y % 2 == 1 {
            res = res * x % p;
        }
        x = x * x % p;
        y = y / 2;
        proof {
            let yh: nat = (yi / 2) as nat;
            let a = pow(xi, (2 * yh) as nat);
            // pow of the reduced square is congruent to pow(xi, 2*yh)
            lemma_square_is_pow2(xi);
            lemma_pow_multiplies(xi, 2, yh);
            lemma_pow_mod_noop(xi * xi, yh, pp);
            assert(pow(x as int, y as nat) % pp == a % pp);
            // so multiplying by the new base power is the same mod p
            lemma_mul_mod_noop_right(res as int, pow(x as int, y as nat), pp);
            lemma_mul_mod_noop_right(res as int, a, pp);
            assert((res * pow(x as int, y as nat)) % pp == (res * a) % pp);
            if yi % 2 == 1 {
                // yi == 2*yh + 1, so pow(xi, yi) == xi * pow(xi, 2*yh)
                lemma_pow1(xi);
                lemma_pow_adds(xi, 1, (2 * yh) as nat);
                assert(pow(xi, yi) == xi * a);
                lemma_mul_mod_noop_left(ri * xi, a, pp);
                assert((res * a) % pp == (ri * xi * a) % pp);
                assert(ri * xi * a == ri * pow(xi, yi)) by {
                    lemma_mul_is_associative(ri, xi, a);
                };
            } else {
                // yi == 2*yh, so pow(xi, yi) is exactly a
                assert(pow(xi, yi) == a);
            }
        }
    }
    proof {
        lemma_pow0(x as int);
        lemma_small_mod(res as nat, p as nat);
    }
    res
}

/// Number of ways to arrange `m` items out of `n`, modulo `p`:
/// the falling factorial `n * (n-1) * ... * (n-m+1)`, or 0 when `n < m`.
pub open spec fn spec_perm(n: int, m: int, p: int) -> int {
    if n < m {
        0
    } else {
        prod_range(n - m + 1, n) % p
    }
}

/// `pow(x, y) % p`; with `y == p - 2` and `p` prime this is the modular
/// inverse of `x` scaled into the field, as used by `spec_comb`.
pub open spec fn spec_power(x: int, y: nat, p: int) -> int {
    pow(x, y) % p
}

/// Binomial coefficient modulo a prime `p`, computed as
/// `perm(n, m) * perm(m, m)^(p-2) % p` (Fermat inverse), or 0 when `n < m`.
pub open spec fn spec_comb(n: int, m: int, p: int) -> int {
    if n < m {
        0
    } else {
        spec_perm(n, m, p) * spec_power(spec_perm(m, m, p), (p - 2) as nat, p) % p
    }
}

/// Falling factorial modulo `p`: 0 when `n < m`, else
/// `(n-m+1) * ... * n` reduced mod `p`.
pub fn perm(n: u64, m: u64, p: u64) -> (r: u64)
    requires
        2 <= p,
        (p - 1) * n <= u64::MAX,
    ensures
        r == spec_perm(n as int, m as int, p as int),
        r < p,
{
    if n < m {
        return 0;
    }
    if m == 0 {
        proof {
            lemma_small_mod(1, p as nat);
        }
        return 1;
    }
    let lo: u64 = n - m + 1;
    let mut acc: u64 = 1;
    let mut i: u64 = 0;
    proof {
        lemma_small_mod(1, p as nat);
    }
    while i < m
        invariant
            2 <= p,
            n >= m,
            lo == n - m + 1,
            i <= m,
            acc < p,
            (p - 1) * n <= u64::MAX,
            acc == prod_range(lo as int, lo as int + i - 1) % (p as int),
        decreases m - i,
    {
        let k: u64 = lo + i;
        proof {
            lemma_mul_upper_bound(acc as int, p - 1, k as int, n as int);
            lemma_mul_mod_noop_left(prod_range(lo as int, k - 1), k as int, p as int);
        }
        acc = acc * k % p;
        i = i + 1;
    }
    acc
}

/// Binomial coefficient modulo `p` via Fermat's little theorem
/// (`p` is expected to be prime, though only `p >= 2` is needed here).
pub fn comb(n: u64, m: u64, p: u64) -> (r: u64)
    requires
        2 <= p,
        (p - 1) * n <= u64::MAX,
        (p - 1) * (p - 1) <= u64::MAX,
    ensures
        r == spec_comb(n as int, m as int, p as int),
        r < p,
{
    if n < m {
        0
    } else {
        proof {
            lemma_mul_upper_bound(p - 1, p - 1, m as int, n as int);
        }
        let pm = perm(m, m, p);
        let inv = power(pm, p - 2, p);
        let pnm = perm(n, m, p);
        proof {
            lemma_mul_upper_bound(pnm as int, p - 1, inv as int, p - 1);
        }
        pnm * inv % p
    }
}

/// The reference solver's closed-form count, modulo `p`:
/// `perm(n,n) * perm(n+1,2) * perm(n+3,m)` plus
/// `perm(n,n) * 2(n+1) * comb(n+2,m-1) * perm(m,m)`, reduced mod `p`
/// in the same association as the executable computation.
pub open spec fn spec_solve(n: int, m: int, p: int) -> int {
    let s1 = spec_perm(n, n, p) * spec_perm(n + 1, 2, p) % p * spec_perm(n + 3, m, p) % p;
    let s2 = spec_perm(n, n, p) * (2 * (n + 1)) % p * spec_comb(n + 2, m - 1, p) % p * spec_perm(
        m,
        m,
        p,
    ) % p;
    (s1 + s2) % p
}

/// Reference solver for one test case: evaluates `spec_solve(n, m, p)`.
pub fn solve(n: u64, m: u64, p: u64) -> (r: u64)
    requires
        2 <= p,
        1 <= m,
        (p - 1) * (p - 1) <= u64::MAX,
        (p - 1) * (n + 3) <= u64::MAX,
        (p - 1) * m <= u64::MAX,
        (p - 1) * (2 * (n + 1)) <= u64::MAX,
        n + 3 <= u64::MAX,
        2 * (n + 1) <= u64::MAX,
    ensures
        r == spec_solve(n as int, m as int, p as int),
{
    proof {
        // (p-1)*k fits for every k <= n+3 that a subcall multiplies by
        lemma_mul_upper_bound(p - 1, p - 1, n as int, n + 3);
        lemma_mul_upper_bound(p - 1, p - 1, n + 1, n + 3);
        lemma_mul_upper_bound(p - 1, p - 1, n + 2, n + 3);
    }
    let pnn = perm(n, n, p);
    let pn12 = perm(n + 1, 2, p);
    let pn3m = perm(n + 3, m, p);
    let cb = comb(n + 2, m - 1, p);
    let pmm = perm(m, m, p);
    proof {
        lemma_mul_upper_bound(pnn as int, p - 1, pn12 as int, p - 1);
        lemma_mul_upper_bound(pnn as int, p - 1, 2 * (n + 1), 2 * (n + 1));
        lemma_mul_upper_bound(
            (pnn as int * pn12 as int) % (p as int),
            p - 1,
            pn3m as int,
            p - 1,
        );
    }
    let sum1 = pnn * pn12 % p * pn3m % p;
    let t1 = pnn * (2 * (n + 1)) % p;
    proof {
        lemma_mul_upper_bound(t1 as int, p - 1, cb as int, p - 1);
        lemma_mul_upper_bound(
            (t1 as int * cb as int) % (p as int),
            p - 1,
            pmm as int,
            p - 1,
        );
    }
    let sum2 = t1 * cb % p * pmm % p;
    proof {
        if p >= 3 {
            lemma_mul_upper_bound(2, p - 1, p - 1, p - 1);
        }
    }
    (sum1 + sum2) % p
}

/// Combinatorial feasibility boundary: once `m` exceeds `n + 3`, both
/// falling factorials that gate the two summands vanish, so the whole
/// count is 0.
pub proof fn lemma_solve_zero(n: int, m: int, p: int)
    requires
        2 <= p,
        n + 3 < m,
    ensures
        spec_solve(n, m, p) == 0,
{
    assert(spec_perm(n + 3, m, p) == 0);
    assert(spec_comb(n + 2, m - 1, p) == 0);
    let a = spec_perm(n, n, p) * spec_perm(n + 1, 2, p) % p;
    assert(a * 0 == 0);
    let b = spec_perm(n, n, p) * (2 * (n + 1)) % p;
    assert(b * 0 == 0);
    assert(0int % p == 0) by {
        lemma_small_mod(0, p as nat);
    };
    assert(0 * spec_perm(m, m, p) == 0);
}

} // verus!
