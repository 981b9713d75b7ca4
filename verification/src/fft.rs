//! FFT grid sizing: the smallest grid dimension whose only prime factors are
//! 2, 3 and 5 that is still large enough to hold a range of Miller indices.
use vstd::prelude::*;

verus! {

/// `b` raised to the natural power `e`.
pub open spec fn pow_nat(b: nat, e: nat) -> nat
    decreases e,
{
    if e == 0 {
        1
    } else {
        b * pow_nat(b, (e - 1) as nat)
    }
}

/// `n` is a product of powers of 2, 3 and 5 (a "5-smooth" number, the sizes
/// for which mixed-radix FFTs are fast).
pub open spec fn is_smooth235(n: nat) -> bool {
    exists|a: nat, b: nat, c: nat|
        n == #[trigger] pow_nat(2, a) * #[trigger] pow_nat(3, b) * #[trigger] pow_nat(5, c)
}

proof fn lemma_pow_positive(b: nat, e: nat)
    requires
        b >= 1,
    ensures
        pow_nat(b, e) >= 1,
    decreases e,
{
    if e > 0 {
        lemma_pow_positive(b, (e - 1) as nat);
        assert(b * pow_nat(b, (e - 1) as nat) >= 1) by (nonlinear_arith)
            requires
                b >= 1,
                pow_nat(b, (e - 1) as nat) >= 1,
        ;
    }
}

proof fn lemma_product_positive(a: nat, b: nat, c: nat)
    ensures
        pow_nat(2, a) * pow_nat(3, b) * pow_nat(5, c) >= 1,
{
    lemma_pow_positive(2, a);
    lemma_pow_positive(3, b);
    lemma_pow_positive(5, c);
    let x = pow_nat(2, a);
    let y = pow_nat(3, b);
    let z = pow_nat(5, c);
    assert(x * y * z >= 1) by (nonlinear_arith)
        requires
            x >= 1,
            y >= 1,
            z >= 1,
    ;
}

/// Two times a power of two is the next power of two.
proof fn lemma_pow2_double(e: nat)
    ensures
        pow_nat(2, e + 1) == 2 * pow_nat(2, e),
{
    assert(pow_nat(2, e + 1) == 2 * pow_nat(2, ((e + 1) - 1) as nat));
}

/// A product of two non-zero residues modulo 2, 3 or 5 is non-zero.
proof fn lemma_residue_product(r: int, t: int, p: int)
    requires
        p == 2 || p == 3 || p == 5,
        0 < r < p,
        0 < t < p,
    ensures
        (r * t) % p != 0,
{
    if r == 1 {
        assert(r * t == t);
    } else if r == 2 {
        assert(r * t == 2 * t);
    } else if r == 3 {
        assert(r * t == 3 * t);
    } else {
        assert(r * t == 4 * t);
    }
}

/// Euclid's lemma for the primes 2, 3, 5: if `p` divides `m * k` but not
/// `m`, then it divides `k`; the cofactor of `k` then satisfies the
/// cancelled equation.
proof fn lemma_prime_divides(m: int, k: int, x: int, p: int)
    requires
        p == 2 || p == 3 || p == 5,
        m > 0,
        k >= 0,
        m % p != 0,
        m * k == p * x,
    ensures
        k % p == 0,
        m * (k / p) == x,
{
    vstd::arithmetic::div_mod::lemma_mul_mod_noop(m, k, p);
    vstd::arithmetic::div_mod::lemma_mod_multiples_basic(x, p);
    assert((p * x) % p == 0) by {
        assert(p * x == x * p) by (nonlinear_arith);
    }
    if k % p != 0 {
        lemma_residue_product(m % p, k % p, p);
    }
    let k1 = k / p;
    assert(k == p * k1);
    assert(m * k1 == x) by (nonlinear_arith)
        requires
            p > 0,
            m * (p * k1) == p * x,
    ;
}

/// If `m` has no factor 2, 3 or 5 and `m * k` is 5-smooth, then `m == 1`.
proof fn lemma_unit_cofactor(m: nat, k: nat, a: nat, b: nat, c: nat)
    requires
        m > 0,
        m % 2 != 0,
        m % 3 != 0,
        m % 5 != 0,
        m * k == pow_nat(2, a) * pow_nat(3, b) * pow_nat(5, c),
    ensures
        m == 1,
    decreases a + b + c,
{
    let x = pow_nat(2, a);
    let y = pow_nat(3, b);
    let z = pow_nat(5, c);
    if a > 0 {
        let x1 = pow_nat(2, (a - 1) as nat);
        assert(x == 2 * x1);
        assert(x * y * z == 2 * (x1 * y * z)) by (nonlinear_arith)
            requires
                x == 2 * x1,
        ;
        lemma_prime_divides(m as int, k as int, (x1 * y * z) as int, 2);
        lemma_unit_cofactor(m, k / 2, (a - 1) as nat, b, c);
    } else if b > 0 {
        let y1 = pow_nat(3, (b - 1) as nat);
        assert(y == 3 * y1);
        assert(x * y * z == 3 * (x * y1 * z)) by (nonlinear_arith)
            requires
                y == 3 * y1,
        ;
        lemma_prime_divides(m as int, k as int, (x * y1 * z) as int, 3);
        lemma_unit_cofactor(m, k / 3, a, (b - 1) as nat, c);
    } else if c > 0 {
        let z1 = pow_nat(5, (c - 1) as nat);
        assert(z == 5 * z1);
        assert(x * y * z == 5 * (x * y * z1)) by (nonlinear_arith)
            requires
                z == 5 * z1,
        ;
        lemma_prime_divides(m as int, k as int, (x * y * z1) as int, 5);
        lemma_unit_cofactor(m, k / 5, a, b, (c - 1) as nat);
    } else {
        assert(x == 1 && y == 1 && z == 1);
        assert(x * y * z == 1) by (nonlinear_arith)
            requires
                x == 1,
                y == 1,
                z == 1,
        ;
        assert(m == 1) by (nonlinear_arith)
            requires
                m * k == 1,
                m > 0,
        ;
    }
}

/// Whether `n` is an FFT-friendly size: a product of 2, 3 and 5 only.
pub fn is_fft_friendly(n: usize) -> (r: bool)
    ensures
        r == is_smooth235(n as nat),
{
    if n == 0 {
        proof {
            assert forall|a: nat, b: nat, c: nat|
                0 != #[trigger] pow_nat(2, a) * #[trigger] pow_nat(3, b) * #[trigger] pow_nat(
                    5,
                    c,
                ) by {
                lemma_product_positive(a, b, c);
            }
        }
        return false;
    }
    let mut m: usize = n;
    let ghost mut a: nat = 0;
    let ghost mut b: nat = 0;
    let ghost mut c: nat = 0;
    assert(pow_nat(2, 0) == 1 && pow_nat(3, 0) == 1 && pow_nat(5, 0) == 1);
    while m % 2 == 0
        invariant
            m > 0,
            n == m * pow_nat(2, a),
        decreases m,
    {
        proof {
            lemma_pow2_double(a);
            let p = pow_nat(2, a);
            assert((m / 2) * (2 * p) == m * p) by (nonlinear_arith)
                requires
                    m % 2 == 0,
            ;
        }
        m = m / 2;
        proof { a = a + 1; }
    }
    while m % 3 == 0
        invariant
            m > 0,
            m % 2 != 0,
            n == m * pow_nat(3, b) * pow_nat(2, a),
        decreases m,
    {
        proof {
            let p = pow_nat(3, b);
            let q = pow_nat(2, a);
            assert(pow_nat(3, b + 1) == 3 * pow_nat(3, ((b + 1) - 1) as nat));
            assert((m / 3) * (3 * p) * q == m * p * q) by (nonlinear_arith)
                requires
                    m % 3 == 0,
            ;
            assert((m / 3) % 2 != 0) by (nonlinear_arith)
                requires
                    m % 3 == 0,
                    m % 2 != 0,
            ;
        }
        m = m / 3;
        proof { b = b + 1; }
    }
    while m % 5 == 0
        invariant
            m > 0,
            m % 2 != 0,
            m % 3 != 0,
            n == m * pow_nat(5, c) * pow_nat(3, b) * pow_nat(2, a),
        decreases m,
    {
        proof {
            let p = pow_nat(5, c);
            let q = pow_nat(3, b);
            let s = pow_nat(2, a);
            assert(pow_nat(5, c + 1) == 5 * pow_nat(5, ((c + 1) - 1) as nat));
            assert((m / 5) * (5 * p) * q * s == m * p * q * s) by (nonlinear_arith)
                requires
                    m % 5 == 0,
            ;
            assert((m / 5) % 2 != 0 && (m / 5) % 3 != 0) by (nonlinear_arith)
                requires
                    m % 5 == 0,
                    m % 2 != 0,
                    m % 3 != 0,
            ;
        }
        m = m / 5;
        proof { c = c + 1; }
    }
    let r = m == 1;
    proof {
        let x = pow_nat(2, a);
        let y = pow_nat(3, b);
        let z = pow_nat(5, c);
        assert(n == m * (x * y * z)) by (nonlinear_arith)
            requires
                n == m * z * y * x,
        ;
        if r {
            assert(n == x * y * z);
        } else if is_smooth235(n as nat) {
            let (a2, b2, c2) = choose|a2: nat, b2: nat, c2: nat|
                n == #[trigger] pow_nat(2, a2) * #[trigger] pow_nat(3, b2) * #[trigger] pow_nat(
                    5,
                    c2,
                );
            lemma_unit_cofactor(m as nat, x * y * z, a2, b2, c2);
        }
    }
    r
}

/// `n` is the smallest 5-smooth size that holds Miller indices
/// `-n_max..=n_max` without aliasing.
pub open spec fn is_grid_size_for(n: int, n_max: int) -> bool {
    &&& n >= 2 * n_max + 1
    &&& is_smooth235(n as nat)
    &&& forall|m: nat| 2 * n_max + 1 <= m < n ==> !is_smooth235(m)
}

/// The smallest FFT-friendly grid size `n >= 2 * n_max + 1`.
///
/// Miller indices from `-n_max` to `n_max` need at least `2 * n_max + 1`
/// grid points to avoid aliasing; sizes with prime factors 2, 3, 5 only keep
/// the transforms fast.
pub fn fft_grid_size(n_max: i32) -> (n: usize)
    requires
        0 <= n_max <= 1073741823,
    ensures
        is_grid_size_for(n as int, n_max as int),
{
    let min_n: usize = (2 * n_max + 1) as usize;
    let mut n: usize = min_n;
    proof {
        assert(pow_nat(2, 31) == 2147483648) by {
            reveal_with_fuel(pow_nat, 32);
        }
        assert(pow_nat(3, 0) == 1);
        assert(pow_nat(5, 0) == 1);
        assert(is_smooth235(2147483648nat)) by {
            assert(2147483648nat == pow_nat(2, 31) * pow_nat(3, 0) * pow_nat(5, 0));
        }
    }
    loop
        invariant
            min_n == 2 * n_max + 1,
            min_n <= n <= 2147483648,
            is_smooth235(2147483648nat),
            forall|m: nat| min_n <= m < n ==> !is_smooth235(m),
        decreases 2147483648 - n,
    {
        if is_fft_friendly(n) {
            return n;
        }
        n = n + 1;
    }
}

} // verus!
