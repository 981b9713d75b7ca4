//! Index bookkeeping between Miller indices `(n1, n2, n3)` of reciprocal
//! lattice vectors and positions on the flat, row-major real/reciprocal FFT
//! grid, plus the choice of the FFT grid dimensions for a plane-wave basis.
use vstd::prelude::*;

use crate::fft::{fft_grid_size, is_grid_size_for};

verus! {

/// Largest grid dimension handled by the index arithmetic: Miller indices
/// and wrapped positions are `i32`, as in the grid code, and a dimension of
/// at most 2^30 keeps every signed frequency and the sum `n % d + d` of the
/// wrapping step inside the `i32` range.
pub const MAX_GRID_DIM: usize = 1073741824;

/// A grid shape usable for index arithmetic: every dimension positive and no
/// larger than [`MAX_GRID_DIM`] (the `i32` range of the Miller indices), and
/// the total number of points fits `usize`.
pub open spec fn valid_dims(dims: [usize; 3]) -> bool {
    &&& 0 < dims[0] <= MAX_GRID_DIM
    &&& 0 < dims[1] <= MAX_GRID_DIM
    &&& 0 < dims[2] <= MAX_GRID_DIM
    &&& dims[0] * dims[1] * dims[2] <= usize::MAX
}

/// Position of a (possibly negative) Miller index along an axis of length
/// `d`: the periodic image in `[0, d)`.
pub open spec fn wrap_index(n: int, d: int) -> int {
    n % d
}

/// Row-major flat index of grid point `(i1, i2, i3)`.
pub open spec fn flat_index(i1: int, i2: int, i3: int, dims: [usize; 3]) -> int {
    i1 * (dims[1] * dims[2]) + i2 * dims[2] + i3
}

/// The signed frequency of grid position `i` on an axis of length `d`:
/// positions past the middle stand for negative Miller indices.
pub open spec fn signed_freq(i: int, d: int) -> int {
    if i > d / 2 {
        i - d
    } else {
        i
    }
}

/// Miller indices that are their own representative on an axis of length
/// `d`, i.e. those that [`signed_freq`] can produce.
pub open spec fn in_freq_range(n: int, d: int) -> bool {
    d / 2 - d < n <= d / 2
}

/// Spec of [`miller_to_idx`]: the flat position of Miller indices
/// `(n1, n2, n3)` after wrapping each onto its axis.
pub open spec fn miller_index(dims: [usize; 3], n1: int, n2: int, n3: int) -> int {
    flat_index(
        wrap_index(n1, dims[0] as int),
        wrap_index(n2, dims[1] as int),
        wrap_index(n3, dims[2] as int),
        dims,
    )
}

/// Spec of [`idx_to_miller`]: the grid positions of a flat index, each read
/// as a signed frequency.
pub open spec fn index_miller(dims: [usize; 3], idx: int) -> (int, int, int) {
    let d1 = dims[1] as int;
    let d2 = dims[2] as int;
    (
        signed_freq(idx / (d1 * d2), dims[0] as int),
        signed_freq((idx / d2) % d1, d1),
        signed_freq(idx % d2, d2),
    )
}

proof fn lemma_flat_bounds(i1: int, i2: int, i3: int, dims: [usize; 3])
    requires
        valid_dims(dims),
        0 <= i1 < dims[0],
        0 <= i2 < dims[1],
        0 <= i3 < dims[2],
    ensures
        0 <= flat_index(i1, i2, i3, dims) < dims[0] * dims[1] * dims[2],
{
    let d0 = dims[0] as int;
    let d1 = dims[1] as int;
    let d2 = dims[2] as int;
    assert(0 <= i1 * (d1 * d2) + i2 * d2 + i3 < d0 * d1 * d2) by (nonlinear_arith)
        requires
            0 <= i1 < d0,
            0 <= i2 < d1,
            0 <= i3 < d2,
    {
        assert(i2 * d2 + i3 < d1 * d2) by (nonlinear_arith)
            requires
                0 <= i2 < d1,
                0 <= i3 < d2,
        ;
        assert(i1 * (d1 * d2) + d1 * d2 <= d0 * (d1 * d2)) by (nonlinear_arith)
            requires
                0 <= i1 < d0,
                d1 * d2 >= 0,
        ;
    }
}

/// The flat index determines its three grid positions.
proof fn lemma_flat_decompose(i1: int, i2: int, i3: int, dims: [usize; 3])
    requires
        valid_dims(dims),
        0 <= i1 < dims[0],
        0 <= i2 < dims[1],
        0 <= i3 < dims[2],
    ensures
        flat_index(i1, i2, i3, dims) / ((dims[1] * dims[2]) as int) == i1,
        (flat_index(i1, i2, i3, dims) / (dims[2] as int)) % (dims[1] as int) == i2,
        flat_index(i1, i2, i3, dims) % (dims[2] as int) == i3,
{
    let d1 = dims[1] as int;
    let d2 = dims[2] as int;
    let idx = flat_index(i1, i2, i3, dims);
    assert(0 <= i2 * d2 + i3 < d1 * d2) by (nonlinear_arith)
        requires
            0 <= i2 < d1,
            0 <= i3 < d2,
    ;
    vstd::arithmetic::div_mod::lemma_fundamental_div_mod_converse(
        idx,
        d1 * d2,
        i1,
        i2 * d2 + i3,
    );
    assert(idx == (i1 * d1 + i2) * d2 + i3) by (nonlinear_arith)
        requires
            idx == i1 * (d1 * d2) + i2 * d2 + i3,
    ;
    vstd::arithmetic::div_mod::lemma_fundamental_div_mod_converse(idx, d2, i1 * d1 + i2, i3);
    vstd::arithmetic::div_mod::lemma_fundamental_div_mod_converse(i1 * d1 + i2, d1, i1, i2);
}

/// Map Miller indices to their position on the flat FFT grid.
pub fn miller_to_idx(dims: [usize; 3], n1: i32, n2: i32, n3: i32) -> (idx: usize)
    requires
        valid_dims(dims),
    ensures
        idx == miller_index(dims, n1 as int, n2 as int, n3 as int),
        idx < dims[0] * dims[1] * dims[2],
{
    let i1 = wrap(n1, dims[0]);
    let i2 = wrap(n2, dims[1]);
    let i3 = wrap(n3, dims[2]);
    proof {
        lemma_flat_bounds(i1 as int, i2 as int, i3 as int, dims);
    }
    proof {
        let d0 = dims[0] as int;
        let d1 = dims[1] as int;
        let d2 = dims[2] as int;
        assert(d1 * d2 <= d0 * d1 * d2) by (nonlinear_arith)
            requires
                d0 >= 1,
                d1 >= 0,
                d2 >= 0,
        ;
    }
    let plane = dims[1] * dims[2];
    i1 * plane + i2 * dims[2] + i3
}

proof fn lemma_wrap_truncated(n: int, r: int, d: int)
    requires
        d > 0,
        n >= 0 ==> r == n % d,
        n < 0 ==> r == -((-n) % d),
    ensures
        0 <= r + d,
        (r + d) % d == n % d,
{
    if n >= 0 {
        vstd::arithmetic::div_mod::lemma_fundamental_div_mod_converse(r + d, d, 1, r);
    } else {
        let m = -n;
        let t = m % d;
        let q = m / d;
        vstd::arithmetic::div_mod::lemma_fundamental_div_mod(m, d);
        if t == 0 {
            assert(n == (-q) * d + 0) by (nonlinear_arith)
                requires
                    m == d * q + t,
                    t == 0,
                    n == -m,
            ;
            vstd::arithmetic::div_mod::lemma_fundamental_div_mod_converse(n, d, -q, 0);
            vstd::arithmetic::div_mod::lemma_fundamental_div_mod_converse(d, d, 1, 0);
        } else {
            assert(n == (-q - 1) * d + (d - t)) by (nonlinear_arith)
                requires
                    m == d * q + t,
                    n == -m,
            ;
            vstd::arithmetic::div_mod::lemma_fundamental_div_mod_converse(n, d, -q - 1, d - t);
            vstd::arithmetic::div_mod::lemma_fundamental_div_mod_converse(d - t, d, 0, d - t);
        }
    }
}

/// The Miller indices of a point of the flat FFT grid (the signed
/// frequencies behind its G-vector).
pub fn idx_to_miller(dims: [usize; 3], idx: usize) -> (n: [i32; 3])
    requires
        valid_dims(dims),
        idx < dims[0] * dims[1] * dims[2],
    ensures
        (n[0] as int, n[1] as int, n[2] as int) == index_miller(dims, idx as int),
{
    let ghost d0 = dims[0] as int;
    let ghost d1 = dims[1] as int;
    let ghost d2 = dims[2] as int;
    proof {
        assert(d1 * d2 <= d0 * d1 * d2) by (nonlinear_arith)
            requires
                d0 >= 1,
                d1 >= 0,
                d2 >= 0,
        ;
        let p = d1 * d2;
        assert(p > 0) by (nonlinear_arith)
            requires
                d1 > 0,
                d2 > 0,
                p == d1 * d2,
        ;
        vstd::arithmetic::div_mod::lemma_fundamental_div_mod(idx as int, p);
        vstd::arithmetic::div_mod::lemma_mod_bound(idx as int, p);
        let x = idx as int;
        assert(x / p < d0) by (nonlinear_arith)
            requires
                x < d0 * d1 * d2,
                p == d1 * d2,
                p > 0,
                x == p * (x / p) + x % p,
                x % p >= 0,
        ;
    }
    let plane = dims[1] * dims[2];
    let i1 = idx / plane;
    let i2 = (idx / dims[2]) % dims[1];
    let i3 = idx % dims[2];
    [signed(i1, dims[0]), signed(i2, dims[1]), signed(i3, dims[2])]
}

/// Grid position `i < d` read as a signed frequency.
fn signed(i: usize, d: usize) -> (n: i32)
    requires
        i < d <= MAX_GRID_DIM,
    ensures
        n == signed_freq(i as int, d as int),
{
    if i > d / 2 {
        i as i32 - d as i32
    } else {
        i as i32
    }
}

/// Reading a grid point's Miller indices and mapping them back gives the
/// same grid point.
pub proof fn lemma_idx_miller_roundtrip(dims: [usize; 3], idx: int)
    requires
        valid_dims(dims),
        0 <= idx < dims[0] * dims[1] * dims[2],
    ensures
        ({
            let (n1, n2, n3) = index_miller(dims, idx);
            miller_index(dims, n1, n2, n3) == idx
        }),
{
    let d0 = dims[0] as int;
    let d1 = dims[1] as int;
    let d2 = dims[2] as int;
    let i1 = idx / (d1 * d2);
    let rest = idx % (d1 * d2);
    assert(d1 * d2 > 0) by (nonlinear_arith)
        requires
            d1 > 0,
            d2 > 0,
    ;
    vstd::arithmetic::div_mod::lemma_fundamental_div_mod(idx, d1 * d2);
    vstd::arithmetic::div_mod::lemma_mod_bound(idx, d1 * d2);
    assert(0 <= i1 < d0) by (nonlinear_arith)
        requires
            idx == (d1 * d2) * i1 + rest,
            0 <= rest < d1 * d2,
            0 <= idx < d0 * d1 * d2,
    ;
    let i2 = rest / d2;
    let i3 = rest % d2;
    vstd::arithmetic::div_mod::lemma_fundamental_div_mod(rest, d2);
    assert(0 <= i2 < d1) by (nonlinear_arith)
        requires
            rest == d2 * i2 + i3,
            0 <= i3 < d2,
            0 <= rest < d1 * d2,
    ;
    assert(idx == i1 * (d1 * d2) + i2 * d2 + i3) by (nonlinear_arith)
        requires
            idx == (d1 * d2) * i1 + rest,
            rest == d2 * i2 + i3,
    ;
    assert(idx == flat_index(i1, i2, i3, dims));
    lemma_flat_decompose(i1, i2, i3, dims);
    lemma_signed_wrap(i1, d0);
    lemma_signed_wrap(i2, d1);
    lemma_signed_wrap(i3, d2);
}

/// A Miller index inside its axis's frequency range survives the trip to a
/// grid position and back.
pub proof fn lemma_miller_idx_roundtrip(dims: [usize; 3], n1: int, n2: int, n3: int)
    requires
        valid_dims(dims),
        in_freq_range(n1, dims[0] as int),
        in_freq_range(n2, dims[1] as int),
        in_freq_range(n3, dims[2] as int),
    ensures
        index_miller(dims, miller_index(dims, n1, n2, n3)) == (n1, n2, n3),
{
    let d0 = dims[0] as int;
    let d1 = dims[1] as int;
    let d2 = dims[2] as int;
    lemma_wrap_signed(n1, d0);
    lemma_wrap_signed(n2, d1);
    lemma_wrap_signed(n3, d2);
    lemma_flat_decompose(n1 % d0, n2 % d1, n3 % d2, dims);
}

proof fn lemma_signed_wrap(i: int, d: int)
    requires
        0 <= i < d,
    ensures
        wrap_index(signed_freq(i, d), d) == i,
{
    if i > d / 2 {
        vstd::arithmetic::div_mod::lemma_fundamental_div_mod_converse(i - d, d, -1, i);
    } else {
        vstd::arithmetic::div_mod::lemma_fundamental_div_mod_converse(i, d, 0, i);
    }
}

proof fn lemma_wrap_signed(n: int, d: int)
    requires
        d > 0,
        in_freq_range(n, d),
    ensures
        0 <= wrap_index(n, d) < d,
        signed_freq(wrap_index(n, d), d) == n,
{
    if n >= 0 {
        vstd::arithmetic::div_mod::lemma_fundamental_div_mod_converse(n, d, 0, n);
    } else {
        vstd::arithmetic::div_mod::lemma_fundamental_div_mod_converse(n, d, -1, n + d);
    }
}

/// `n` wrapped onto `[0, d)`.
fn wrap(n: i32, d: usize) -> (i: usize)
    requires
        0 < d <= MAX_GRID_DIM,
    ensures
        i == wrap_index(n as int, d as int),
        i < d,
{
    let di = d as i32;
    let r = n % di;
    let s = r + di;
    proof {
        assert(n >= 0 ==> r == n as int % di as int);
        assert(n < 0 ==> r == -((-(n as int)) % di as int));
        lemma_wrap_truncated(n as int, r as int, d as int);
    }
    (s as usize) % d
}

/// Flat FFT-grid positions of a list of Miller indices (the plane waves of a
/// basis set), in the same order.
pub fn basis_to_fft(dims: [usize; 3], miller: &Vec<[i32; 3]>) -> (idx: Vec<usize>)
    requires
        valid_dims(dims),
    ensures
        idx.len() == miller.len(),
        forall|i: int|
            0 <= i < miller.len() ==> #[trigger] idx[i] == miller_index(
                dims,
                miller[i][0] as int,
                miller[i][1] as int,
                miller[i][2] as int,
            ),
{
    let mut out: Vec<usize> = Vec::new();
    let mut i: usize = 0;
    while i < miller.len()
        invariant
            valid_dims(dims),
            i <= miller.len(),
            out.len() == i,
            forall|j: int|
                0 <= j < i ==> #[trigger] out[j] == miller_index(
                    dims,
                    miller[j][0] as int,
                    miller[j][1] as int,
                    miller[j][2] as int,
                ),
        decreases miller.len() - i,
    {
        let m = miller[i];
        out.push(miller_to_idx(dims, m[0], m[1], m[2]));
        i = i + 1;
    }
    out
}

/// The least `s` with `s * s >= r`.
pub open spec fn is_ceil_sqrt(s: int, r: int) -> bool {
    &&& s >= 0
    &&& s * s >= r
    &&& (s == 0 || (s - 1) * (s - 1) < r)
}

/// `ceil(sqrt(r))`, computed exactly in integers (for every `u32` this is
/// also what rounding the floating-point square root up gives).
pub fn ceil_sqrt(r: u32) -> (s: u32)
    ensures
        is_ceil_sqrt(s as int, r as int),
        s <= 65536,
{
    let mut s: u64 = 0;
    loop
        invariant
            s <= 65536,
            s == 0 || (s - 1) * (s - 1) < r,
        ensures
            s <= 65536,
            s * s >= r,
            s == 0 || (s - 1) * (s - 1) < r,
        decreases 65536 - s,
    {
        proof {
            assert(s * s <= 65536 * 65536) by (nonlinear_arith)
                requires
                    s <= 65536,
            ;
        }
        if s * s >= r as u64 {
            break;
        }
        proof {
            if s == 65536 {
                assert(s * s == 4294967296) by (nonlinear_arith)
                    requires
                        s == 65536,
                ;
            }
        }
        s = s + 1;
    }
    s as u32
}

/// Largest absolute value of component `d` over the Miller indices in `s`
/// (zero for an empty list).
pub open spec fn max_abs_component(s: Seq<[i32; 3]>, d: int) -> int
    decreases s.len(),
{
    if s.len() == 0 {
        0
    } else {
        let rest = max_abs_component(s.drop_last(), d);
        let v = s.last()[d] as int;
        let a = if v < 0 {
            -v
        } else {
            v
        };
        if a > rest {
            a
        } else {
            rest
        }
    }
}

/// No component equals `i32::MIN` (whose absolute value does not fit).
pub open spec fn abs_representable(s: Seq<[i32; 3]>) -> bool {
    forall|i: int, d: int| 0 <= i < s.len() && 0 <= d < 3 ==> #[trigger] s[i][d] != i32::MIN
}

proof fn lemma_max_abs_bounds(s: Seq<[i32; 3]>, d: int)
    requires
        abs_representable(s),
        0 <= d < 3,
    ensures
        0 <= max_abs_component(s, d) <= i32::MAX,
    decreases s.len(),
{
    if s.len() > 0 {
        assert(abs_representable(s.drop_last())) by {
            assert forall|i: int, e: int| 0 <= i < s.drop_last().len() && 0 <= e < 3 implies #[trigger] s.drop_last()[i][e] != i32::MIN by {
                assert(s.drop_last()[i] == s[i]);
            }
        }
        lemma_max_abs_bounds(s.drop_last(), d);
        assert(s.last() == s[s.len() - 1]);
        assert(s[s.len() - 1][d] != i32::MIN);
    }
}

/// Per-axis largest `|n|` over a list of Miller indices.
pub fn max_abs_miller(miller: &Vec<[i32; 3]>) -> (m: [i32; 3])
    requires
        abs_representable(miller@),
    ensures
        forall|d: int| 0 <= d < 3 ==> #[trigger] m[d] == max_abs_component(miller@, d),
{
    let mut best: [i32; 3] = [0, 0, 0];
    let mut i: usize = 0;
    while i < miller.len()
        invariant
            i <= miller.len(),
            abs_representable(miller@),
            forall|d: int| 0 <= d < 3 ==> #[trigger] best[d] == max_abs_component(miller@.take(i as int), d),
        decreases miller.len() - i,
    {
        let row = miller[i];
        proof {
            assert(miller@.take(i as int + 1).drop_last() == miller@.take(i as int));
            assert(miller@.take(i as int + 1).last() == row);
        }
        let mut d: usize = 0;
        while d < 3
            invariant
                d <= 3,
                i < miller.len(),
                row == miller@[i as int],
                abs_representable(miller@),
                miller@.take(i as int + 1).drop_last() == miller@.take(i as int),
                miller@.take(i as int + 1).last() == row,
                forall|e: int| 0 <= e < d ==> #[trigger] best[e] == max_abs_component(miller@.take(i as int + 1), e),
                forall|e: int| d <= e < 3 ==> #[trigger] best[e] == max_abs_component(miller@.take(i as int), e),
            decreases 3 - d,
        {
            proof {
                assert(miller@[i as int][d as int] != i32::MIN);
            }
            let v = row[d];
            let a: i32 = if v < 0 { -v } else { v };
            if a > best[d] {
                best[d] = a;
            }
            d = d + 1;
        }
        i = i + 1;
    }
    proof {
        assert(miller@.take(miller.len() as int) == miller@);
    }
    best
}

/// FFT grid dimensions for the charge density: `explicit` when given,
/// otherwise per axis the smallest FFT-friendly size that holds the basis's
/// Miller indices scaled by `ceil(sqrt(ecutrho_ratio))` (the density has
/// `ecutrho_ratio` times the wavefunction cutoff, so its G-vectors reach
/// `sqrt(ecutrho_ratio)` times further).
pub fn fft_dims(miller: &Vec<[i32; 3]>, ecutrho_ratio: u32, explicit: Option<[usize; 3]>) -> (dims: [usize; 3])
    requires
        explicit is None ==> abs_representable(miller@),
        explicit is None ==> forall|s: int, d: int|
            #![trigger is_ceil_sqrt(s, ecutrho_ratio as int), max_abs_component(miller@, d)]
            is_ceil_sqrt(s, ecutrho_ratio as int) && 0 <= d < 3 ==> s * max_abs_component(miller@, d) <= 1073741823,
    ensures
        explicit matches Some(e) ==> dims == e,
        explicit is None ==> forall|s: int, d: int|
            #![trigger is_ceil_sqrt(s, ecutrho_ratio as int), dims[d]]
            is_ceil_sqrt(s, ecutrho_ratio as int) && 0 <= d < 3 ==> is_grid_size_for(
                dims[d] as int,
                s * max_abs_component(miller@, d),
            ),
{
    match explicit {
        Some(e) => e,
        None => {
            let n_max = max_abs_miller(miller);
            let scale = ceil_sqrt(ecutrho_ratio);
            proof {
                assert(is_ceil_sqrt(scale as int, ecutrho_ratio as int));
                lemma_max_abs_bounds(miller@, 0);
                lemma_max_abs_bounds(miller@, 1);
                lemma_max_abs_bounds(miller@, 2);
                lemma_ceil_sqrt_unique(ecutrho_ratio as int);
                assert(scale * n_max[0] <= 1073741823);
                assert(scale * n_max[1] <= 1073741823);
                assert(scale * n_max[2] <= 1073741823);
                assert(scale * n_max[0] >= 0) by (nonlinear_arith) requires scale >= 0, n_max[0] >= 0;
                assert(scale * n_max[1] >= 0) by (nonlinear_arith) requires scale >= 0, n_max[1] >= 0;
                assert(scale * n_max[2] >= 0) by (nonlinear_arith) requires scale >= 0, n_max[2] >= 0;
            }
            let sc = scale as i32;
            let d0 = fft_grid_size(sc * n_max[0]);
            let d1 = fft_grid_size(sc * n_max[1]);
            let d2 = fft_grid_size(sc * n_max[2]);
            [d0, d1, d2]
        }
    }
}

/// The integer square root rounded up is unique.
pub proof fn lemma_ceil_sqrt_unique(r: int)
    ensures
        forall|s: int, t: int| is_ceil_sqrt(s, r) && is_ceil_sqrt(t, r) ==> s == t,
{
    assert forall|s: int, t: int| is_ceil_sqrt(s, r) && is_ceil_sqrt(t, r) implies s == t by {
        if s < t {
            assert((t - 1) * (t - 1) >= s * s) by (nonlinear_arith)
                requires
                    0 <= s <= t - 1,
            ;
        } else if t < s {
            assert((s - 1) * (s - 1) >= t * t) by (nonlinear_arith)
                requires
                    0 <= t <= s - 1,
            ;
        }
    }
}

} // verus!
