//! Weights of Simpson's rule on a radial mesh.
//!
//! The integral `∫ f(r) dr` over a mesh with integration weights `rab` is
//! `Σ_i w_i f_i rab_i / 12`, with the integer weights `w_i` below: for an
//! odd number of points the composite rule `1, 4, 2, 4, ..., 4, 1` (in
//! thirds), for an even number the same with the last interval closed by a
//! correction (`-1/4`, `+1`, `+5/4` on the last three points), and plain
//! weights `1` below three points.
use vstd::prelude::*;

verus! {

/// Weight of point `i` of an `n`-point mesh, in twelfths.
pub open spec fn simpson_weight(n: int, i: int) -> int {
    if n < 3 {
        12
    } else if i == 0 {
        4
    } else if i == n - 1 {
        if n % 2 == 1 {
            4
        } else {
            5
        }
    } else {
        let base: int = if i % 2 == 1 {
            16
        } else {
            8
        };
        if n % 2 == 0 && i == n - 3 {
            base - 1
        } else if n % 2 == 0 && i == n - 2 {
            base + 4
        } else {
            base
        }
    }
}

/// The Simpson weights (in twelfths) of an `n`-point mesh.
pub fn simpson_weights(n: usize) -> (w: Vec<u32>)
    ensures
        w@.len() == n,
        forall|i: int| 0 <= i < n ==> #[trigger] w@[i] == simpson_weight(n as int, i),
{
    let mut w: Vec<u32> = Vec::new();
    let mut i: usize = 0;
    while i < n
        invariant
            i <= n,
            w@.len() == i,
            forall|k: int| 0 <= k < i ==> #[trigger] w@[k] == simpson_weight(n as int, k),
        decreases n - i,
    {
        let x: u32 = if n < 3 {
            12
        } else if i == 0 {
            4
        } else if i == n - 1 {
            if n % 2 == 1 {
                4
            } else {
                5
            }
        } else {
            let base: u32 = if i % 2 == 1 {
                16
            } else {
                8
            };
            if n % 2 == 0 && i == n - 3 {
                base - 1
            } else if n % 2 == 0 && i == n - 2 {
                base + 4
            } else {
                base
            }
        };
        w.push(x);
        i = i + 1;
    }
    w
}

/// Sum of the weights of the points `0..k` of an `n`-point mesh.
pub open spec fn weight_sum(n: int, k: int) -> int
    decreases k,
{
    if k <= 0 {
        0
    } else {
        weight_sum(n, k - 1) + simpson_weight(n, k - 1)
    }
}

proof fn lemma_interior_sum(n: int, k: int)
    requires
        3 <= n,
        1 <= k <= n - 1,
        n % 2 == 1 || k <= n - 3,
    ensures
        weight_sum(n, k) == 4 + 12 * (k - 1) + (if (k - 1) % 2 == 1 {
            4int
        } else {
            0
        }),
    decreases k,
{
    if k > 1 {
        lemma_interior_sum(n, k - 1);
        assert((k - 1) % 2 == 1 <==> (k - 2) % 2 == 0);
        assert(weight_sum(n, k) == weight_sum(n, k - 1) + simpson_weight(n, k - 1));
    } else {
        assert(weight_sum(n, 0) == 0);
        assert(weight_sum(n, 1) == weight_sum(n, 0) + simpson_weight(n, 0));
    }
}

/// Simpson's rule integrates constants exactly: on a mesh of `n >= 3`
/// points with unit spacing the weights add up to the length `n - 1`
/// (here in twelfths); below three points the rule sums `f` times `rab`.
pub proof fn lemma_simpson_weights_sum(n: int)
    requires
        n >= 1,
    ensures
        n >= 3 ==> weight_sum(n, n) == 12 * (n - 1),
        n < 3 ==> weight_sum(n, n) == 12 * n,
    decreases n,
{
    if n < 3 {
        reveal_with_fuel(weight_sum, 3);
    } else if n % 2 == 1 {
        lemma_interior_sum(n, n - 1);
        assert(weight_sum(n, n) == weight_sum(n, n - 1) + 4);
    } else {
        lemma_interior_sum(n, n - 3);
        assert(weight_sum(n, n - 2) == weight_sum(n, n - 3) + simpson_weight(n, n - 3));
        assert(weight_sum(n, n - 1) == weight_sum(n, n - 2) + simpson_weight(n, n - 2));
        assert(weight_sum(n, n) == weight_sum(n, n - 1) + 5);
    }
}

} // verus!
