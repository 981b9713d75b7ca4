//! Monkhorst-Pack k-point meshes and band-structure paths, in exact rational
//! reciprocal (crystal) coordinates.
use vstd::prelude::*;

verus! {

/// Shift convention for a Monkhorst-Pack k-grid.
///
/// - `GammaCentered`: fractional coordinates `i/N` (the mesh contains Γ).
/// - `MP1976`: the Monkhorst & Pack (1976) half-shift `(i + 1/2)/N`.
/// - `Custom(k)`: per-axis half-shift flags, `(i + k_a/2)/N`.
#[derive(Clone, Copy, Debug)]
pub enum KGridShift {
    GammaCentered,
    MP1976,
    Custom([u32; 3]),
}

impl PartialEq for KGridShift {
    fn eq(&self, other: &Self) -> (r: bool) {
        match (self, other) {
            (KGridShift::GammaCentered, KGridShift::GammaCentered) => true,
            (KGridShift::MP1976, KGridShift::MP1976) => true,
            (KGridShift::Custom(a), KGridShift::Custom(b)) => a[0] == b[0] && a[1] == b[1] && a[2]
                == b[2],
            _ => false,
        }
    }
}

impl Eq for KGridShift {

}

impl vstd::std_specs::cmp::PartialEqSpecImpl for KGridShift {
    open spec fn obeys_eq_spec() -> bool {
        true
    }

    open spec fn eq_spec(&self, other: &Self) -> bool {
        match (*self, *other) {
            (KGridShift::GammaCentered, KGridShift::GammaCentered) => true,
            (KGridShift::MP1976, KGridShift::MP1976) => true,
            (KGridShift::Custom(a), KGridShift::Custom(b)) => a[0] == b[0] && a[1] == b[1] && a[2]
                == b[2],
            _ => false,
        }
    }
}

impl Default for KGridShift {
    /// Γ-centered, the Quantum ESPRESSO default.
    fn default() -> (s: Self)
        ensures
            s == KGridShift::GammaCentered,
    {
        KGridShift::GammaCentered
    }
}

/// Spec of [`KGridShift::axis_flags`].
pub open spec fn spec_axis_flags(shift: KGridShift) -> [u32; 3] {
    match shift {
        KGridShift::GammaCentered => [0, 0, 0],
        KGridShift::MP1976 => [1, 1, 1],
        KGridShift::Custom(flags) => flags,
    }
}

impl KGridShift {
    /// The per-axis half-shift integers `k_a` that parameterise this shift.
    pub fn axis_flags(self) -> (f: [u32; 3])
        ensures
            f == spec_axis_flags(self),
    {
        match self {
            KGridShift::GammaCentered => [0, 0, 0],
            KGridShift::MP1976 => [1, 1, 1],
            KGridShift::Custom(flags) => flags,
        }
    }
}

/// A point of a k-mesh in exact fractional reciprocal coordinates: along
/// axis `a` the coordinate is `num[a] / den[a]` (`0 / 0` where the mesh has
/// no points along that axis).
#[derive(Clone, Copy, Debug)]
pub struct MeshCoord {
    pub num: [i64; 3],
    pub den: [u64; 3],
}

/// The wrapped numerator of `(2 i + k) / (2 n)`: the raw coordinate minus
/// the nearest integer below `raw + 1/2`, i.e. its image in `[-1/2, 1/2)`,
/// over the same denominator `2 n`.
pub open spec fn wrapped_numerator(i: int, k: int, n: int) -> int {
    let raw = 2 * i + k;
    if n == 0 {
        0
    } else {
        raw - 2 * n * ((raw + n) / (2 * n))
    }
}

/// Spec of [`mp_fractional_coord`]. An axis whose mesh dimension is zero
/// gets the coordinate `0 / 0`: it has no value.
pub open spec fn spec_mesh_coord(i: [u32; 3], grid: [u32; 3], shift: KGridShift) -> MeshCoord {
    let k = spec_axis_flags(shift);
    MeshCoord {
        num: [
            wrapped_numerator(i[0] as int, k[0] as int, grid[0] as int) as i64,
            wrapped_numerator(i[1] as int, k[1] as int, grid[1] as int) as i64,
            wrapped_numerator(i[2] as int, k[2] as int, grid[2] as int) as i64,
        ],
        den: [(2 * grid[0]) as u64, (2 * grid[1]) as u64, (2 * grid[2]) as u64],
    }
}

proof fn lemma_wrapped_range(i: int, k: int, n: int)
    requires
        n > 0,
        i >= 0,
        k >= 0,
    ensures
        -n <= wrapped_numerator(i, k, n) < n,
{
    let raw = 2 * i + k;
    let q = (raw + n) / (2 * n);
    let r = (raw + n) % (2 * n);
    vstd::arithmetic::div_mod::lemma_fundamental_div_mod(raw + n, 2 * n);
    vstd::arithmetic::div_mod::lemma_mod_bound(raw + n, 2 * n);
    assert(raw - 2 * n * q == r - n);
}

/// Wrapped numerator along one axis: `(2 i + k) / (2 n)` mapped into
/// `[-1/2, 1/2)`.
fn wrap_axis(i: u32, k: u32, n: u32) -> (num: i64)
    requires
        n > 0,
    ensures
        num == wrapped_numerator(i as int, k as int, n as int),
        -(n as int) <= num < n,
{
    let raw: u64 = 2 * (i as u64) + (k as u64);
    let den: u64 = 2 * (n as u64);
    let q: u64 = (raw + n as u64) / den;
    proof {
        lemma_wrapped_range(i as int, k as int, n as int);
        let x = (raw + n) as int;
        let dd = den as int;
        vstd::arithmetic::div_mod::lemma_fundamental_div_mod(x, dd);
        vstd::arithmetic::div_mod::lemma_mod_bound(x, dd);
        assert(q * den <= raw + n) by (nonlinear_arith)
            requires
                q == x / dd,
                x == dd * (x / dd) + x % dd,
                x % dd >= 0,
                x == raw + n,
                dd == den,
        ;
    }
    (raw as i64) - ((q * den) as i64)
}

/// Fractional reciprocal coordinate of grid point `(i1, i2, i3)` on an
/// `N1 x N2 x N3` Monkhorst-Pack mesh with the given shift:
/// `f_a = i_a / N_a + k_a / (2 N_a)`, wrapped into the first Brillouin zone
/// `[-1/2, 1/2)`. Along an axis with `N_a == 0` the formula has no value (a
/// floating-point evaluation gives NaN); that axis gets `0 / 0`.
pub fn mp_fractional_coord(i1: u32, i2: u32, i3: u32, grid: [u32; 3], shift: KGridShift) -> (c:
    MeshCoord)
    ensures
        c == spec_mesh_coord([i1, i2, i3], grid, shift),
{
    let k = shift.axis_flags();
    let n0 = if grid[0] == 0 {
        0
    } else {
        wrap_axis(i1, k[0], grid[0])
    };
    let n1 = if grid[1] == 0 {
        0
    } else {
        wrap_axis(i2, k[1], grid[1])
    };
    let n2 = if grid[2] == 0 {
        0
    } else {
        wrap_axis(i3, k[2], grid[2])
    };
    MeshCoord {
        num: [n0, n1, n2],
        den: [2 * (grid[0] as u64), 2 * (grid[1] as u64), 2 * (grid[2] as u64)],
    }
}

/// Spec of [`monkhorst_pack`]: the `p`-th point of the mesh, points ordered
/// with the third index running fastest.
pub open spec fn spec_mesh_point(p: int, n: [u32; 3], shift: KGridShift) -> MeshCoord {
    let n2 = n[2] as int;
    let n1 = n[1] as int;
    spec_mesh_coord(
        [(p / (n1 * n2)) as u32, ((p / n2) % n1) as u32, (p % n2) as u32],
        n,
        shift,
    )
}

/// The uniform `n1 x n2 x n3` Monkhorst-Pack mesh (no symmetry reduction) in
/// fractional reciprocal coordinates, loop order `i1`, `i2`, `i3` with `i3`
/// fastest. Every point carries weight `1 / (n1 n2 n3)`.
pub fn monkhorst_pack(n1: u32, n2: u32, n3: u32, shift: KGridShift) -> (mesh: Vec<MeshCoord>)
    requires
        n1 * n2 * n3 <= u32::MAX,
    ensures
        mesh.len() == n1 * n2 * n3,
        forall|p: int| 0 <= p < mesh.len() ==> #[trigger] mesh[p] == spec_mesh_point(p, [n1, n2, n3], shift),
{
    let grid = [n1, n2, n3];
    let mut mesh: Vec<MeshCoord> = Vec::new();
    let k = shift.axis_flags();
    if n1 == 0 || n2 == 0 || n3 == 0 {
        proof {
            assert(n1 * n2 * n3 == 0) by (nonlinear_arith)
                requires
                    n1 == 0 || n2 == 0 || n3 == 0,
            ;
        }
        return mesh;
    }
    let mut i1: u32 = 0;
    while i1 < n1
        invariant
            0 < n1 && 0 < n2 && 0 < n3,
            grid == [n1, n2, n3],
            k == spec_axis_flags(shift),
            i1 <= n1,
            mesh.len() == i1 * n2 * n3,
            forall|p: int| 0 <= p < mesh.len() ==> #[trigger] mesh[p] == spec_mesh_point(p, grid, shift),
        decreases n1 - i1,
    {
        let mut i2: u32 = 0;
        while i2 < n2
            invariant
                0 < n1 && 0 < n2 && 0 < n3,
                grid == [n1, n2, n3],
                k == spec_axis_flags(shift),
                i1 < n1,
                i2 <= n2,
                mesh.len() == i1 * n2 * n3 + i2 * n3,
                forall|p: int| 0 <= p < mesh.len() ==> #[trigger] mesh[p] == spec_mesh_point(p, grid, shift),
            decreases n2 - i2,
        {
            let mut i3: u32 = 0;
            while i3 < n3
                invariant
                    0 < n1 && 0 < n2 && 0 < n3,
                    grid == [n1, n2, n3],
                    k == spec_axis_flags(shift),
                    i1 < n1,
                    i2 < n2,
                    i3 <= n3,
                    mesh.len() == i1 * n2 * n3 + i2 * n3 + i3,
                    forall|p: int| 0 <= p < mesh.len() ==> #[trigger] mesh[p] == spec_mesh_point(p, grid, shift),
                decreases n3 - i3,
            {
                let c = MeshCoord {
                    num: [wrap_axis(i1, k[0], n1), wrap_axis(i2, k[1], n2), wrap_axis(i3, k[2], n3)],
                    den: [2 * (n1 as u64), 2 * (n2 as u64), 2 * (n3 as u64)],
                };
                proof {
                    let p = mesh.len() as int;
                    let a = n1 as int;
                    let b = n2 as int;
                    let d = n3 as int;
                    assert(p == i1 * (b * d) + (i2 * d + i3)) by (nonlinear_arith)
                        requires
                            p == i1 * b * d + i2 * d + i3,
                    ;
                    assert(0 <= i2 * d + i3 < b * d) by (nonlinear_arith)
                        requires
                            0 <= i2 < b,
                            0 <= i3 < d,
                    ;
                    vstd::arithmetic::div_mod::lemma_fundamental_div_mod_converse(
                        p,
                        b * d,
                        i1 as int,
                        i2 * d + i3,
                    );
                    assert(p == (i1 * b + i2) * d + i3) by (nonlinear_arith)
                        requires
                            p == i1 * (b * d) + (i2 * d + i3),
                    ;
                    vstd::arithmetic::div_mod::lemma_fundamental_div_mod_converse(
                        p,
                        d,
                        i1 * b + i2,
                        i3 as int,
                    );
                    vstd::arithmetic::div_mod::lemma_fundamental_div_mod_converse(
                        i1 * b + i2,
                        b,
                        i1 as int,
                        i2 as int,
                    );
                    assert(c == spec_mesh_point(p, grid, shift));
                    assert(i1 * b * d + i2 * d + i3 + 1 <= a * b * d) by (nonlinear_arith)
                        requires
                            0 <= i1 < a,
                            0 <= i2 < b,
                            0 <= i3 < d,
                    {
                        assert(i2 * d + i3 + 1 <= b * d) by (nonlinear_arith)
                            requires
                                0 <= i2 < b,
                                0 <= i3 < d,
                        ;
                        assert(i1 * (b * d) + b * d <= a * (b * d)) by (nonlinear_arith)
                            requires
                                0 <= i1 < a,
                                b * d >= 0,
                        ;
                    }
                }
                mesh.push(c);
                i3 = i3 + 1;
            }
            proof {
                assert(i1 * n2 * n3 + i2 * n3 + n3 == i1 * n2 * n3 + (i2 + 1) * n3) by (nonlinear_arith);
            }
            i2 = i2 + 1;
        }
        proof {
            assert(i1 * n2 * n3 + n2 * n3 == (i1 + 1) * n2 * n3) by (nonlinear_arith);
        }
        i1 = i1 + 1;
    }
    mesh
}

/// `Custom([0, 0, 0])` is the Γ-centered mesh and `Custom([1, 1, 1])` is the
/// Monkhorst-Pack 1976 mesh, point for point.
pub proof fn lemma_custom_flags_match_named_shifts(p: int, n: [u32; 3])
    ensures
        spec_mesh_point(p, n, KGridShift::Custom([0, 0, 0])) == spec_mesh_point(
            p,
            n,
            KGridShift::GammaCentered,
        ),
        spec_mesh_point(p, n, KGridShift::Custom([1, 1, 1])) == spec_mesh_point(
            p,
            n,
            KGridShift::MP1976,
        ),
{
}

/// Every mesh coordinate lies in the first Brillouin zone `[-1/2, 1/2)`.
pub proof fn lemma_mesh_in_first_zone(i: [u32; 3], grid: [u32; 3], shift: KGridShift, a: int)
    requires
        grid[0] > 0 && grid[1] > 0 && grid[2] > 0,
        0 <= a < 3,
    ensures
        -(grid[a] as int) <= spec_mesh_coord(i, grid, shift).num[a] < grid[a],
        spec_mesh_coord(i, grid, shift).den[a] == 2 * grid[a],
{
    let k = spec_axis_flags(shift);
    lemma_wrapped_range(i[a] as int, k[a] as int, grid[a] as int);
}

/// The Γ-centered mesh contains Γ: its first point is the origin.
pub proof fn lemma_gamma_centered_contains_gamma(n: [u32; 3])
    requires
        n[0] > 0 && n[1] > 0 && n[2] > 0,
    ensures
        spec_mesh_point(0, n, KGridShift::GammaCentered).num == [0i64, 0, 0],
{
    let n0 = n[0] as int;
    let n1 = n[1] as int;
    let n2 = n[2] as int;
    assert(n1 * n2 > 0) by (nonlinear_arith)
        requires
            n1 > 0,
            n2 > 0,
    ;
    assert(0int / (n1 * n2) == 0);
    assert(0int / n2 == 0);
    assert(0int % n1 == 0);
    assert(0int % n2 == 0);
    lemma_wrap_zero(n0);
    lemma_wrap_zero(n1);
    lemma_wrap_zero(n2);
}

proof fn lemma_wrap_zero(n: int)
    requires
        n > 0,
    ensures
        wrapped_numerator(0, 0, n) == 0,
{
    vstd::arithmetic::div_mod::lemma_fundamental_div_mod_converse(n, 2 * n, 0, n);
}

/// Along an axis with half-shift flag 1 no coordinate is zero: the
/// Monkhorst-Pack 1976 mesh never contains Γ.
pub proof fn lemma_half_shift_avoids_gamma(i: [u32; 3], grid: [u32; 3], shift: KGridShift, a: int)
    requires
        grid[0] > 0 && grid[1] > 0 && grid[2] > 0,
        0 <= a < 3,
        spec_axis_flags(shift)[a] == 1,
    ensures
        spec_mesh_coord(i, grid, shift).num[a] != 0,
{
    let n = grid[a] as int;
    let raw = 2 * (i[a] as int) + 1;
    let q = (raw + n) / (2 * n);
    lemma_wrapped_range(i[a] as int, 1, n);
    let t = n * q;
    assert(2 * n * q == 2 * t) by (nonlinear_arith)
        requires
            t == n * q,
    ;
    assert(raw - 2 * t != 0);
}

/// The shift of a mesh acts axis by axis as its flags say: `Custom(f)` has
/// flags `f` (Γ-centered `[0, 0, 0]`, Monkhorst-Pack `[1, 1, 1]`), and along
/// each axis `a` with `N_a > 0` the coordinate of grid index `i_a` is
/// `(2 i_a + f_a) / (2 N_a)` reduced modulo 1 into `[-1/2, 1/2)`.
pub proof fn lemma_custom_shift_per_axis(i: [u32; 3], grid: [u32; 3], f: [u32; 3], a: int)
    requires
        0 <= a < 3,
        grid[a] > 0,
    ensures
        spec_axis_flags(KGridShift::Custom(f)) == f,
        spec_axis_flags(KGridShift::GammaCentered) == [0u32, 0, 0],
        spec_axis_flags(KGridShift::MP1976) == [1u32, 1, 1],
        spec_mesh_coord(i, grid, KGridShift::Custom(f)).den[a] == 2 * grid[a],
        -(grid[a] as int) <= spec_mesh_coord(i, grid, KGridShift::Custom(f)).num[a] < grid[a],
        (2 * i[a] + f[a] - spec_mesh_coord(i, grid, KGridShift::Custom(f)).num[a]) % (2
            * grid[a] as int) == 0,
{
    let n = grid[a] as int;
    let raw = 2 * (i[a] as int) + f[a] as int;
    let q = (raw + n) / (2 * n);
    lemma_wrapped_range(i[a] as int, f[a] as int, n);
    let w = wrapped_numerator(i[a] as int, f[a] as int, n);
    assert(w == raw - 2 * n * q);
    assert(spec_mesh_coord(i, grid, KGridShift::Custom(f)).num[a] as int == w);
    vstd::arithmetic::div_mod::lemma_mod_multiples_basic(q, 2 * n);
    assert(q * (2 * n) == 2 * n * q) by (nonlinear_arith);
}

/// The mesh lists its points with the third index running fastest: grid
/// point `(i1, i2, i3)` of an `n1 x n2 x n3` mesh is entry
/// `(i1 n2 + i2) n3 + i3`.
pub proof fn lemma_mesh_order(i: [u32; 3], n: [u32; 3], shift: KGridShift)
    requires
        i[0] < n[0],
        i[1] < n[1],
        i[2] < n[2],
    ensures
        spec_mesh_point((i[0] * n[1] + i[1]) * n[2] + i[2], n, shift) == spec_mesh_coord(i, n, shift),
{
    let b = n[1] as int;
    let d = n[2] as int;
    let i1 = i[0] as int;
    let i2 = i[1] as int;
    let i3 = i[2] as int;
    let p = (i1 * b + i2) * d + i3;
    assert(p == i1 * (b * d) + (i2 * d + i3)) by (nonlinear_arith)
        requires
            p == (i1 * b + i2) * d + i3,
    ;
    assert(0 <= i2 * d + i3 < b * d) by (nonlinear_arith)
        requires
            0 <= i2 < b,
            0 <= i3 < d,
    ;
    vstd::arithmetic::div_mod::lemma_fundamental_div_mod_converse(p, b * d, i1, i2 * d + i3);
    vstd::arithmetic::div_mod::lemma_fundamental_div_mod_converse(p, d, i1 * b + i2, i3);
    vstd::arithmetic::div_mod::lemma_fundamental_div_mod_converse(i1 * b + i2, b, i1, i2);
    assert([(p / (b * d)) as u32, ((p / d) % b) as u32, (p % d) as u32] =~= i);
}

/// Whether a sample of a band path carries a vertex label.
#[derive(Clone, Copy, Debug, PartialEq, Eq)]
pub enum PathLabel {
    /// The segment's start vertex.
    Start,
    /// The path's final vertex.
    End,
    /// An interior sample.
    Unlabeled,
}

/// One sample of a band path: `step / npoints` of the way along segment
/// `segment` (from vertex `segment` to vertex `segment + 1`).
#[derive(Clone, Copy, Debug)]
pub struct PathSample {
    pub segment: usize,
    pub step: usize,
    pub label: PathLabel,
}

/// Number of samples on a path through `n_vertices >= 1` vertices with
/// `npoints` samples per segment: each segment but the last leaves out its
/// end vertex, the last one includes it.
pub open spec fn path_len(n_vertices: int, npoints: int) -> int {
    if n_vertices <= 1 {
        0
    } else {
        (n_vertices - 1) * npoints + 1
    }
}

/// Spec of [`band_path_samples`]: the `p`-th sample.
pub open spec fn spec_path_sample(n_vertices: int, npoints: int, p: int) -> PathSample {
    let last = n_vertices - 2;
    let (segment, step) = if p == (n_vertices - 1) * npoints {
        (last, npoints)
    } else {
        (p / npoints, p % npoints)
    };
    PathSample {
        segment: segment as usize,
        step: step as usize,
        label: if step == 0 {
            PathLabel::Start
        } else if segment == last && step == npoints {
            PathLabel::End
        } else {
            PathLabel::Unlabeled
        },
    }
}

/// The shape of a band path through `n_vertices >= 2` vertices with
/// `npoints >= 1` samples per segment: it has `(n_vertices - 1) * npoints + 1`
/// samples; the first is the first vertex and the last the final vertex,
/// each labelled; and sample `p` lies exactly `p` steps of `1 / npoints`
/// segment along the path, so the samples advance along it one step at a
/// time, and only the last one reaches the end of the final segment and
/// carries the final vertex's label.
pub proof fn lemma_band_path_shape(n_vertices: usize, npoints: usize, p: int)
    requires
        n_vertices >= 2,
        npoints >= 1,
        0 <= p < path_len(n_vertices as int, npoints as int),
    ensures
        path_len(n_vertices as int, npoints as int) == (n_vertices - 1) * npoints + 1,
        spec_path_sample(n_vertices as int, npoints as int, 0) == (PathSample {
            segment: 0,
            step: 0,
            label: PathLabel::Start,
        }),
        spec_path_sample(
            n_vertices as int,
            npoints as int,
            path_len(n_vertices as int, npoints as int) - 1,
        ) == (PathSample {
            segment: (n_vertices - 2) as usize,
            step: npoints,
            label: PathLabel::End,
        }),
        ({
            let s = spec_path_sample(n_vertices as int, npoints as int, p);
            &&& s.segment < n_vertices - 1
            &&& s.step <= npoints
            &&& s.segment * npoints + s.step == p
            &&& s.step == npoints <==> p == path_len(n_vertices as int, npoints as int) - 1
            &&& (s.label == PathLabel::Start) == (s.step == 0)
            &&& (s.label == PathLabel::End) == (p == path_len(n_vertices as int, npoints as int)
                - 1)
        }),
{
    let nv = n_vertices as int;
    let np = npoints as int;
    let last = (nv - 1) * np;
    assert(last >= np) by (nonlinear_arith)
        requires
            nv >= 2,
            np >= 1,
            last == (nv - 1) * np,
    ;
    assert((nv - 2) * np + np == last) by (nonlinear_arith)
        requires
            last == (nv - 1) * np,
    ;
    vstd::arithmetic::div_mod::lemma_fundamental_div_mod_converse(0, np, 0, 0);
    if p < last {
        let q = p / np;
        let r = p % np;
        vstd::arithmetic::div_mod::lemma_fundamental_div_mod(p, np);
        vstd::arithmetic::div_mod::lemma_mod_bound(p, np);
        assert(0 <= q) by (nonlinear_arith)
            requires
                p == np * q + r,
                0 <= r < np,
                p >= 0,
        ;
        assert(q < nv - 1) by (nonlinear_arith)
            requires
                p == np * q + r,
                0 <= r < np,
                p < (nv - 1) * np,
        ;
        assert(q * np == np * q) by (nonlinear_arith);
    }
}

/// The sampling plan of a band-structure path through `n_vertices`
/// high-symmetry points: segment by segment, `npoints` samples per segment
/// (`npoints + 1` on the last, which ends on the final vertex); a sample is
/// labelled with its segment's start vertex when it is the first of its
/// segment, and with the end vertex when it closes the path.
pub fn band_path_samples(n_vertices: usize, npoints: usize) -> (plan: Vec<PathSample>)
    requires
        n_vertices >= 1,
        (n_vertices - 1) * npoints + 1 <= usize::MAX,
    ensures
        plan.len() == path_len(n_vertices as int, npoints as int),
        forall|p: int|
            0 <= p < plan.len() ==> #[trigger] plan[p] == spec_path_sample(
                n_vertices as int,
                npoints as int,
                p,
            ),
{
    let mut plan: Vec<PathSample> = Vec::new();
    let mut seg: usize = 0;
    while seg + 1 < n_vertices
        invariant
            n_vertices >= 1,
            (n_vertices - 1) * npoints + 1 <= usize::MAX,
            seg <= n_vertices - 1,
            plan.len() == seg * npoints + (if seg + 1 == n_vertices && seg > 0 { 1int } else { 0 }),
            forall|p: int|
                0 <= p < plan.len() ==> #[trigger] plan[p] == spec_path_sample(
                    n_vertices as int,
                    npoints as int,
                    p,
                ),
        decreases n_vertices - seg,
    {
        let is_last = seg + 2 == n_vertices;
        proof {
            assert(npoints <= (n_vertices - 1) * npoints) by (nonlinear_arith)
                requires
                    n_vertices - 1 >= 1,
                    npoints >= 0,
            ;
        }
        let n = if is_last {
            npoints + 1
        } else {
            npoints
        };
        proof {
            assert(seg * npoints + npoints <= (n_vertices - 1) * npoints) by (nonlinear_arith)
                requires
                    seg + 1 <= n_vertices - 1,
                    npoints >= 0,
            ;
        }
        let mut i: usize = 0;
        while i < n
            invariant
                n_vertices >= 1,
                (n_vertices - 1) * npoints + 1 <= usize::MAX,
                seg + 1 < n_vertices,
                is_last == (seg + 2 == n_vertices),
                n == if is_last { npoints + 1 } else { npoints as int },
                seg * npoints + npoints <= (n_vertices - 1) * npoints,
                i <= n,
                plan.len() == seg * npoints + i,
                forall|p: int|
                    0 <= p < plan.len() ==> #[trigger] plan[p] == spec_path_sample(
                        n_vertices as int,
                        npoints as int,
                        p,
                    ),
            decreases n - i,
        {
            let label = if i == 0 {
                PathLabel::Start
            } else if is_last && i == n - 1 {
                PathLabel::End
            } else {
                PathLabel::Unlabeled
            };
            let sample = PathSample { segment: seg, step: i, label };
            proof {
                let p = plan.len() as int;
                let nv = n_vertices as int;
                let np = npoints as int;
                if i == npoints {
                    assert(is_last);
                    assert(p == (nv - 1) * np) by (nonlinear_arith)
                        requires
                            p == seg * np + i,
                            i == np,
                            seg + 2 == nv,
                    ;
                } else {
                    assert(i < npoints);
                    assert(p != (nv - 1) * np) by (nonlinear_arith)
                        requires
                            p == seg * np + i,
                            i < np,
                            seg + 1 < nv,
                    ;
                    vstd::arithmetic::div_mod::lemma_fundamental_div_mod_converse(
                        p,
                        np,
                        seg as int,
                        i as int,
                    );
                }
                assert(sample == spec_path_sample(nv, np, p));
            }
            plan.push(sample);
            i = i + 1;
        }
        proof {
            if is_last {
                assert(plan.len() == (n_vertices - 1) * npoints + 1) by (nonlinear_arith)
                    requires
                        plan.len() == seg * npoints + npoints + 1,
                        seg + 2 == n_vertices,
                ;
            } else {
                assert(plan.len() == (seg + 1) * npoints) by (nonlinear_arith)
                    requires
                        plan.len() == seg * npoints + npoints,
                ;
            }
        }
        seg = seg + 1;
    }
    plan
}

/// A named high-symmetry point with fractional reciprocal coordinates in
/// eighths: the point is `eighths / 8`.
#[derive(Clone, Copy, Debug)]
pub struct SymPoint {
    pub label: &'static str,
    pub eighths: [i32; 3],
}

/// The standard high-symmetry points of the FCC Brillouin zone: Γ (0,0,0),
/// X (1/2,0,1/2), W (1/2,1/4,3/4), K (3/8,3/8,3/4), L (1/2,1/2,1/2) and
/// U (5/8,1/4,5/8), in that order.
pub fn fcc_high_sym_points() -> (p: Vec<SymPoint>)
    ensures
        p@.len() == 6,
        p@[0].label@ == "Γ"@ && p@[0].eighths == [0i32, 0, 0],
        p@[1].label@ == "X"@ && p@[1].eighths == [4i32, 0, 4],
        p@[2].label@ == "W"@ && p@[2].eighths == [4i32, 2, 6],
        p@[3].label@ == "K"@ && p@[3].eighths == [3i32, 3, 6],
        p@[4].label@ == "L"@ && p@[4].eighths == [4i32, 4, 4],
        p@[5].label@ == "U"@ && p@[5].eighths == [5i32, 2, 5],
{
    let mut p: Vec<SymPoint> = Vec::new();
    p.push(SymPoint { label: "Γ", eighths: [0, 0, 0] });
    p.push(SymPoint { label: "X", eighths: [4, 0, 4] });
    p.push(SymPoint { label: "W", eighths: [4, 2, 6] });
    p.push(SymPoint { label: "K", eighths: [3, 3, 6] });
    p.push(SymPoint { label: "L", eighths: [4, 4, 4] });
    p.push(SymPoint { label: "U", eighths: [5, 2, 5] });
    p
}

} // verus!
