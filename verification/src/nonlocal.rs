//! Index bookkeeping of the Kleinman-Bylander non-local potential.
//!
//! The projector matrix has one column ("channel") per (atom, radial
//! projector, m): a projector of angular momentum `l` owns `2l + 1`
//! consecutive channels, atoms in order, projectors in file order. The
//! coupling matrix `D` only joins two projectors of the same atom with the
//! same `l`, channel by channel. The real spherical harmonics of one
//! G-vector are stored `(l, m)` after `(l', m')` for `l' < l`, so `l` starts
//! at offset `l²` of a row of `(lmax + 1)²` values.
use vstd::prelude::*;
use crate::scf::{assign_pseudopotentials, has_pp};

verus! {

/// Channels of one projector of angular momentum `l`.
pub open spec fn channels_of(l: int) -> int {
    2 * l + 1
}

/// Channels of the projectors `ls[0..n]`.
pub open spec fn channel_sum(ls: Seq<i32>, n: int) -> int
    decreases n,
{
    if n <= 0 {
        0
    } else {
        channel_sum(ls, n - 1) + channels_of(ls[n - 1] as int)
    }
}

/// Channels of the atoms `atoms[0..a]`.
pub open spec fn atoms_channel_sum(atoms: Seq<Vec<i32>>, a: int) -> int
    decreases a,
{
    if a <= 0 {
        0
    } else {
        atoms_channel_sum(atoms, a - 1) + channel_sum(atoms[a - 1]@, atoms[a - 1]@.len() as int)
    }
}

/// Every projector's angular momentum is in `[0, bound]`.
pub open spec fn ls_in_range(atoms: Seq<Vec<i32>>, bound: int) -> bool {
    forall|a: int, i: int|
        0 <= a < atoms.len() && 0 <= i < atoms[a]@.len() ==> 0 <= #[trigger] atoms[a]@[i] <= bound
}

proof fn lemma_channel_sum_monotone(ls: Seq<i32>, m: int, n: int)
    requires
        0 <= m <= n <= ls.len(),
        forall|i: int| 0 <= i < ls.len() ==> ls[i] >= 0,
    ensures
        channel_sum(ls, m) <= channel_sum(ls, n),
        channel_sum(ls, n) >= 0,
    decreases n,
{
    if n > 0 {
        lemma_channel_sum_monotone(ls, if m == n {
            n - 1
        } else {
            m
        }, n - 1);
    }
}

proof fn lemma_atoms_channel_sum_monotone(atoms: Seq<Vec<i32>>, b: int, a: int)
    requires
        0 <= b <= a <= atoms.len(),
        ls_in_range(atoms, i32::MAX as int),
    ensures
        atoms_channel_sum(atoms, b) <= atoms_channel_sum(atoms, a),
        atoms_channel_sum(atoms, a) >= 0,
    decreases a,
{
    if a > 0 {
        let ls = atoms[a - 1]@;
        assert forall|i: int| 0 <= i < ls.len() implies ls[i] >= 0 by {
            assert(0 <= atoms[a - 1]@[i]);
        }
        lemma_channel_sum_monotone(ls, 0, ls.len() as int);
        lemma_atoms_channel_sum_monotone(atoms, if b == a {
            a - 1
        } else {
            b
        }, a - 1);
    }
}

/// Where each projector's channels start, and how many channels there are.
pub struct ChannelLayout {
    /// `starts[a][i]`: first channel of projector `i` of atom `a`.
    pub starts: Vec<Vec<usize>>,
    /// The total number of channels.
    pub n_channels: usize,
}

/// The layout of channels for atoms whose projectors have the angular
/// momenta `atom_ls[a]`: projector `i` of atom `a` starts after all the
/// channels of the atoms before `a` and of the projectors before `i`.
pub fn channel_layout(atom_ls: &Vec<Vec<i32>>) -> (r: ChannelLayout)
    requires
        ls_in_range(atom_ls@, 0x3fff_ffff),
        atoms_channel_sum(atom_ls@, atom_ls@.len() as int) <= usize::MAX,
    ensures
        r.n_channels == atoms_channel_sum(atom_ls@, atom_ls@.len() as int),
        r.starts@.len() == atom_ls@.len(),
        forall|a: int|
            0 <= a < atom_ls@.len() ==> (#[trigger] r.starts@[a])@.len() == atom_ls@[a]@.len(),
        forall|a: int, i: int|
            0 <= a < atom_ls@.len() && 0 <= i < atom_ls@[a]@.len() ==> #[trigger] r.starts@[a]@[i]
                == atoms_channel_sum(atom_ls@, a) + channel_sum(atom_ls@[a]@, i),
{
    let mut starts: Vec<Vec<usize>> = Vec::new();
    let mut n: usize = 0;
    let mut a: usize = 0;
    while a < atom_ls.len()
        invariant
            a <= atom_ls@.len(),
            ls_in_range(atom_ls@, 0x3fff_ffff),
            atoms_channel_sum(atom_ls@, atom_ls@.len() as int) <= usize::MAX,
            n == atoms_channel_sum(atom_ls@, a as int),
            starts@.len() == a,
            forall|b: int| 0 <= b < a ==> (#[trigger] starts@[b])@.len() == atom_ls@[b]@.len(),
            forall|b: int, i: int|
                0 <= b < a && 0 <= i < atom_ls@[b]@.len() ==> #[trigger] starts@[b]@[i]
                    == atoms_channel_sum(atom_ls@, b) + channel_sum(atom_ls@[b]@, i),
        decreases atom_ls.len() - a,
    {
        let ls = &atom_ls[a];
        let ghost base = n as int;
        let mut row: Vec<usize> = Vec::new();
        let mut i: usize = 0;
        proof {
            assert forall|k: int| 0 <= k < ls@.len() implies ls@[k] >= 0 by {
                assert(0 <= atom_ls@[a as int]@[k]);
            }
            lemma_atoms_channel_sum_monotone(atom_ls@, a + 1, atom_ls@.len() as int);
            lemma_channel_sum_monotone(ls@, 0, ls@.len() as int);
        }
        while i < ls.len()
            invariant
                a < atom_ls@.len(),
                ls@ == atom_ls@[a as int]@,
                ls_in_range(atom_ls@, 0x3fff_ffff),
                i <= ls@.len(),
                base == atoms_channel_sum(atom_ls@, a as int),
                base + channel_sum(ls@, ls@.len() as int) <= usize::MAX,
                forall|k: int| 0 <= k < ls@.len() ==> ls@[k] >= 0,
                n == base + channel_sum(ls@, i as int),
                row@.len() == i,
                forall|k: int| 0 <= k < i ==> #[trigger] row@[k] == base + channel_sum(ls@, k),
            decreases ls.len() - i,
        {
            row.push(n);
            let l = ls[i];
            proof {
                assert(0 <= atom_ls@[a as int]@[i as int] <= 0x3fff_ffff);
                lemma_channel_sum_monotone(ls@, i + 1, ls@.len() as int);
            }
            let width: usize = (2 * l + 1) as usize;
            n = n + width;
            i = i + 1;
        }
        starts.push(row);
        a = a + 1;
    }
    ChannelLayout { starts, n_channels: n }
}

/// The largest angular momentum of all projectors, and 0 when there is
/// none. Every `l` must be non-negative.
pub fn max_angular_momentum(pp_ls: &Vec<Vec<i32>>) -> (m: i32)
    requires
        ls_in_range(pp_ls@, i32::MAX as int),
    ensures
        m >= 0,
        forall|a: int, i: int|
            0 <= a < pp_ls@.len() && 0 <= i < pp_ls@[a]@.len() ==> #[trigger] pp_ls@[a]@[i] <= m,
        m == 0 || exists|a: int, i: int|
            0 <= a < pp_ls@.len() && 0 <= i < pp_ls@[a]@.len() && #[trigger] pp_ls@[a]@[i] == m,
{
    let mut m: i32 = 0;
    let mut a: usize = 0;
    while a < pp_ls.len()
        invariant
            a <= pp_ls@.len(),
            m >= 0,
            forall|b: int, i: int|
                0 <= b < a && 0 <= i < pp_ls@[b]@.len() ==> #[trigger] pp_ls@[b]@[i] <= m,
            m == 0 || exists|b: int, i: int|
                0 <= b < pp_ls@.len() && 0 <= i < pp_ls@[b]@.len() && #[trigger] pp_ls@[b]@[i] == m,
        decreases pp_ls.len() - a,
    {
        let ls = &pp_ls[a];
        let mut i: usize = 0;
        while i < ls.len()
            invariant
                a < pp_ls@.len(),
                ls@ == pp_ls@[a as int]@,
                i <= ls@.len(),
                m >= 0,
                forall|b: int, k: int|
                    0 <= b < a && 0 <= k < pp_ls@[b]@.len() ==> #[trigger] pp_ls@[b]@[k] <= m,
                forall|k: int| 0 <= k < i ==> #[trigger] ls@[k] <= m,
                m == 0 || exists|b: int, k: int|
                    0 <= b < pp_ls@.len() && 0 <= k < pp_ls@[b]@.len() && #[trigger] pp_ls@[b]@[k]
                        == m,
            decreases ls.len() - i,
        {
            if ls[i] > m {
                m = ls[i];
                proof {
                    assert(pp_ls@[a as int]@[i as int] == m);
                }
            }
            i = i + 1;
        }
        proof {
            assert forall|b: int, k: int|
                0 <= b < a + 1 && 0 <= k < pp_ls@[b]@.len() implies #[trigger] pp_ls@[b]@[k] <= m by {
                if b == a {
                    assert(ls@[k] <= m);
                }
            }
        }
        a = a + 1;
    }
    m
}

/// Values per G-vector in the spherical-harmonic table: `(lmax + 1)²`,
/// computed in `i32` as the table is sized.
pub fn ylm_stride(lmax: i32) -> (n: usize)
    requires
        0 <= lmax <= 46339,
    ensures
        n == (lmax + 1) * (lmax + 1),
{
    proof {
        assert((lmax + 1) * (lmax + 1) <= 46340 * 46340) by (nonlinear_arith)
            requires
                0 <= lmax <= 46339,
        ;
    }
    ((lmax + 1) * (lmax + 1)) as usize
}

/// The pairs `(i, j)` of projectors with the same angular momentum, which
/// `D` couples, in row-major order.
pub fn same_l_pairs(ls: &Vec<i32>) -> (r: Vec<(usize, usize)>)
    ensures
        forall|k: int|
            0 <= k < r@.len() ==> (#[trigger] r@[k]).0 < ls@.len() && r@[k].1 < ls@.len() && ls@[r@[k].0 as int]
                == ls@[r@[k].1 as int],
        forall|k1: int, k2: int|
            0 <= k1 < k2 < r@.len() ==> (#[trigger] r@[k1].0 < #[trigger] r@[k2].0 || (r@[k1].0
                == r@[k2].0 && r@[k1].1 < r@[k2].1)),
        forall|i: int, j: int|
            0 <= i < ls@.len() && 0 <= j < ls@.len() && ls@[i] == ls@[j] ==> exists|k: int|
                0 <= k < r@.len() && #[trigger] r@[k] == (i as usize, j as usize),
{
    let n = ls.len();
    let mut r: Vec<(usize, usize)> = Vec::new();
    let mut i: usize = 0;
    while i < n
        invariant
            n == ls@.len(),
            i <= n,
            forall|k: int|
                0 <= k < r@.len() ==> (#[trigger] r@[k]).0 < i && r@[k].1 < n && ls@[r@[k].0 as int]
                    == ls@[r@[k].1 as int],
            forall|k1: int, k2: int|
                0 <= k1 < k2 < r@.len() ==> (#[trigger] r@[k1].0 < #[trigger] r@[k2].0 || (r@[k1].0
                    == r@[k2].0 && r@[k1].1 < r@[k2].1)),
            forall|p: int, q: int|
                0 <= p < i && 0 <= q < n && ls@[p] == ls@[q] ==> exists|k: int|
                    0 <= k < r@.len() && #[trigger] r@[k] == (p as usize, q as usize),
        decreases n - i,
    {
        let mut j: usize = 0;
        let ghost row_start = r@.len();
        while j < n
            invariant
                n == ls@.len(),
                i < n,
                j <= n,
                row_start <= r@.len(),
                forall|k: int|
                    0 <= k < row_start ==> (#[trigger] r@[k]).0 < i && r@[k].1 < n && ls@[r@[k].0 as int]
                        == ls@[r@[k].1 as int],
                forall|k: int|
                    row_start <= k < r@.len() ==> (#[trigger] r@[k]).0 == i && r@[k].1 < j && ls@[r@[k].0 as int]
                        == ls@[r@[k].1 as int],
                forall|k1: int, k2: int|
                    0 <= k1 < k2 < r@.len() ==> (#[trigger] r@[k1].0 < #[trigger] r@[k2].0 || (r@[k1].0
                        == r@[k2].0 && r@[k1].1 < r@[k2].1)),
                forall|p: int, q: int|
                    0 <= p < i && 0 <= q < n && ls@[p] == ls@[q] ==> exists|k: int|
                        0 <= k < r@.len() && #[trigger] r@[k] == (p as usize, q as usize),
                forall|q: int|
                    0 <= q < j && ls@[i as int] == ls@[q] ==> exists|k: int|
                        0 <= k < r@.len() && #[trigger] r@[k] == (i, q as usize),
            decreases n - j,
        {
            if ls[i] == ls[j] {
                let ghost before = r@;
                r.push((i, j));
                proof {
                    assert(r@[r@.len() - 1] == (i, j));
                    assert forall|p: int, q: int|
                        0 <= p < i && 0 <= q < n && ls@[p] == ls@[q] implies exists|k: int|
                            0 <= k < r@.len() && #[trigger] r@[k] == (p as usize, q as usize) by {
                        let k = choose|k: int|
                            0 <= k < before.len() && #[trigger] before[k] == (p as usize, q as usize);
                        assert(r@[k] == before[k]);
                    }
                    assert forall|q: int|
                        0 <= q < j + 1 && ls@[i as int] == ls@[q] implies exists|k: int|
                            0 <= k < r@.len() && #[trigger] r@[k] == (i, q as usize) by {
                        if q < j {
                            let k = choose|k: int|
                                0 <= k < before.len() && #[trigger] before[k] == (i, q as usize);
                            assert(r@[k] == before[k]);
                        } else {
                            assert(r@[r@.len() - 1] == (i, q as usize));
                        }
                    }
                }
            }
            j = j + 1;
        }
        i = i + 1;
    }
    r
}

/// Channel blocks never overlap: a later projector (of the same atom or of
/// a later atom) starts at or after the end of an earlier one.
pub proof fn lemma_channel_blocks_disjoint(atom_ls: Seq<Vec<i32>>, a: int, i: int, b: int, j: int)
    requires
        ls_in_range(atom_ls, i32::MAX as int),
        0 <= a < atom_ls.len(),
        0 <= i < atom_ls[a]@.len(),
        0 <= b < atom_ls.len(),
        0 <= j < atom_ls[b]@.len(),
        a < b || (a == b && i < j),
    ensures
        atoms_channel_sum(atom_ls, a) + channel_sum(atom_ls[a]@, i) + channels_of(
            atom_ls[a]@[i] as int,
        ) <= atoms_channel_sum(atom_ls, b) + channel_sum(atom_ls[b]@, j),
{
    let la = atom_ls[a]@;
    assert forall|k: int| 0 <= k < la.len() implies la[k] >= 0 by {
        assert(0 <= atom_ls[a]@[k]);
    }
    let lb = atom_ls[b]@;
    assert forall|k: int| 0 <= k < lb.len() implies lb[k] >= 0 by {
        assert(0 <= atom_ls[b]@[k]);
    }
    if a == b {
        lemma_channel_sum_monotone(la, i + 1, j);
    } else {
        lemma_channel_sum_monotone(la, i + 1, la.len() as int);
        lemma_channel_sum_monotone(lb, 0, j);
        lemma_atoms_channel_sum_monotone(atom_ls, a + 1, b);
    }
}

/// Every channel lies below the total: the last channel of projector `i` of
/// atom `a` is below `n_channels`.
pub proof fn lemma_channel_blocks_in_range(atom_ls: Seq<Vec<i32>>, a: int, i: int)
    requires
        ls_in_range(atom_ls, i32::MAX as int),
        0 <= a < atom_ls.len(),
        0 <= i < atom_ls[a]@.len(),
    ensures
        0 <= atoms_channel_sum(atom_ls, a) + channel_sum(atom_ls[a]@, i),
        atoms_channel_sum(atom_ls, a) + channel_sum(atom_ls[a]@, i) + channels_of(atom_ls[a]@[i] as int)
            <= atoms_channel_sum(atom_ls, atom_ls.len() as int),
{
    let la = atom_ls[a]@;
    assert forall|k: int| 0 <= k < la.len() implies la[k] >= 0 by {
        assert(0 <= atom_ls[a]@[k]);
    }
    lemma_channel_sum_monotone(la, i + 1, la.len() as int);
    lemma_channel_sum_monotone(la, 0, i);
    lemma_atoms_channel_sum_monotone(atom_ls, a + 1, atom_ls.len() as int);
    lemma_atoms_channel_sum_monotone(atom_ls, 0, a);
}

/// The spherical harmonics of angular momentum `l <= lmax` fill the row
/// positions `l²` to `l² + 2l` of a row of `(lmax + 1)²` values.
pub proof fn lemma_ylm_block_in_row(l: int, lmax: int, m_off: int)
    requires
        0 <= l <= lmax,
        0 <= m_off < channels_of(l),
    ensures
        0 <= l * l + m_off < (lmax + 1) * (lmax + 1),
{
    assert(l * l + m_off < (l + 1) * (l + 1)) by (nonlinear_arith)
        requires
            0 <= m_off < 2 * l + 1,
    ;
    assert((l + 1) * (l + 1) <= (lmax + 1) * (lmax + 1)) by (nonlinear_arith)
        requires
            0 <= l <= lmax,
    ;
    assert(0 <= l * l) by (nonlinear_arith);
}

/// Index of the first pseudopotential at or after `i` whose element has
/// atomic number `z` (`pp_z.len()` when there is none).
pub open spec fn first_pp(pp_z: Seq<Option<u32>>, z: u32, i: int) -> int
    decreases pp_z.len() - i,
{
    if i < 0 || i >= pp_z.len() {
        pp_z.len() as int
    } else if pp_z[i] == Some(z) {
        i
    } else {
        first_pp(pp_z, z, i + 1)
    }
}

/// The projector angular momenta of each atom: those of the first
/// pseudopotential for its element.
pub open spec fn assigned_ls(atom_z: Seq<u32>, pp_z: Seq<Option<u32>>, pp_ls: Seq<Vec<i32>>) -> Seq<
    Vec<i32>,
> {
    Seq::new(atom_z.len(), |a: int| pp_ls[first_pp(pp_z, atom_z[a], 0)])
}

proof fn lemma_first_pp(pp_z: Seq<Option<u32>>, z: u32, i: int, k: int)
    requires
        0 <= i <= k < pp_z.len(),
        pp_z[k] == Some(z),
        forall|j: int| 0 <= j < k ==> pp_z[j] != Some(z),
    ensures
        first_pp(pp_z, z, i) == k,
    decreases k - i,
{
    if i < k {
        lemma_first_pp(pp_z, z, i + 1, k);
    }
}

proof fn lemma_channel_sum_views(x: Seq<i32>, y: Seq<i32>, n: int)
    requires
        x == y,
    ensures
        channel_sum(x, n) == channel_sum(y, n),
{
}

proof fn lemma_atoms_channel_sum_views(x: Seq<Vec<i32>>, y: Seq<Vec<i32>>, a: int)
    requires
        a <= x.len(),
        a <= y.len(),
        forall|k: int| 0 <= k < a ==> (#[trigger] x[k])@ == y[k]@,
    ensures
        atoms_channel_sum(x, a) == atoms_channel_sum(y, a),
    decreases a,
{
    if a > 0 {
        lemma_atoms_channel_sum_views(x, y, a - 1);
        assert(x[a - 1]@ == y[a - 1]@);
    }
}

fn copy_ls(v: &Vec<i32>) -> (c: Vec<i32>)
    ensures
        c@ == v@,
{
    let mut c: Vec<i32> = Vec::new();
    let mut i: usize = 0;
    while i < v.len()
        invariant
            i <= v.len(),
            c@ == v@.subrange(0, i as int),
        decreases v.len() - i,
    {
        c.push(v[i]);
        i = i + 1;
        proof {
            assert(v@.subrange(0, i as int) =~= v@.subrange(0, i - 1).push(v@[i - 1]));
        }
    }
    proof {
        assert(v@.subrange(0, v.len() as int) =~= v@);
    }
    c
}

/// The index bookkeeping of the non-local potential for a crystal: every
/// atom takes the projectors of the first pseudopotential for its element
/// (`pp_z[i]` is the atomic number of pseudopotential `i`, `pp_ls[i]` the
/// angular momenta of its projectors), and the channels are laid out as in
/// [`channel_layout`]. Fails with the atomic number of the first atom whose
/// element has no pseudopotential, and only then.
pub fn nonlocal_channels(atom_z: &Vec<u32>, pp_z: &Vec<Option<u32>>, pp_ls: &Vec<Vec<i32>>) -> (r:
    Result<ChannelLayout, u32>)
    requires
        pp_ls@.len() == pp_z@.len(),
        ls_in_range(pp_ls@, 0x3fff_ffff),
        (forall|a: int| 0 <= a < atom_z@.len() ==> has_pp(pp_z@, #[trigger] atom_z@[a]))
            ==> atoms_channel_sum(assigned_ls(atom_z@, pp_z@, pp_ls@), atom_z@.len() as int)
            <= usize::MAX,
    ensures
        r is Err <==> exists|a: int| 0 <= a < atom_z@.len() && !has_pp(pp_z@, #[trigger] atom_z@[a]),
        r matches Err(z) ==> exists|a: int|
            0 <= a < atom_z@.len() && #[trigger] atom_z@[a] == z && !has_pp(pp_z@, z) && forall|b: int|
                0 <= b < a ==> has_pp(pp_z@, #[trigger] atom_z@[b]),
        r matches Ok(l) ==> {
            let assigned = assigned_ls(atom_z@, pp_z@, pp_ls@);
            &&& l.n_channels == atoms_channel_sum(assigned, atom_z@.len() as int)
            &&& l.starts@.len() == atom_z@.len()
            &&& forall|a: int|
                0 <= a < atom_z@.len() ==> (#[trigger] l.starts@[a])@.len() == assigned[a]@.len()
            &&& forall|a: int, i: int|
                0 <= a < atom_z@.len() && 0 <= i < assigned[a]@.len() ==> #[trigger] l.starts@[a]@[i]
                    == atoms_channel_sum(assigned, a) + channel_sum(assigned[a]@, i)
        },
{
    let idx = match assign_pseudopotentials(atom_z, pp_z) {
        Err(z) => {
            return Err(z);
        },
        Ok(idx) => idx,
    };
    let ghost assigned = assigned_ls(atom_z@, pp_z@, pp_ls@);
    proof {
        assert forall|a: int| 0 <= a < atom_z@.len() implies has_pp(pp_z@, #[trigger] atom_z@[a]) by {
            assert(pp_z@[idx@[a] as int] == Some(atom_z@[a]));
        }
    }
    let mut atom_ls: Vec<Vec<i32>> = Vec::new();
    let mut a: usize = 0;
    while a < atom_z.len()
        invariant
            a <= atom_z@.len(),
            idx@.len() == atom_z@.len(),
            pp_ls@.len() == pp_z@.len(),
            assigned == assigned_ls(atom_z@, pp_z@, pp_ls@),
            forall|b: int|
                0 <= b < atom_z@.len() ==> #[trigger] idx@[b] < pp_z@.len() && pp_z@[idx@[b] as int]
                    == Some(atom_z@[b]) && forall|j: int| 0 <= j < idx@[b] ==> pp_z@[j] != Some(atom_z@[b]),
            atom_ls@.len() == a,
            forall|b: int| 0 <= b < a ==> (#[trigger] atom_ls@[b])@ == assigned[b]@,
        decreases atom_z.len() - a,
    {
        let k = idx[a];
        proof {
            assert(idx@[a as int] < pp_z@.len());
            lemma_first_pp(pp_z@, atom_z@[a as int], 0, k as int);
        }
        let row = copy_ls(&pp_ls[k]);
        atom_ls.push(row);
        a = a + 1;
    }
    proof {
        lemma_atoms_channel_sum_views(atom_ls@, assigned, atom_z@.len() as int);
        assert forall|b: int, i: int|
            0 <= b < atom_ls@.len() && 0 <= i < atom_ls@[b]@.len() implies 0 <= #[trigger] atom_ls@[b]@[i]
                <= 0x3fff_ffff by {
            let k = first_pp(pp_z@, atom_z@[b], 0);
            lemma_first_pp(pp_z@, atom_z@[b], 0, idx@[b] as int);
            assert(atom_ls@[b]@ == pp_ls@[k]@);
            assert(0 <= pp_ls@[k]@[i] <= 0x3fff_ffff);
        }
    }
    let layout = channel_layout(&atom_ls);
    proof {
        assert forall|b: int| 0 <= b <= atom_z@.len() implies atoms_channel_sum(atom_ls@, b)
            == atoms_channel_sum(assigned, b) by {
            lemma_atoms_channel_sum_views(atom_ls@, assigned, b);
        }
        assert forall|b: int, i: int| 0 <= b < atom_z@.len() && 0 <= i < assigned[b]@.len() implies
            channel_sum(atom_ls@[b]@, i) == channel_sum(assigned[b]@, i) by {
            lemma_channel_sum_views(atom_ls@[b]@, assigned[b]@, i);
        }
    }
    Ok(layout)
}

} // verus!
