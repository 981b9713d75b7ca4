# pwdft

The verified core of a plane-wave density functional theory code, written in
Verus. `src/` holds the parts of the calculation that are exact: grid and
Miller-index arithmetic, FFT sizes, Monkhorst-Pack meshes and band paths in
exact fractions, the layouts of UPF and PSP8 pseudopotential files (every
field found and its syntax checked, down to the grammar of Rust's number
parsers), the projector-channel bookkeeping of the non-local potential,
Simpson weights, element lookup in mendeleev's table, and the decision logic
of the SCF loop (entry checks, convergence, mixer cadence, adaptive mixing,
eigensolver routing).

- `src/` — the library; every function has a contract proved by Verus.
- `tests/` — scenarios, including comparisons of the text scanners with
  `str::lines`, `str::split_whitespace`, `str::trim` and the `FromStr`
  implementations of `usize`, `i32` and `f64`.
- `app/` — the command-line program: reads the YAML deck and the
  pseudopotential files, converts the numbers the library located to
  floating point and to eV/Å, and runs the floating-point parts (basis
  cutoff, Ewald sum, k-point coordinates, free-electron bands).

Not provided: the floating-point SCF cycle itself (density mixers, the
dense and iterative eigensolvers, spin-polarized runs), crystal symmetry and
irreducible-zone reduction, the tabulated recommended cutoffs, and the GPU
path. The program checks an input deck, sets up the grid, k-points and
pseudopotentials and reports them; the SCF decisions it would need are in
`src/`, the numerical engine is not.
