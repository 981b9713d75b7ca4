//! Verified core of a plane-wave density functional theory code: grid sizing,
//! Miller-index bookkeeping, k-point meshes, pseudopotential file layouts and
//! the decision logic of the self-consistent field loop.
pub mod fft;
pub mod grid;
pub mod kpoints;
pub mod error;
pub mod settings;
pub mod scf;
pub mod mixing;
pub mod text;
pub mod atoms;
pub mod upf;
pub mod psp8;
pub mod nonlocal;
pub mod gpu;
pub mod numerics;
