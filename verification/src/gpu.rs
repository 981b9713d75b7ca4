//! Work sizes for the GPU kernels.
use vstd::prelude::*;

verus! {

/// Threads per workgroup of every compute kernel.
pub const WORKGROUP_SIZE: u32 = 256;

/// Number of workgroups that cover `n` grid points: `⌈n / 256⌉`.
pub fn dispatch_size(n: u32) -> (g: u32)
    ensures
        g == (n as int + WORKGROUP_SIZE - 1) / WORKGROUP_SIZE as int,
        g * WORKGROUP_SIZE >= n,
        g == 0 || (g - 1) * WORKGROUP_SIZE < n,
{
    let q = n / WORKGROUP_SIZE;
    if n % WORKGROUP_SIZE == 0 {
        q
    } else {
        q + 1
    }
}

} // verus!
