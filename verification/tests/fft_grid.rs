use pwdft::fft::{fft_grid_size, is_fft_friendly};
use pwdft::gpu::dispatch_size;
use pwdft::grid::{basis_to_fft, ceil_sqrt, fft_dims, idx_to_miller, max_abs_miller, miller_to_idx};

#[test]
fn test_fft_grid_size() {
    assert_eq!(fft_grid_size(3), 8);
    assert_eq!(fft_grid_size(4), 9);
    assert_eq!(fft_grid_size(5), 12);
}

#[test]
fn test_is_fft_friendly() {
    assert!(is_fft_friendly(1));
    assert!(is_fft_friendly(2));
    assert!(is_fft_friendly(4));
    assert!(is_fft_friendly(8));
    assert!(is_fft_friendly(30));
    assert!(!is_fft_friendly(7));
    assert!(!is_fft_friendly(11));
}

#[test]
fn fft_friendly_edge_cases() {
    assert!(!is_fft_friendly(0));
    assert!(is_fft_friendly(2 * 3 * 5 * 5 * 3 * 2));
    assert!(!is_fft_friendly(14));
    assert!(!is_fft_friendly(49));
}

#[test]
fn fft_grid_size_zero_and_exact_sizes() {
    assert_eq!(fft_grid_size(0), 1);
    assert_eq!(fft_grid_size(1), 3);
    assert_eq!(fft_grid_size(2), 5);
    // 2*7+1 = 15 = 3*5 is already smooth.
    assert_eq!(fft_grid_size(7), 15);
    // 2*10+1 = 21 = 3*7 is not; the next smooth size is 24.
    assert_eq!(fft_grid_size(10), 24);
}

#[test]
fn miller_index_roundtrip_on_small_grid() {
    let dims = [4usize, 5, 6];
    for idx in 0..(4 * 5 * 6) {
        let n = idx_to_miller(dims, idx);
        assert_eq!(miller_to_idx(dims, n[0], n[1], n[2]), idx);
    }
    for n1 in -1..=2 {
        for n2 in -2..=2 {
            for n3 in -2..=3 {
                let idx = miller_to_idx(dims, n1, n2, n3);
                assert_eq!(idx_to_miller(dims, idx), [n1, n2, n3]);
            }
        }
    }
}

#[test]
fn miller_to_idx_wraps_negative_indices() {
    let dims = [8usize, 8, 8];
    assert_eq!(miller_to_idx(dims, 0, 0, 0), 0);
    assert_eq!(miller_to_idx(dims, 1, 0, 0), 64);
    assert_eq!(miller_to_idx(dims, -1, 0, 0), 7 * 64);
    assert_eq!(miller_to_idx(dims, 0, -1, 2), 7 * 8 + 2);
    // Signed frequencies lie in (-n/2, n/2].
    assert_eq!(idx_to_miller(dims, 4), [0, 0, 4]);
    assert_eq!(idx_to_miller(dims, 5), [0, 0, -3]);
}

#[test]
fn basis_to_fft_maps_each_g_vector() {
    let dims = [6usize, 6, 6];
    let miller = vec![[0, 0, 0], [1, -1, 0], [-2, 2, 1]];
    let idx = basis_to_fft(dims, &miller);
    assert_eq!(idx, vec![0, 36 + 5 * 6, 4 * 36 + 2 * 6 + 1]);
}

#[test]
fn ceil_sqrt_values() {
    assert_eq!(ceil_sqrt(0), 0);
    assert_eq!(ceil_sqrt(1), 1);
    assert_eq!(ceil_sqrt(2), 2);
    assert_eq!(ceil_sqrt(4), 2);
    assert_eq!(ceil_sqrt(5), 3);
    assert_eq!(ceil_sqrt(16), 4);
    assert_eq!(ceil_sqrt(17), 5);
}

#[test]
fn fft_dims_from_miller_extent() {
    let miller = vec![[0, 0, 0], [3, -2, 1], [-1, 4, 0]];
    assert_eq!(max_abs_miller(&miller), [3, 4, 1]);
    // ratio 4: scale sqrt(4) = 2 -> n_max (6, 8, 2) -> sizes 13->15, 17->18, 5.
    assert_eq!(fft_dims(&miller, 4, None), [15, 18, 5]);
    // An explicit grid wins.
    assert_eq!(fft_dims(&miller, 4, Some([32, 32, 32])), [32, 32, 32]);
}

#[test]
fn dispatch_size_rounds_up() {
    assert_eq!(dispatch_size(0), 0);
    assert_eq!(dispatch_size(1), 1);
    assert_eq!(dispatch_size(256), 1);
    assert_eq!(dispatch_size(257), 2);
    assert_eq!(dispatch_size(1000), 4);
}
