use pwdft::atoms::{atomic_numbers, from_symbol, from_z, resolve_symbols};
use pwdft::kpoints::fcc_high_sym_points;
use pwdft::numerics::simpson_weights;
use pwdft::nonlocal::{channel_layout, max_angular_momentum, nonlocal_channels, same_l_pairs, ylm_stride};

#[test]
fn test_from_symbol() {
    assert_eq!(from_symbol("Si"), Some(14));
    assert_eq!(from_symbol("U"), Some(92));
    assert_eq!(from_symbol("Rb"), Some(37));
    assert_eq!(from_symbol("Xx"), None);
}

#[test]
fn test_from_z() {
    assert_eq!(from_z(1), Some("H"));
    assert_eq!(from_z(92), Some("U"));
    assert_eq!(from_z(0), None);
    assert_eq!(from_z(119), None);
}

#[test]
fn test_roundtrip() {
    for z in 1..=92u32 {
        let sym = from_z(z).unwrap();
        assert_eq!(from_symbol(sym), Some(z));
    }
}

#[test]
fn symbols_resolve_in_order() {
    let syms = vec!["Si".to_string(), "O".to_string(), "Fe".to_string()];
    assert_eq!(resolve_symbols(&syms), Ok(vec![14, 8, 26]));
    let bad = vec!["Si".to_string(), "Qq".to_string(), "Zz".to_string()];
    assert_eq!(resolve_symbols(&bad), Err(1));
    assert_eq!(atomic_numbers(&bad), vec![Some(14), None, None]);
}

#[test]
fn channel_layout_counts_two_l_plus_one() {
    // Atom 0: s, p, d projectors; atom 1: two s projectors.
    let ls = vec![vec![0, 1, 2], vec![0, 0]];
    let layout = channel_layout(&ls);
    assert_eq!(layout.n_channels, 1 + 3 + 5 + 1 + 1);
    assert_eq!(layout.starts, vec![vec![0, 1, 4], vec![9, 10]]);
    assert_eq!(channel_layout(&vec![]).n_channels, 0);
}

#[test]
fn crystal_channels_follow_the_first_pseudopotential_of_each_element() {
    // Si, O, Si; the Si pseudopotential has s and p projectors, the first O one
    // an s projector (a second O pseudopotential is never used).
    let atom_z = vec![14, 8, 14];
    let pp_z = vec![Some(14), Some(8), Some(8)];
    let pp_ls = vec![vec![0, 1], vec![0], vec![2, 2]];
    let layout = nonlocal_channels(&atom_z, &pp_z, &pp_ls).unwrap();
    assert_eq!(layout.n_channels, 4 + 1 + 4);
    assert_eq!(layout.starts, vec![vec![0, 1], vec![4], vec![5, 6]]);
}

#[test]
fn crystal_channels_report_the_first_atom_without_pseudopotential() {
    let pp_ls = vec![vec![0, 1]];
    assert_eq!(nonlocal_channels(&vec![14, 26, 8], &vec![Some(14)], &pp_ls).err(), Some(26));
    assert_eq!(nonlocal_channels(&vec![14], &vec![], &vec![]).err(), Some(14));
    let empty = nonlocal_channels(&vec![], &vec![], &vec![]).unwrap();
    assert_eq!(empty.n_channels, 0);
    assert!(empty.starts.is_empty());
}

#[test]
fn max_l_and_table_stride() {
    assert_eq!(max_angular_momentum(&vec![vec![0, 1], vec![2, 0]]), 2);
    assert_eq!(max_angular_momentum(&vec![]), 0);
    assert_eq!(ylm_stride(0), 1);
    assert_eq!(ylm_stride(2), 9);
    assert_eq!(ylm_stride(3), 16);
}

#[test]
fn coupling_pairs_share_l() {
    let pairs = same_l_pairs(&vec![0, 0, 1, 1, 2]);
    assert_eq!(pairs, vec![(0, 0), (0, 1), (1, 0), (1, 1), (2, 2), (2, 3), (3, 2), (3, 3), (4, 4)]);
    assert!(same_l_pairs(&vec![]).is_empty());
}

#[test]
fn simpson_weights_follow_the_composite_rule() {
    // Odd mesh: 1, 4, 2, 4, 1 (in thirds).
    assert_eq!(simpson_weights(5), vec![4, 16, 8, 16, 4]);
    // Even mesh: last interval closed with -1/4, +1, +5/4.
    assert_eq!(simpson_weights(4), vec![4, 15, 12, 5]);
    assert_eq!(simpson_weights(6), vec![4, 16, 8, 15, 12, 5]);
    // Fewer than three points: plain sum.
    assert_eq!(simpson_weights(2), vec![12, 12]);
    assert!(simpson_weights(0).is_empty());
    // Constants integrate exactly: the weights add up to 12 (n - 1).
    for n in 3..40usize {
        let total: u32 = simpson_weights(n).iter().sum();
        assert_eq!(total as usize, 12 * (n - 1));
    }
}

#[test]
fn fcc_points_table() {
    let p = fcc_high_sym_points();
    let labels: Vec<&str> = p.iter().map(|x| x.label).collect();
    assert_eq!(labels, vec!["Γ", "X", "W", "K", "L", "U"]);
    assert_eq!(p[3].eighths, [3, 3, 6]);
    assert_eq!(p[5].eighths, [5, 2, 5]);
}
