use pwdft::kpoints::{band_path_samples, monkhorst_pack, mp_fractional_coord, KGridShift, MeshCoord, PathLabel};

fn is_gamma(c: &MeshCoord) -> bool {
    c.num == [0, 0, 0]
}

#[test]
fn test_kgrid_shift_default_is_gamma() {
    // Project-wide default follows QE: Γ-centered.
    assert_eq!(KGridShift::default(), KGridShift::GammaCentered);
    assert_eq!(KGridShift::default().axis_flags(), [0, 0, 0]);
    assert_eq!(KGridShift::MP1976.axis_flags(), [1, 1, 1]);
    assert_eq!(KGridShift::Custom([1, 0, 1]).axis_flags(), [1, 0, 1]);
}

#[test]
fn test_monkhorst_pack_count() {
    let kpts = monkhorst_pack(4, 4, 4, KGridShift::GammaCentered);
    assert_eq!(kpts.len(), 64);
}

#[test]
fn test_monkhorst_pack_gamma_centered_even_includes_gamma() {
    let kpts = monkhorst_pack(4, 4, 4, KGridShift::GammaCentered);
    assert!(kpts.iter().any(is_gamma), "Γ-centered 4×4×4 MP grid must include Γ");
}

#[test]
fn test_monkhorst_pack_mp1976_even_excludes_gamma() {
    // The Monkhorst-Pack 1976 shifted grid: {−3/8, −1/8, 1/8, 3/8} — no Γ.
    let kpts = monkhorst_pack(4, 4, 4, KGridShift::MP1976);
    assert!(!kpts.iter().any(is_gamma), "MP-1976 4×4×4 grid must NOT include Γ");
}

#[test]
fn test_monkhorst_pack_gamma_centered_odd() {
    let kpts = monkhorst_pack(3, 3, 3, KGridShift::GammaCentered);
    assert!(kpts.iter().any(is_gamma), "3×3×3 Γ-centered MP grid should include Γ point");
}

#[test]
fn test_kgrid_shift_custom_equals_gamma_for_all_zero() {
    let a = monkhorst_pack(4, 4, 4, KGridShift::GammaCentered);
    let b = monkhorst_pack(4, 4, 4, KGridShift::Custom([0, 0, 0]));
    assert_eq!(a.len(), b.len());
    for (ka, kb) in a.iter().zip(b.iter()) {
        assert!(ka.num == kb.num && ka.den == kb.den, "Custom([0,0,0]) should match GammaCentered");
    }
}

#[test]
fn test_kgrid_shift_custom_equals_mp1976_for_all_one() {
    let a = monkhorst_pack(4, 4, 4, KGridShift::MP1976);
    let b = monkhorst_pack(4, 4, 4, KGridShift::Custom([1, 1, 1]));
    assert_eq!(a.len(), b.len());
    for (ka, kb) in a.iter().zip(b.iter()) {
        assert!(ka.num == kb.num && ka.den == kb.den, "Custom([1,1,1]) should match MP1976");
    }
}

#[test]
fn mp1976_even_mesh_coordinates() {
    // MP-1976 4-mesh along an axis: {1/8, 3/8, -3/8, -1/8} in loop order.
    let nums: Vec<i64> = (0..4)
        .map(|i| mp_fractional_coord(0, 0, i, [4, 4, 4], KGridShift::MP1976).num[2])
        .collect();
    assert_eq!(nums, vec![1, 3, -3, -1]);
    let c = mp_fractional_coord(0, 0, 0, [4, 4, 4], KGridShift::MP1976);
    assert_eq!(c.den, [8, 8, 8]);
}

#[test]
fn gamma_centered_wraps_into_first_zone() {
    // i/4 for i = 0..4 wrapped into [-1/2, 1/2): 0, 1/4, -1/2, -1/4.
    let nums: Vec<i64> = (0..4)
        .map(|i| mp_fractional_coord(i, 0, 0, [4, 1, 1], KGridShift::GammaCentered).num[0])
        .collect();
    assert_eq!(nums, vec![0, 2, -4, -2]);
}

#[test]
fn mesh_with_zero_dimension_is_empty() {
    assert_eq!(monkhorst_pack(0, 4, 4, KGridShift::GammaCentered).len(), 0);
    // The empty axis has no coordinate (0 / 0); the others are exact.
    let c = mp_fractional_coord(1, 0, 3, [4, 0, 4], KGridShift::GammaCentered);
    assert_eq!(c.den, [8, 0, 8]);
    assert_eq!(c.num, [2, 0, -2]);
}

#[test]
fn mesh_order_has_third_index_fastest() {
    let kpts = monkhorst_pack(2, 3, 4, KGridShift::GammaCentered);
    assert_eq!(kpts.len(), 24);
    let c = mp_fractional_coord(1, 2, 3, [2, 3, 4], KGridShift::GammaCentered);
    let p = 1 * 12 + 2 * 4 + 3;
    assert_eq!(kpts[p].num, c.num);
}

#[test]
fn test_high_symmetry_path() {
    // Γ - X - Γ with 10 points per segment.
    let plan = band_path_samples(3, 10);
    // 10 points on first segment + 11 on last (including endpoint) = 21
    assert_eq!(plan.len(), 21);
    // First point is the first vertex.
    assert_eq!((plan[0].segment, plan[0].step), (0, 0));
    assert_eq!(plan[0].label, PathLabel::Start);
    // Last point is the last vertex.
    let last = plan[20];
    assert_eq!((last.segment, last.step), (1, 10));
    assert_eq!(last.label, PathLabel::End);
    // Samples run forward along the path.
    for i in 1..plan.len() {
        let a = plan[i - 1].segment * 10 + plan[i - 1].step;
        let b = plan[i].segment * 10 + plan[i].step;
        assert!(b > a);
    }
    assert_eq!(plan[10].label, PathLabel::Start);
    assert_eq!(plan[5].label, PathLabel::Unlabeled);
}

#[test]
fn single_vertex_path_is_empty() {
    assert_eq!(band_path_samples(1, 10).len(), 0);
}

#[test]
fn band_path_samples_advance_one_step_at_a_time() {
    // Four vertices, five samples per segment: 3 * 5 + 1 samples.
    let plan = band_path_samples(4, 5);
    assert_eq!(plan.len(), 16);
    for (p, s) in plan.iter().enumerate() {
        assert_eq!(s.segment * 5 + s.step, p);
        assert!(s.segment < 3 && s.step <= 5);
        assert_eq!(s.label == PathLabel::Start, s.step == 0);
    }
    assert_eq!((plan[0].segment, plan[0].step, plan[0].label), (0, 0, PathLabel::Start));
    let last = plan[15];
    assert_eq!((last.segment, last.step, last.label), (2, 5, PathLabel::End));
}
