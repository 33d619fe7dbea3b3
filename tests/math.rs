use ray_tracer::math::{cofactor_sign, submatrix_index};

#[test]
fn submatrix_skips_the_deleted_index() {
    let mapped: Vec<Option<usize>> = (0..4).map(|i| submatrix_index(i, 2)).collect();
    assert_eq!(mapped, vec![Some(0), Some(1), None, Some(2)]);
    let mapped: Vec<Option<usize>> = (0..3).map(|i| submatrix_index(i, 0)).collect();
    assert_eq!(mapped, vec![None, Some(0), Some(1)]);
}

#[test]
fn cofactor_signs_alternate() {
    assert_eq!(cofactor_sign(0, 0), 1);
    assert_eq!(cofactor_sign(0, 1), -1);
    assert_eq!(cofactor_sign(1, 0), -1);
    assert_eq!(cofactor_sign(1, 1), 1);
    assert_eq!(cofactor_sign(2, 3), -1);
    assert_eq!(cofactor_sign(3, 3), 1);
}
