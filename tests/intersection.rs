use ray_tracer::intersection::{order_key, Intersection};

fn key(t: f64) -> i64 {
    order_key(t.to_bits())
}

fn xs(ts: &[f64]) -> Vec<Intersection> {
    ts.iter()
        .enumerate()
        .map(|(i, t)| Intersection { t_key: key(*t), object: i })
        .collect()
}

#[test]
fn keys_keep_order_and_sign() {
    let ts = [-f64::INFINITY, -3.5, -1.0, -0.25, 0.0, 0.25, 1.0, 3.5, f64::INFINITY];
    for w in ts.windows(2) {
        assert!(key(w[0]) < key(w[1]));
    }
    for t in ts {
        assert_eq!(key(t) >= 0, t >= 0.0);
    }
    assert_eq!(key(-0.0), key(0.0));
    assert_eq!(key(0.0), 0);
}

#[test]
fn keys_of_known_bit_patterns() {
    assert_eq!(order_key(0x3FF0_0000_0000_0000), 0x3FF0_0000_0000_0000);
    assert_eq!(order_key(0xBFF0_0000_0000_0000), -0x3FF0_0000_0000_0000);
    assert_eq!(order_key(0x8000_0000_0000_0000), 0);
    assert_eq!(order_key(0xFFF0_0000_0000_0000), -0x7FF0_0000_0000_0000);
}

#[test]
fn keys_order_as_distances() {
    let ts = [-1e300, -2.5, -1e-300, -0.0, 0.0, 1e-300, 0.5, 0.75, 4.0, 6.0, 1e300];
    for a in ts {
        for b in ts {
            assert_eq!(key(a) < key(b), a < b);
            assert_eq!(key(a) == key(b), a == b);
        }
    }
}

#[test]
fn hit_when_all_positive() {
    assert_eq!(Intersection::hit(&xs(&[1.0, 2.0])), Some(0));
}

#[test]
fn hit_when_some_negative() {
    assert_eq!(Intersection::hit(&xs(&[-1.0, 1.0])), Some(1));
}

#[test]
fn hit_when_all_negative() {
    assert_eq!(Intersection::hit(&xs(&[-2.0, -1.0])), None);
}

#[test]
fn hit_is_lowest_non_negative() {
    assert_eq!(Intersection::hit(&xs(&[5.0, 7.0, -3.0, 2.0])), Some(3));
}

#[test]
fn hit_of_mixed_signs_in_any_order() {
    let ts = [3.0, -0.5, 0.75, -4.0, 0.0, 9.0];
    assert_eq!(Intersection::hit(&xs(&ts)), Some(4));
    let ts = [-7.0, 2.5, -0.001, 1.25, 6.0];
    assert_eq!(Intersection::hit(&xs(&ts)), Some(3));
}

#[test]
fn hit_of_nothing() {
    assert_eq!(Intersection::hit(&vec![]), None);
}

#[test]
fn hit_of_equal_distances_is_the_first() {
    assert_eq!(Intersection::hit(&xs(&[4.0, 2.0, 2.0])), Some(1));
}

// Refractive index of object `o`, or of vacuum.
fn index_of(indices: &[f64], o: Option<usize>) -> f64 {
    o.map(|o| indices[o]).unwrap_or(1.0)
}

#[test]
fn refractive_indices_of_concentric_spheres() {
    // Outer to inner: 1.5, 2.0, 2.5; a ray through the centre crosses each twice.
    let indices = [1.5, 2.0, 2.5];
    let objects = [0, 1, 2, 2, 1, 0];
    let list: Vec<Intersection> = objects
        .iter()
        .enumerate()
        .map(|(i, o)| Intersection { t_key: i as i64 + 1, object: *o })
        .collect();
    let expected = [(1.0, 1.5), (1.5, 2.0), (2.0, 2.5), (2.5, 2.0), (2.0, 1.5), (1.5, 1.0)];
    for (hit, (n1, n2)) in expected.iter().enumerate() {
        let (c1, c2) = Intersection::refractive_containers(&list, hit);
        assert_eq!(index_of(&indices, c1), *n1);
        assert_eq!(index_of(&indices, c2), *n2);
    }
}

#[test]
fn refractive_indices_of_overlapping_spheres() {
    // A (1.5) holds B (2.0) and C (2.5), which overlap each other.
    let indices = [1.5, 2.0, 2.5];
    let ts = [2.0, 2.75, 3.25, 4.75, 5.25, 6.0];
    let objects = [0, 1, 2, 1, 2, 0];
    let list: Vec<Intersection> = ts
        .iter()
        .zip(objects.iter())
        .map(|(t, o)| Intersection { t_key: key(*t), object: *o })
        .collect();
    let expected = [(1.0, 1.5), (1.5, 2.0), (2.0, 2.5), (2.5, 2.5), (2.5, 1.5), (1.5, 1.0)];
    for (hit, (n1, n2)) in expected.iter().enumerate() {
        let (c1, c2) = Intersection::refractive_containers(&list, hit);
        assert_eq!(index_of(&indices, c1), *n1);
        assert_eq!(index_of(&indices, c2), *n2);
    }
}

#[test]
fn refractive_containers_of_a_single_crossing() {
    let list = vec![Intersection { t_key: 10, object: 3 }];
    assert_eq!(Intersection::refractive_containers(&list, 0), (None, Some(3)));
}

#[test]
fn balanced_crossings_end_in_vacuum() {
    let objects = [4, 2, 4, 9, 2, 9, 7, 7];
    let list: Vec<Intersection> = objects
        .iter()
        .enumerate()
        .map(|(i, o)| Intersection { t_key: 10 * i as i64, object: *o })
        .collect();
    let (_, after) = Intersection::refractive_containers(&list, objects.len() - 1);
    assert_eq!(after, None);
    // Inside 2 once 4 is left, inside 9 once 2 is left.
    assert_eq!(Intersection::refractive_containers(&list, 2), (Some(2), Some(2)));
    assert_eq!(Intersection::refractive_containers(&list, 3), (Some(2), Some(9)));
    assert_eq!(Intersection::refractive_containers(&list, 4), (Some(9), Some(9)));
}
