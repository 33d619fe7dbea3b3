use ray_tracer::intersection::Intersection;
use ray_tracer::world::{is_shadowed, secondary_rays, SecondaryRays, MAX_DEPTH};

#[test]
fn depth_budget() {
    assert_eq!(MAX_DEPTH, 8);
}

#[test]
fn opaque_matte_surface_casts_nothing() {
    let r = secondary_rays(5, false, false, false);
    assert_eq!(r, SecondaryRays { reflected: None, refracted: None, fresnel_blend: false });
}

#[test]
fn reflective_surface_casts_reflection_one_level_down() {
    let r = secondary_rays(5, true, false, false);
    assert_eq!(r, SecondaryRays { reflected: Some(4), refracted: None, fresnel_blend: false });
}

#[test]
fn transparent_surface_casts_refraction() {
    let r = secondary_rays(1, false, true, false);
    assert_eq!(r, SecondaryRays { reflected: None, refracted: Some(0), fresnel_blend: false });
}

#[test]
fn total_internal_reflection_casts_no_refraction() {
    let r = secondary_rays(3, false, true, true);
    assert_eq!(r.refracted, None);
}

#[test]
fn glass_mirror_blends_by_fresnel() {
    let r = secondary_rays(MAX_DEPTH, true, true, false);
    assert_eq!(r, SecondaryRays { reflected: Some(7), refracted: Some(7), fresnel_blend: true });
}

#[test]
fn exhausted_depth_casts_nothing() {
    let r = secondary_rays(0, true, true, false);
    assert_eq!(r, SecondaryRays { reflected: None, refracted: None, fresnel_blend: true });
}

#[test]
fn parallel_mirrors_stop_at_the_depth_budget() {
    // Each bounce between two mirrors casts one reflection ray, one level down.
    let mut depth = MAX_DEPTH;
    let mut bounces: usize = 0;
    while let Some(next) = secondary_rays(depth, true, false, false).reflected {
        assert!(next < depth);
        depth = next;
        bounces += 1;
    }
    assert_eq!(bounces, MAX_DEPTH);
    assert_eq!(depth, 0);
}

#[test]
fn occluder_between_point_and_light_shadows() {
    // Shadow ray from the point: the sphere is crossed at 4 and 6, the light is at 10.
    let xs = vec![Intersection { t_key: 4, object: 0 }, Intersection { t_key: 6, object: 0 }];
    assert!(is_shadowed(&xs, &vec![true, true], 10));
}

#[test]
fn occluder_that_casts_no_shadow() {
    let xs = vec![Intersection { t_key: 4, object: 0 }, Intersection { t_key: 6, object: 0 }];
    assert!(!is_shadowed(&xs, &vec![false, false], 10));
}

#[test]
fn occluder_beyond_the_light() {
    let xs = vec![Intersection { t_key: 12, object: 0 }, Intersection { t_key: 14, object: 0 }];
    assert!(!is_shadowed(&xs, &vec![true, true], 10));
}

#[test]
fn occluder_behind_the_point() {
    let xs = vec![Intersection { t_key: -6, object: 0 }, Intersection { t_key: -4, object: 0 }];
    assert!(!is_shadowed(&xs, &vec![true, true], 10));
}

#[test]
fn nearer_transparent_object_does_not_hide_a_shadow_caster() {
    let xs = vec![
        Intersection { t_key: 2, object: 1 },
        Intersection { t_key: 3, object: 1 },
        Intersection { t_key: 5, object: 0 },
        Intersection { t_key: 7, object: 0 },
    ];
    assert!(is_shadowed(&xs, &vec![false, false, true, true], 10));
}

#[test]
fn nothing_on_the_shadow_ray() {
    assert!(!is_shadowed(&vec![], &vec![], 10));
}
