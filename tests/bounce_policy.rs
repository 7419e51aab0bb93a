use raytracer::bounce::{plan_shading, Shading};

#[test]
fn within_the_limit_children_follow_the_material() {
    assert_eq!(
        plan_shading(0, 3, true, false),
        Shading::Blend { reflection: true, refraction: false, next_bounce: 1 }
    );
    assert_eq!(
        plan_shading(2, 3, false, true),
        Shading::Blend { reflection: false, refraction: true, next_bounce: 3 }
    );
    assert_eq!(
        plan_shading(1, 3, false, false),
        Shading::Blend { reflection: false, refraction: false, next_bounce: 2 }
    );
}

#[test]
fn at_or_past_the_limit_only_local_color_remains() {
    assert_eq!(plan_shading(3, 3, false, true), Shading::LocalOnly);
    assert_eq!(plan_shading(4, 3, true, true), Shading::LocalOnly);
    assert_eq!(plan_shading(usize::MAX, usize::MAX, true, true), Shading::LocalOnly);
}

#[test]
fn zero_limit_shades_the_primary_ray_locally() {
    assert_eq!(plan_shading(0, 0, true, true), Shading::LocalOnly);
    assert_eq!(plan_shading(0, 0, true, false), Shading::LocalOnly);
    assert_eq!(plan_shading(0, 0, false, true), Shading::LocalOnly);
}

#[test]
fn recursion_ends_after_max_bounces_levels() {
    let max = 5;
    let mut depth = 0;
    let mut current = 0;
    while let Shading::Blend { next_bounce, .. } = plan_shading(current, max, true, true) {
        assert_eq!(next_bounce, current + 1);
        current = next_bounce;
        depth += 1;
    }
    assert_eq!(depth, max);
}
