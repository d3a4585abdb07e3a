use rust_raytracer::integrator::{bounce, exhausted, Met, Radiance, Step, Weight, MAX_DEPTH};
use rust_raytracer::material::{Material, Scatter};

const ALL_MET: [Met; 5] = [
    Met::Nothing,
    Met::Absorbed,
    Met::Specular,
    Met::Diffuse { density_is_zero: false },
    Met::Diffuse { density_is_zero: true },
];

#[test]
fn max_depth_is_five() {
    assert_eq!(MAX_DEPTH, 5);
}

#[test]
fn path_without_steps_left_is_black() {
    assert!(exhausted(0));
    for met in ALL_MET {
        assert_eq!(bounce(0, met), Step::End(Radiance::Black));
    }
}

#[test]
fn path_with_steps_left_is_not_exhausted() {
    assert!(!exhausted(1));
    assert!(!exhausted(u32::MAX));
}

#[test]
fn ray_that_leaves_the_scene_sees_the_background() {
    assert_eq!(bounce(5, Met::Nothing), Step::End(Radiance::Background));
    assert_eq!(bounce(1, Met::Nothing), Step::End(Radiance::Background));
}

#[test]
fn absorbing_surface_ends_the_path_with_its_light() {
    assert_eq!(bounce(5, Met::Absorbed), Step::End(Radiance::Emitted));
}

#[test]
fn specular_surface_goes_on_with_one_step_less() {
    assert_eq!(bounce(5, Met::Specular), Step::Go { weight: Weight::Attenuation, depth: 4 });
    assert_eq!(bounce(1, Met::Specular), Step::Go { weight: Weight::Attenuation, depth: 0 });
}

#[test]
fn diffuse_surface_goes_on_with_one_step_less() {
    assert_eq!(
        bounce(3, Met::Diffuse { density_is_zero: false }),
        Step::Go { weight: Weight::AttenuationByDensities, depth: 2 }
    );
}

#[test]
fn zero_density_ends_the_path_with_the_emitted_light() {
    assert_eq!(bounce(3, Met::Diffuse { density_is_zero: true }), Step::End(Radiance::Emitted));
}

#[test]
fn a_path_of_mirrors_ends_after_max_depth_steps() {
    let mut depth = MAX_DEPTH;
    let mut steps = 0;
    loop {
        match bounce(depth, Met::Specular) {
            Step::Go { depth: left, .. } => {
                assert_eq!(left + 1, depth);
                depth = left;
                steps += 1;
            }
            Step::End(r) => {
                assert_eq!(r, Radiance::Black);
                break;
            }
        }
    }
    assert_eq!(steps, MAX_DEPTH);
}

#[test]
fn surface_by_scatter() {
    assert_eq!(Met::surface(Scatter::Absorbed, false), Met::Absorbed);
    assert_eq!(Met::surface(Scatter::Absorbed, true), Met::Absorbed);
    assert_eq!(Met::surface(Scatter::Specular, true), Met::Specular);
    assert_eq!(Met::surface(Scatter::Diffuse, true), Met::Diffuse { density_is_zero: true });
    assert_eq!(Met::surface(Scatter::Diffuse, false), Met::Diffuse { density_is_zero: false });
}

#[test]
fn only_lights_emit_and_only_from_the_front() {
    assert!(Material::DiffuseLight.emitted(true));
    assert!(!Material::DiffuseLight.emitted(false));
    for m in [Material::Lambertain, Material::Metal, Material::Dielectric] {
        assert!(!m.emitted(true));
        assert!(!m.emitted(false));
        assert!(!m.emissive());
    }
    assert!(Material::DiffuseLight.emissive());
}

#[test]
fn scatter_by_material() {
    for leaves in [false, true] {
        assert_eq!(Material::Lambertain.scatter(leaves), Scatter::Diffuse);
        assert_eq!(Material::Dielectric.scatter(leaves), Scatter::Specular);
        assert_eq!(Material::DiffuseLight.scatter(leaves), Scatter::Absorbed);
    }
    assert_eq!(Material::Metal.scatter(true), Scatter::Specular);
    assert_eq!(Material::Metal.scatter(false), Scatter::Absorbed);
}
