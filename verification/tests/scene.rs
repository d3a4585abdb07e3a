use rust_raytracer::aabb::{GridPoint, AABB};
use rust_raytracer::bvh::BVHNode;
use rust_raytracer::hittable::{FlipFace, HitRecord, MatTransform};
use rust_raytracer::hittable_list::HittableList;
use rust_raytracer::material::Material;
use rust_raytracer::mesh::TriangleMesh;
use rust_raytracer::object::{Object, Primitive, Shape};
use rust_raytracer::scenes::{new_scene, MIN_SAMPLES};
use rust_raytracer::utils::{get_all_lights, get_lights_from_node};
use std::cell::RefCell;
use std::sync::Arc;

fn cube(at: i64) -> AABB {
    AABB::new(GridPoint::new(at, at, at), GridPoint::new(at + 1, at + 1, at + 1))
}

fn prim(id: usize, shape: Shape, mat: Material) -> Arc<Object> {
    Arc::new(Object::Primitive(Primitive { id, shape, mat, bounds: cube(id as i64) }))
}

fn list_of(objects: Vec<Arc<Object>>) -> HittableList {
    let mut list = HittableList::new();
    for o in objects {
        list.add(o);
    }
    list
}

/// The name of a primitive, of a transformed node, or of what a flipped
/// node wraps.
fn name(o: &Object) -> usize {
    match o {
        Object::Primitive(p) => p.id,
        Object::MatTransform(mt) => mt.id,
        Object::FlipFace(ff) => name(&ff.ptr),
        _ => panic!("not a named node"),
    }
}

fn names(v: &[Arc<Object>]) -> Vec<usize> {
    v.iter().map(|o| name(o)).collect()
}

#[test]
fn lights_are_spheres_and_two_kinds_of_rectangle_that_emit() {
    for shape in [Shape::Sphere, Shape::XYRect, Shape::XZRect] {
        assert!(prim(0, shape, Material::DiffuseLight).is_light());
        assert!(!prim(0, shape, Material::Lambertain).is_light());
        assert!(!prim(0, shape, Material::Metal).is_light());
        assert!(!prim(0, shape, Material::Dielectric).is_light());
    }
    for shape in [Shape::MovingSphere, Shape::YZRect, Shape::RectBox, Shape::Triangle] {
        assert!(!prim(0, shape, Material::DiffuseLight).is_light());
    }
}

#[test]
fn a_wrapper_is_a_light_where_what_it_wraps_is() {
    let light = prim(1, Shape::XZRect, Material::DiffuseLight);
    let wall = prim(2, Shape::XZRect, Material::Lambertain);
    assert!(Object::FlipFace(FlipFace::new(light.clone())).is_light());
    assert!(!Object::FlipFace(FlipFace::new(wall.clone())).is_light());
    assert!(Object::MatTransform(MatTransform::new(9, None, light.clone())).is_light());
    assert!(!Object::MatTransform(MatTransform::new(9, None, wall)).is_light());
    let twice = Arc::new(Object::FlipFace(FlipFace::new(light)));
    assert!(Object::MatTransform(MatTransform::new(9, None, twice)).is_light());
}

#[test]
fn lists_and_hierarchies_are_no_lights() {
    let light = prim(1, Shape::Sphere, Material::DiffuseLight);
    let list = list_of(vec![light.clone()]);
    assert!(!Object::HittableList(list).is_light());
    let node = BVHNode::from_vec(vec![light.clone()]).ok().unwrap();
    assert!(!Object::BVHNode(node).is_light());
    let mesh = BVHNode::from_vec(vec![light]).ok().unwrap();
    assert!(!Object::TriangleMesh(TriangleMesh::new(mesh, Material::DiffuseLight)).is_light());
}

#[test]
fn lights_of_a_list_come_in_order() {
    let list = list_of(vec![
        prim(0, Shape::Sphere, Material::Lambertain),
        prim(1, Shape::Sphere, Material::DiffuseLight),
        prim(2, Shape::YZRect, Material::DiffuseLight),
        Arc::new(Object::FlipFace(FlipFace::new(prim(3, Shape::XZRect, Material::DiffuseLight)))),
        prim(4, Shape::XYRect, Material::DiffuseLight),
        prim(5, Shape::Sphere, Material::Dielectric),
    ]);
    assert_eq!(names(&list.get_lights()), vec![1, 3, 4]);
    assert_eq!(names(&get_all_lights(&list.objects)), vec![1, 3, 4]);
    assert_eq!(names(&Object::HittableList(list).get_lights()), vec![1, 3, 4]);
}

#[test]
fn a_flipped_light_is_listed_as_the_wrapper() {
    let list = list_of(vec![Arc::new(Object::FlipFace(FlipFace::new(prim(
        3,
        Shape::XZRect,
        Material::DiffuseLight,
    ))))]);
    let lights = list.get_lights();
    assert_eq!(lights.len(), 1);
    assert!(matches!(&*lights[0], Object::FlipFace(_)));
}

#[test]
fn lights_inside_lists_and_hierarchies_are_found() {
    let inner = list_of(vec![
        prim(10, Shape::Sphere, Material::DiffuseLight),
        prim(11, Shape::Sphere, Material::Metal),
    ]);
    let node = BVHNode::from_vec(vec![
        prim(20, Shape::XZRect, Material::DiffuseLight),
        prim(21, Shape::Triangle, Material::DiffuseLight),
    ])
    .ok()
    .unwrap();
    let world = list_of(vec![
        prim(0, Shape::XYRect, Material::DiffuseLight),
        Arc::new(Object::HittableList(inner)),
        Arc::new(Object::BVHNode(node)),
        prim(1, Shape::Sphere, Material::DiffuseLight),
    ]);
    assert_eq!(names(&world.get_lights()), vec![0, 10, 20, 1]);
}

#[test]
fn lights_inside_meshes_and_wrappers_are_not_looked_for() {
    let mesh = BVHNode::from_vec(vec![prim(1, Shape::Sphere, Material::DiffuseLight)]).ok().unwrap();
    let wrapped = list_of(vec![prim(2, Shape::Sphere, Material::DiffuseLight)]);
    let world = list_of(vec![
        Arc::new(Object::TriangleMesh(TriangleMesh::new(mesh, Material::DiffuseLight))),
        Arc::new(Object::FlipFace(FlipFace::new(Arc::new(Object::HittableList(wrapped))))),
    ]);
    assert!(world.get_lights().is_empty());
    assert!(prim(3, Shape::Sphere, Material::DiffuseLight).get_lights().is_empty());
}

#[test]
fn lights_of_two_hierarchies() {
    let left = BVHNode::from_vec(vec![
        prim(1, Shape::Sphere, Material::DiffuseLight),
        prim(2, Shape::Sphere, Material::Lambertain),
    ])
    .ok()
    .unwrap();
    let right = BVHNode::from_vec(vec![prim(3, Shape::XYRect, Material::DiffuseLight)]).ok().unwrap();
    assert_eq!(names(&get_lights_from_node(Arc::new(left), Arc::new(right))), vec![1, 3]);
}

#[test]
fn box_of_a_primitive_is_its_own() {
    assert_eq!(prim(4, Shape::Sphere, Material::Metal).bounding_box(), Some(cube(4)));
}

#[test]
fn box_of_a_list_surrounds_its_primitives() {
    let list = list_of(vec![
        prim(3, Shape::Sphere, Material::Metal),
        prim(0, Shape::Sphere, Material::Metal),
        prim(7, Shape::Sphere, Material::Metal),
    ]);
    assert_eq!(
        list.bounding_box(),
        Some(AABB::new(GridPoint::new(0, 0, 0), GridPoint::new(8, 8, 8)))
    );
}

#[test]
fn empty_list_has_no_box() {
    assert_eq!(HittableList::new().bounding_box(), None);
    assert_eq!(Object::default().bounding_box(), None);
}

#[test]
fn list_with_a_primitive_without_box_has_no_box() {
    let unbounded = Arc::new(Object::MatTransform(MatTransform::new(
        9,
        None,
        prim(1, Shape::Sphere, Material::Metal),
    )));
    let list = list_of(vec![prim(0, Shape::Sphere, Material::Metal), unbounded.clone()]);
    assert_eq!(list.bounding_box(), None);
    let list = list_of(vec![unbounded, prim(0, Shape::Sphere, Material::Metal)]);
    assert_eq!(list.bounding_box(), None);
}

#[test]
fn boxes_of_wrappers() {
    let inner = prim(2, Shape::Sphere, Material::Metal);
    assert_eq!(Object::FlipFace(FlipFace::new(inner.clone())).bounding_box(), Some(cube(2)));
    assert_eq!(
        Object::MatTransform(MatTransform::new(9, Some(cube(40)), inner.clone())).bounding_box(),
        Some(cube(40))
    );
    assert_eq!(Object::MatTransform(MatTransform::new(9, None, inner)).bounding_box(), None);
}

#[test]
fn list_add_and_clear() {
    let mut list = HittableList::new();
    assert!(list.objects.is_empty());
    list.add(prim(1, Shape::Sphere, Material::Metal));
    list.add(prim(2, Shape::Sphere, Material::Metal));
    assert_eq!(names(&list.objects), vec![1, 2]);
    list.clear();
    assert!(list.objects.is_empty());
    assert!(HittableList::default().objects.is_empty());
    assert_eq!(
        names(&HittableList::from_vec(vec![prim(5, Shape::Sphere, Material::Metal)]).objects),
        vec![5]
    );
}

#[test]
fn empty_world_is_missed() {
    let probe = |id: usize, hi: u64| Some(HitRecord { id, t: hi, front_face: true, detail: () });
    let meets = |_: &AABB, _: u64| true;
    assert_eq!(HittableList::new().hit(&probe, &meets, u64::MAX), None);
    assert_eq!(Object::default().hit(&probe, &meets, u64::MAX), None);
}

/// A ray for which primitive `id` is hit at distance `10 * id + 5`.
fn ladder(id: usize, hi: u64) -> Option<HitRecord<()>> {
    let t = 10 * id as u64 + 5;
    if t <= hi {
        Some(HitRecord { id, t, front_face: true, detail: () })
    } else {
        None
    }
}

#[test]
fn list_returns_the_nearest_hit() {
    let list = list_of(vec![
        prim(3, Shape::Sphere, Material::Metal),
        prim(1, Shape::Sphere, Material::Metal),
        prim(2, Shape::Sphere, Material::Metal),
    ]);
    let meets = |_: &AABB, _: u64| true;
    assert_eq!(
        list.hit(&ladder, &meets, 1000),
        Some(HitRecord { id: 1, t: 15, front_face: true, detail: () })
    );
    assert_eq!(list.hit(&ladder, &meets, 15), Some(HitRecord { id: 1, t: 15, front_face: true, detail: () }));
    assert_eq!(list.hit(&ladder, &meets, 14), None);
}

#[test]
fn list_asks_each_primitive_no_farther_than_the_nearest_so_far() {
    let asked = RefCell::new(Vec::new());
    let probe = |id: usize, hi: u64| {
        asked.borrow_mut().push((id, hi));
        ladder(id, hi)
    };
    let meets = |_: &AABB, _: u64| true;
    let list = list_of(vec![
        prim(3, Shape::Sphere, Material::Metal),
        prim(5, Shape::Sphere, Material::Metal),
        prim(1, Shape::Sphere, Material::Metal),
    ]);
    list.hit(&probe, &meets, 1000);
    assert_eq!(*asked.borrow(), vec![(3, 1000), (5, 35), (1, 35)]);
}

#[test]
fn of_two_hits_at_the_same_distance_the_later_one_is_returned() {
    let probe = |id: usize, hi: u64| if 7 <= hi { Some(HitRecord { id, t: 7, front_face: true, detail: () }) } else { None };
    let meets = |_: &AABB, _: u64| true;
    let list = list_of(vec![
        prim(1, Shape::Sphere, Material::Metal),
        prim(2, Shape::Sphere, Material::Metal),
    ]);
    assert_eq!(list.hit(&probe, &meets, 100), Some(HitRecord { id: 2, t: 7, front_face: true, detail: () }));
}

#[test]
fn the_detail_of_a_hit_is_handed_back() {
    let probe = |id: usize, hi: u64| {
        let t = 100 - id as u64;
        if t <= hi {
            Some(HitRecord { id, t, front_face: true, detail: format!("hit on {}", id) })
        } else {
            None
        }
    };
    let meets = |_: &AABB, _: u64| true;
    let inner = list_of(vec![
        prim(4, Shape::Sphere, Material::Metal),
        Arc::new(Object::FlipFace(FlipFace::new(prim(7, Shape::Sphere, Material::Metal)))),
    ]);
    let world = list_of(vec![
        prim(1, Shape::Sphere, Material::Metal),
        Arc::new(Object::HittableList(inner)),
        prim(2, Shape::Sphere, Material::Metal),
    ]);
    assert_eq!(
        world.hit(&probe, &meets, 1000),
        Some(HitRecord { id: 7, t: 93, front_face: false, detail: "hit on 7".to_string() })
    );
}

#[test]
fn flipped_node_reports_the_other_face() {
    let meets = |_: &AABB, _: u64| true;
    let flipped = Object::FlipFace(FlipFace::new(prim(2, Shape::XZRect, Material::DiffuseLight)));
    assert_eq!(
        flipped.hit(&ladder, &meets, 100),
        Some(HitRecord { id: 2, t: 25, front_face: false, detail: () })
    );
    let twice = Object::FlipFace(FlipFace::new(Arc::new(flipped)));
    assert_eq!(
        twice.hit(&ladder, &meets, 100),
        Some(HitRecord { id: 2, t: 25, front_face: true, detail: () })
    );
    assert_eq!(twice.hit(&ladder, &meets, 24), None);
}

#[test]
fn transformed_node_is_asked_about_by_its_own_name() {
    let meets = |_: &AABB, _: u64| true;
    let moved = Object::MatTransform(MatTransform::new(
        4,
        Some(cube(0)),
        prim(2, Shape::RectBox, Material::Lambertain),
    ));
    assert_eq!(
        moved.hit(&ladder, &meets, 100),
        Some(HitRecord { id: 4, t: 45, front_face: true, detail: () })
    );
}

#[test]
fn mesh_is_asked_as_its_hierarchy() {
    let node = BVHNode::from_vec(vec![
        prim(6, Shape::Triangle, Material::Lambertain),
        prim(3, Shape::Triangle, Material::Lambertain),
    ])
    .ok()
    .unwrap();
    let mesh = Object::TriangleMesh(TriangleMesh::new(node, Material::Metal));
    assert_eq!(
        mesh.bounding_box(),
        Some(AABB::new(GridPoint::new(3, 3, 3), GridPoint::new(7, 7, 7)))
    );
    let meets = |_: &AABB, _: u64| true;
    assert_eq!(mesh.hit(&ladder, &meets, 100), Some(HitRecord { id: 3, t: 35, front_face: true, detail: () }));
    let never = |_: &AABB, _: u64| false;
    assert_eq!(mesh.hit(&ladder, &never, 100), None);
}

#[test]
fn random_choice_in_an_empty_list_fails() {
    assert!(HittableList::new().random().is_none());
    assert!(Object::default().random().is_none());
}

#[test]
fn random_choice_ends_at_a_member() {
    let list = list_of(vec![
        prim(1, Shape::Sphere, Material::DiffuseLight),
        Arc::new(Object::FlipFace(FlipFace::new(prim(2, Shape::XZRect, Material::DiffuseLight)))),
        Arc::new(Object::MatTransform(MatTransform::new(
            3,
            None,
            prim(30, Shape::Sphere, Material::DiffuseLight),
        ))),
    ]);
    let mut seen = [false; 4];
    for _ in 0..300 {
        let x = list.random().unwrap();
        match x {
            // The choice goes through the flipped node to what it wraps,
            // and stops at the transformed node.
            Object::Primitive(p) => assert!(p.id == 1 || p.id == 2),
            Object::MatTransform(mt) => assert_eq!(mt.id, 3),
            _ => panic!("the choice ended at a node of another kind"),
        }
        seen[name(x)] = true;
    }
    assert_eq!(seen, [false, true, true, true]);
}

#[test]
fn random_choice_in_a_primitive_is_the_primitive() {
    let p = prim(5, Shape::Sphere, Material::DiffuseLight);
    assert_eq!(name(p.random().unwrap()), 5);
}

#[test]
fn random_choice_in_a_hierarchy_ends_below_it() {
    let objects: Vec<Arc<Object>> =
        (0..50).map(|i| prim(i, Shape::Sphere, Material::DiffuseLight)).collect();
    let node = BVHNode::from_vec(objects).ok().unwrap();
    let mut seen = vec![false; 50];
    for _ in 0..5000 {
        seen[name(node.random().unwrap())] = true;
    }
    assert!(seen.iter().all(|&s| s));
}

#[test]
fn scene_lists_its_lights_and_has_enough_samples() {
    let world = list_of(vec![
        prim(0, Shape::Sphere, Material::Lambertain),
        prim(1, Shape::XZRect, Material::DiffuseLight),
        prim(2, Shape::Sphere, Material::DiffuseLight),
    ]);
    let cfg = new_scene(world, 400);
    assert_eq!(cfg.samples_per_pixel, 400);
    match &cfg.world {
        Object::HittableList(hl) => assert_eq!(names(&hl.objects), vec![0, 1, 2]),
        _ => panic!("the world is a list"),
    }
    match &*cfg.lights {
        Object::HittableList(hl) => assert_eq!(names(&hl.objects), vec![1, 2]),
        _ => panic!("the lights are a list"),
    }
}

#[test]
fn scene_has_at_least_the_smallest_number_of_samples() {
    assert_eq!(MIN_SAMPLES, 100);
    assert_eq!(new_scene(HittableList::new(), 0).samples_per_pixel, 100);
    assert_eq!(new_scene(HittableList::new(), 99).samples_per_pixel, 100);
    assert_eq!(new_scene(HittableList::new(), 100).samples_per_pixel, 100);
    assert_eq!(new_scene(HittableList::new(), 101).samples_per_pixel, 101);
}

#[test]
fn scene_without_primitives_has_no_lights() {
    let cfg = new_scene(HittableList::new(), 100);
    match &*cfg.lights {
        Object::HittableList(hl) => assert!(hl.objects.is_empty()),
        _ => panic!("the lights are a list"),
    }
}
