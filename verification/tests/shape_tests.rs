use bvh_core::bounding::BoundingBox;
use bvh_core::cube::{Cube, CubeEdges};
use bvh_core::hittable::{HitRecord, HittableList};
use bvh_core::quad::{PlaneCrossing, Quad, QuadFrame};
use bvh_core::ray::Ray;
use bvh_core::scalar::Scalar;
use bvh_core::sphere::{Roots, Sphere, SphereReach, SurfacePoint};
use bvh_core::transform::{RotateY, Translate};
use bvh_core::vec3::{Point3, Vec3};

fn s(x: f64) -> Scalar {
    Scalar::from_bits(x.to_bits())
}

fn f(x: Scalar) -> f64 {
    f64::from_bits(x.to_bits())
}

fn p(x: f64, y: f64, z: f64) -> Point3 {
    Point3::new(s(x), s(y), s(z))
}

fn v(x: f64, y: f64, z: f64) -> Vec3 {
    Vec3::new(s(x), s(y), s(z))
}

fn arr(a: Vec3) -> [f64; 3] {
    [f(a.x), f(a.y), f(a.z)]
}

fn vec(a: [f64; 3]) -> Vec3 {
    v(a[0], a[1], a[2])
}

fn add(a: [f64; 3], b: [f64; 3]) -> [f64; 3] {
    [a[0] + b[0], a[1] + b[1], a[2] + b[2]]
}

fn sub(a: [f64; 3], b: [f64; 3]) -> [f64; 3] {
    [a[0] - b[0], a[1] - b[1], a[2] - b[2]]
}

fn scale(a: [f64; 3], k: f64) -> [f64; 3] {
    [a[0] * k, a[1] * k, a[2] * k]
}

fn dot(a: [f64; 3], b: [f64; 3]) -> f64 {
    a[0] * b[0] + a[1] * b[1] + a[2] * b[2]
}

fn cross(a: [f64; 3], b: [f64; 3]) -> [f64; 3] {
    [a[1] * b[2] - a[2] * b[1], a[2] * b[0] - a[0] * b[2], a[0] * b[1] - a[1] * b[0]]
}

fn widen(lo: Scalar, hi: Scalar) -> (Scalar, Scalar) {
    (s(f(lo) - 0.00005), s(f(hi) + 0.00005))
}

fn length(b: &BoundingBox, axis: usize) -> Scalar {
    s((f(b.upper.offset(axis)) - f(b.lower.offset(axis))).abs())
}

fn frame(q: Point3, u: Vec3, v: Vec3) -> QuadFrame {
    let (q, u, v) = (arr(q.data), arr(u), arr(v));
    let n = cross(u, v);
    let normal = scale(n, 1.0 / dot(n, n).sqrt());
    QuadFrame {
        end_u: Point3 { data: vec(add(q, u)) },
        end_v: Point3 { data: vec(add(q, v)) },
        far: Point3 { data: vec(add(add(q, u), v)) },
        normal: vec(normal),
        d: s(dot(normal, q)),
        w: vec(scale(n, 1.0 / dot(n, n))),
    }
}

fn meet(quad: &Quad, origin: [f64; 3], direction: [f64; 3]) -> PlaneCrossing {
    let normal = arr(quad.normal);
    let denom = dot(normal, direction);
    let t = (f(quad.d) - dot(normal, origin)) / denom;
    let point = add(origin, scale(direction, t));
    let planar = sub(point, arr(quad.q.data));
    let alpha = dot(arr(quad.w), cross(planar, arr(quad.v)));
    let beta = dot(arr(quad.w), cross(arr(quad.u), planar));
    PlaneCrossing { denom: s(denom), t: s(t), point: Point3 { data: vec(point) }, alpha: s(alpha), beta: s(beta) }
}

fn measure(lo: Point3, hi: Point3) -> CubeEdges {
    let (lo, hi) = (arr(lo.data), arr(hi.data));
    CubeEdges { dx: v(hi[0] - lo[0], 0.0, 0.0), dy: v(0.0, hi[1] - lo[1], 0.0), dz: v(0.0, 0.0, hi[2] - lo[2]) }
}

fn unit_quad() -> Quad {
    let (q, u, w) = (p(0.0, 0.0, 0.0), v(1.0, 0.0, 0.0), v(0.0, 1.0, 0.0));
    Quad::new(q, u, w, 7, frame(q, u, w), &length, &widen)
}

fn unit_sphere() -> Sphere {
    let reach = SphereReach {
        low_start: p(-1.0, -1.0, -1.0),
        high_start: p(1.0, 1.0, 1.0),
        low_end: p(-1.0, -1.0, -1.0),
        high_end: p(1.0, 1.0, 1.0),
    };
    Sphere::new(Ray::new(p(0.0, 0.0, 0.0), v(0.0, 0.0, 0.0), s(0.0)), s(1.0), 3, reach, &length, &widen)
}

fn roots(center: [f64; 3], radius: f64, origin: [f64; 3], direction: [f64; 3]) -> Roots {
    let oc = sub(center, origin);
    let a = dot(direction, direction);
    let h = dot(direction, oc);
    let c = dot(oc, oc) - radius * radius;
    let discriminant = h * h - a * c;
    let sqrtd = discriminant.sqrt();
    Roots { discriminant: s(discriminant), near: s((h - sqrtd) / a), far: s((h + sqrtd) / a) }
}

fn surface(center: [f64; 3], radius: f64, origin: [f64; 3], direction: [f64; 3], t: Scalar) -> SurfacePoint {
    let point = add(origin, scale(direction, f(t)));
    let outward = scale(sub(point, center), 1.0 / radius);
    let phi = (-outward[2]).atan2(outward[0]) + std::f64::consts::PI;
    let theta = (-outward[1]).acos();
    SurfacePoint {
        p: Point3 { data: vec(point) },
        outward: vec(outward),
        facing: s(dot(direction, outward)),
        u: s(phi / (2.0 * std::f64::consts::PI)),
        v: s(theta / std::f64::consts::PI),
    }
}

#[test]
fn quad_corner_is_interior_and_opposite_corner_is_not() {
    let quad = unit_quad();
    assert_eq!(quad.is_interior(&s(0.0), &s(0.0)), Some((s(0.0), s(0.0))));
    assert_eq!(quad.is_interior(&s(1.0), &s(1.0)), None);
    assert_eq!(quad.is_interior(&s(0.5), &s(1.0)), None);
    assert_eq!(quad.is_interior(&s(1.0), &s(0.5)), None);
    assert_eq!(quad.is_interior(&s(0.5), &s(0.25)), Some((s(0.5), s(0.25))));
    assert_eq!(quad.is_interior(&s(-0.0), &s(0.999)), Some((s(0.0), s(0.999))));
    assert_eq!(quad.is_interior(&s(-0.001), &s(0.5)), None);
    assert_eq!(quad.is_interior(&s(f64::NAN), &s(0.5)), None);
}

#[test]
fn quad_new_keeps_the_frame_and_bounds_both_diagonals() {
    let quad = unit_quad();
    assert_eq!(quad.q, p(0.0, 0.0, 0.0));
    assert_eq!(quad.u, v(1.0, 0.0, 0.0));
    assert_eq!(quad.v, v(0.0, 1.0, 0.0));
    assert_eq!(quad.mat, 7);
    assert_eq!(quad.normal, v(0.0, 0.0, 1.0));
    assert_eq!(quad.d, s(0.0));
    assert_eq!(quad.w, v(0.0, 0.0, 1.0));
    assert_eq!(quad.bounding_box().lower, p(0.0, 0.0, -0.00005));
    assert_eq!(quad.bounding_box().upper, p(1.0, 1.0, 0.00005));
    let (q, u, w) = (p(-3.0, -2.0, 5.0), v(0.0, 0.0, -4.0), v(0.0, 4.0, 0.0));
    let side = Quad::new(q, u, w, 0, frame(q, u, w), &length, &widen);
    assert_eq!(side.bounds.lower, p(-3.0 - 0.00005, -2.0, 1.0));
    assert_eq!(side.bounds.upper, p(-3.0 + 0.00005, 2.0, 5.0));
}

#[test]
fn quad_hit_from_the_front() {
    let quad = unit_quad();
    let (origin, direction) = ([0.25, 0.5, 2.0], [0.0, 0.0, -1.0]);
    let hit = quad.hit(&meet(&quad, origin, direction), s(0.001), s(f64::INFINITY)).unwrap();
    assert_eq!(hit.t, s(2.0));
    assert_eq!(hit.hit_pos(), p(0.25, 0.5, 0.0));
    assert_eq!(hit.normal(), v(0.0, 0.0, 1.0));
    assert!(hit.front_face());
    assert_eq!(hit.material_ref(), 7);
    assert_eq!(hit.u, s(0.25));
    assert_eq!(hit.v, s(0.5));
}

#[test]
fn quad_hit_from_behind_turns_the_normal() {
    let quad = unit_quad();
    let (origin, direction) = ([0.25, 0.5, -2.0], [0.0, 0.0, 1.0]);
    let hit = quad.hit(&meet(&quad, origin, direction), s(0.001), s(f64::INFINITY)).unwrap();
    assert_eq!(hit.t, s(2.0));
    assert_eq!(hit.normal(), v(0.0, 0.0, -1.0));
    assert!(!hit.front_face());
}

#[test]
fn quad_misses() {
    let quad = unit_quad();
    let parallel = meet(&quad, [0.25, 0.5, 2.0], [1.0, 0.0, 0.0]);
    assert_eq!(quad.hit(&parallel, s(0.001), s(f64::INFINITY)), None);
    let nearly = meet(&quad, [0.25, 0.5, 2.0], [1.0, 0.0, -0.000000001]);
    assert_eq!(quad.hit(&nearly, s(0.001), s(f64::INFINITY)), None);
    let behind = meet(&quad, [0.25, 0.5, 2.0], [0.0, 0.0, 1.0]);
    assert_eq!(quad.hit(&behind, s(0.001), s(f64::INFINITY)), None);
    let far = meet(&quad, [0.25, 0.5, 2.0], [0.0, 0.0, -1.0]);
    assert_eq!(quad.hit(&far, s(0.001), s(1.5)), None);
    let beside = meet(&quad, [1.25, 0.5, 2.0], [0.0, 0.0, -1.0]);
    assert_eq!(quad.hit(&beside, s(0.001), s(f64::INFINITY)), None);
    let corner = meet(&quad, [1.0, 1.0, 2.0], [0.0, 0.0, -1.0]);
    assert_eq!(quad.hit(&corner, s(0.001), s(f64::INFINITY)), None);
    let own = meet(&quad, [0.0, 0.0, 2.0], [0.0, 0.0, -1.0]);
    assert!(quad.hit(&own, s(0.001), s(f64::INFINITY)).is_some());
    let at_range_end = meet(&quad, [0.25, 0.5, 2.0], [0.0, 0.0, -1.0]);
    assert!(quad.hit(&at_range_end, s(2.0), s(2.0)).is_some());
}

#[test]
fn sphere_at_origin_hit_along_z() {
    let sphere = unit_sphere();
    let (center, origin, direction) = ([0.0, 0.0, 0.0], [0.0, 0.0, -5.0], [0.0, 0.0, 1.0]);
    let r = roots(center, 1.0, origin, direction);
    assert_eq!(r.near, s(4.0));
    assert_eq!(r.far, s(6.0));
    let at = |t: Scalar| surface(center, 1.0, origin, direction, t);
    let hit = sphere.hit(&r, &at, s(0.001), s(f64::INFINITY)).unwrap();
    assert_eq!(hit.t, s(4.0));
    assert_eq!(hit.hit_pos(), p(0.0, 0.0, -1.0));
    assert_eq!(hit.normal(), v(0.0, 0.0, -1.0));
    assert!(hit.front_face());
    assert_eq!(hit.material_ref(), 3);
    assert_eq!(hit.u, s(0.75));
    assert_eq!(hit.v, s(0.5));
}

#[test]
fn sphere_root_prefers_the_smaller_root_in_range() {
    let r = Roots { discriminant: s(1.0), near: s(4.0), far: s(6.0) };
    assert_eq!(Sphere::root(&r, s(0.0), s(10.0)), Some(s(4.0)));
    assert_eq!(Sphere::root(&r, s(4.0), s(10.0)), Some(s(6.0)));
    assert_eq!(Sphere::root(&r, s(4.5), s(10.0)), Some(s(6.0)));
    assert_eq!(Sphere::root(&r, s(0.0), s(4.0)), None);
    assert_eq!(Sphere::root(&r, s(4.5), s(6.0)), None);
    assert_eq!(Sphere::root(&r, s(7.0), s(10.0)), None);
    assert_eq!(Sphere::root(&r, s(0.0), s(5.0)), Some(s(4.0)));
    let missed = Roots { discriminant: s(-0.5), near: s(f64::NAN), far: s(f64::NAN) };
    assert_eq!(Sphere::root(&missed, s(0.0), s(10.0)), None);
    let grazing = Roots { discriminant: s(0.0), near: s(5.0), far: s(5.0) };
    assert_eq!(Sphere::root(&grazing, s(0.0), s(10.0)), Some(s(5.0)));
}

#[test]
fn sphere_hit_from_inside_turns_the_normal() {
    let sphere = unit_sphere();
    let (center, origin, direction) = ([0.0, 0.0, 0.0], [0.0, 0.0, 0.0], [0.0, 0.0, 1.0]);
    let r = roots(center, 1.0, origin, direction);
    let at = |t: Scalar| surface(center, 1.0, origin, direction, t);
    let hit = sphere.hit(&r, &at, s(0.001), s(f64::INFINITY)).unwrap();
    assert_eq!(hit.t, s(1.0));
    assert_eq!(hit.hit_pos(), p(0.0, 0.0, 1.0));
    assert_eq!(hit.normal(), v(0.0, 0.0, -1.0));
    assert!(!hit.front_face());
    let away = roots(center, 1.0, [0.0, 0.0, -5.0], [0.0, 1.0, 0.0]);
    assert_eq!(sphere.hit(&away, &at, s(0.001), s(f64::INFINITY)), None);
}

#[test]
fn sphere_bounds_span_the_movement() {
    let still = unit_sphere();
    assert_eq!(still.bounding_box().lower, p(-1.0, -1.0, -1.0));
    assert_eq!(still.bounding_box().upper, p(1.0, 1.0, 1.0));
    assert_eq!(still.center.origin(), p(0.0, 0.0, 0.0));
    assert_eq!(still.center.time(), s(0.0));
    assert_eq!(still.radius, s(1.0));
    let reach = SphereReach {
        low_start: p(-1.0, -1.0, -1.0),
        high_start: p(1.0, 1.0, 1.0),
        low_end: p(1.0, -1.0, -1.0),
        high_end: p(3.0, 1.0, 1.0),
    };
    let moving = Sphere::new(Ray::new(p(0.0, 0.0, 0.0), v(2.0, 0.0, 0.0), s(0.0)), s(1.0), 3, reach, &length, &widen);
    assert_eq!(moving.bounds.lower, p(-1.0, -1.0, -1.0));
    assert_eq!(moving.bounds.upper, p(3.0, 1.0, 1.0));
    assert_eq!(moving.center.direction(), v(2.0, 0.0, 0.0));
}

#[test]
fn hit_record_faces_the_ray() {
    let mut record = HitRecord::new(p(1.0, 2.0, 3.0), v(0.0, 1.0, 0.0), s(2.0), 5, s(0.1), s(0.2));
    assert!(!record.front_face());
    record.set_face_normal(s(-0.5), v(0.0, 1.0, 0.0));
    assert!(record.front_face());
    assert_eq!(record.normal(), v(0.0, 1.0, 0.0));
    record.set_face_normal(s(0.5), v(0.0, 1.0, 0.0));
    assert!(!record.front_face());
    assert_eq!(record.normal(), v(0.0, -1.0, 0.0));
    record.set_face_normal(s(0.0), v(0.0, 1.0, 0.0));
    assert!(!record.front_face());
    record.update_record(p(4.0, 5.0, 6.0), v(1.0, 0.0, 0.0), s(9.0));
    assert_eq!(record.hit_pos(), p(4.0, 5.0, 6.0));
    assert_eq!(record.normal(), v(1.0, 0.0, 0.0));
    assert_eq!(record.t, s(9.0));
    assert_eq!(record.material_ref(), 5);
    assert_eq!(record.u, s(0.1));
    assert_eq!(record.v, s(0.2));
}

#[test]
fn closer_takes_the_right_answer_on_equal_parameters() {
    let a = HitRecord::new(p(0.0, 0.0, 0.0), v(0.0, 1.0, 0.0), s(2.0), 1, s(0.0), s(0.0));
    let b = HitRecord::new(p(0.0, 0.0, 0.0), v(0.0, 1.0, 0.0), s(3.0), 2, s(0.0), s(0.0));
    let c = HitRecord::new(p(0.0, 0.0, 0.0), v(0.0, 1.0, 0.0), s(2.0), 3, s(0.0), s(0.0));
    assert_eq!(HitRecord::closer(Some(a), Some(b)), Some(a));
    assert_eq!(HitRecord::closer(Some(b), Some(a)), Some(a));
    assert_eq!(HitRecord::closer(Some(a), Some(c)), Some(c));
    assert_eq!(HitRecord::closer(Some(c), Some(a)), Some(a));
    assert_eq!(HitRecord::closer(Some(a), None), Some(a));
    assert_eq!(HitRecord::closer(None, Some(b)), Some(b));
    assert_eq!(HitRecord::closer(None, None), None);
}

#[test]
fn list_keeps_the_closest_hit() {
    let mut list = HittableList::new();
    assert_eq!(*list.bounding_box(), BoundingBox::empty());
    let ts = [5.0, 3.0, 4.0, 3.0];
    for k in 0..4 {
        list.add(BoundingBox::span(p(k as f64, 0.0, 0.0), p(k as f64 + 1.0, 1.0, 1.0)));
    }
    assert_eq!(list.hittables.len(), 4);
    assert_eq!(list.bounding_box().lower, p(0.0, 0.0, 0.0));
    assert_eq!(list.bounding_box().upper, p(4.0, 1.0, 1.0));
    let strike = |i: usize, lo: Scalar, hi: Scalar| {
        let t = s(ts[i]);
        if lo.lt(t) && t.lt(hi) {
            Some(HitRecord::new(p(0.0, 0.0, 0.0), v(0.0, 1.0, 0.0), t, i, s(0.0), s(0.0)))
        } else {
            None
        }
    };
    let hit = list.hit(&strike, s(0.0), s(100.0)).unwrap();
    assert_eq!(hit.t, s(3.0));
    assert_eq!(hit.material_ref(), 1);
    assert_eq!(list.hit(&strike, s(0.0), s(3.0)), None);
    assert_eq!(list.hit(&strike, s(3.5), s(100.0)).unwrap().material_ref(), 2);
    assert_eq!(HittableList::new().hit(&strike, s(0.0), s(100.0)), None);
}

#[test]
fn cube_has_six_sides_between_its_corners() {
    let edges = CubeEdges { dx: v(2.0, 0.0, 0.0), dy: v(0.0, 3.0, 0.0), dz: v(0.0, 0.0, 4.0) };
    let cube = Cube::new(p(2.0, 3.0, 0.0), p(0.0, 0.0, 4.0), 9, &measure, &frame, &length, &widen);
    assert_eq!(cube.sides.len(), 6);
    let expected = [
        (p(0.0, 0.0, 4.0), v(2.0, 0.0, 0.0), v(0.0, 3.0, 0.0)),
        (p(2.0, 0.0, 4.0), v(0.0, 0.0, -4.0), v(0.0, 3.0, 0.0)),
        (p(2.0, 0.0, 0.0), v(-2.0, 0.0, 0.0), v(0.0, 3.0, 0.0)),
        (p(0.0, 0.0, 0.0), v(0.0, 0.0, 4.0), v(0.0, 3.0, 0.0)),
        (p(0.0, 3.0, 4.0), v(2.0, 0.0, 0.0), v(0.0, 0.0, -4.0)),
        (p(0.0, 0.0, 0.0), v(2.0, 0.0, 0.0), v(0.0, 0.0, 4.0)),
    ];
    for k in 0..6 {
        assert_eq!((cube.sides[k].q, cube.sides[k].u, cube.sides[k].v), expected[k]);
        assert_eq!(cube.sides[k].mat, 9);
        assert_eq!(Cube::side(p(0.0, 0.0, 0.0), p(2.0, 3.0, 4.0), &edges, k), expected[k]);
    }
    assert_eq!(cube.bounding_box().lower, p(-0.00005, -0.00005, -0.00005));
    assert_eq!(cube.bounding_box().upper, p(2.00005, 3.00005, 4.00005));
}

#[test]
fn cube_hit_is_the_nearest_side() {
    let cube = Cube::new(p(0.0, 0.0, 0.0), p(2.0, 3.0, 4.0), 9, &measure, &frame, &length, &widen);
    let (origin, direction) = ([1.0, 1.0, 10.0], [0.0, 0.0, -1.0]);
    let crossing = |quad: &Quad| meet(quad, origin, direction);
    let hit = cube.hit(&crossing, s(0.001), s(f64::INFINITY)).unwrap();
    assert_eq!(hit.t, s(6.0));
    assert_eq!(hit.hit_pos(), p(1.0, 1.0, 4.0));
    assert_eq!(hit.normal(), v(0.0, 0.0, 1.0));
    assert!(hit.front_face());
    let inside = cube.hit(&crossing, s(7.0), s(f64::INFINITY)).unwrap();
    assert_eq!(inside.t, s(10.0));
    assert_eq!(inside.hit_pos(), p(1.0, 1.0, 0.0));
    let (origin, direction) = ([5.0, 1.0, 10.0], [0.0, 0.0, -1.0]);
    let beside = |quad: &Quad| meet(quad, origin, direction);
    assert_eq!(cube.hit(&beside, s(0.001), s(f64::INFINITY)), None);
}

#[test]
fn translate_moves_the_point_and_keeps_the_rest() {
    let offset = [10.0, 0.0, -2.0];
    let shift = |q: Point3| Point3 { data: vec(add(arr(q.data), offset)) };
    let inner = BoundingBox::span(p(0.0, 0.0, 0.0), p(1.0, 1.0, 1.0));
    let moved = Translate::new(vec(offset), &inner, &shift);
    assert_eq!(moved.offset, v(10.0, 0.0, -2.0));
    assert_eq!(moved.bounding_box().lower, p(10.0, 0.0, -2.0));
    assert_eq!(moved.bounding_box().upper, p(11.0, 1.0, -1.0));
    let mut hit = HitRecord::new(p(0.25, 0.5, 1.0), v(0.0, 0.0, 1.0), s(3.0), 4, s(0.25), s(0.5));
    hit.set_face_normal(s(-1.0), v(0.0, 0.0, 1.0));
    let out = moved.hit(Some(hit), &shift).unwrap();
    assert_eq!(out.hit_pos(), p(10.25, 0.5, -1.0));
    assert_eq!(vec(sub(arr(out.hit_pos().data), offset)), hit.hit_pos().data);
    assert_eq!(out.normal(), hit.normal());
    assert_eq!(out.t, hit.t);
    assert_eq!(out.front_face(), hit.front_face());
    assert_eq!(out.material_ref(), 4);
    assert_eq!((out.u, out.v), (hit.u, hit.v));
    assert_eq!(moved.hit(None, &shift), None);
}

#[test]
fn rotate_by_nothing_changes_nothing() {
    let (sin, cos) = (0.0f64.to_radians().sin(), 0.0f64.to_radians().cos());
    let turn_point =
        |q: Point3| p(cos * f(q.data.x) + sin * f(q.data.z), f(q.data.y), -sin * f(q.data.x) + cos * f(q.data.z));
    let turn = |a: Vec3| v(cos * f(a.x) + sin * f(a.z), f(a.y), -sin * f(a.x) + cos * f(a.z));
    let inner = BoundingBox::span(p(0.0, 0.0, 0.0), p(1.0, 2.0, 3.0));
    let same = RotateY::new(s(sin), s(cos), &inner, &turn_point);
    assert_eq!(*same.bounding_box(), inner);
    let mut hit = HitRecord::new(p(0.25, 0.5, 1.0), v(0.0, 0.0, 1.0), s(3.0), 4, s(0.25), s(0.5));
    hit.set_face_normal(s(-1.0), v(0.0, 0.0, 1.0));
    assert_eq!(same.hit(Some(hit), &turn), Some(hit));
    assert_eq!(same.hit(None, &turn), None);
}

#[test]
fn rotate_by_a_quarter_turns_point_and_normal() {
    let (sin, cos) = (1.0, 0.0);
    let turn_point =
        |q: Point3| p(cos * f(q.data.x) + sin * f(q.data.z), f(q.data.y), -sin * f(q.data.x) + cos * f(q.data.z));
    let turn = |a: Vec3| v(cos * f(a.x) + sin * f(a.z), f(a.y), -sin * f(a.x) + cos * f(a.z));
    let inner = BoundingBox::span(p(0.0, 0.0, 0.0), p(1.0, 2.0, 3.0));
    let turned = RotateY::new(s(sin), s(cos), &inner, &turn_point);
    assert_eq!(turned.bounds.lower, p(0.0, 0.0, -1.0));
    assert_eq!(turned.bounds.upper, p(3.0, 2.0, 0.0));
    let hit = HitRecord::new(p(0.25, 0.5, 1.0), v(0.0, 0.0, 1.0), s(3.0), 4, s(0.25), s(0.5));
    let out = turned.hit(Some(hit), &turn).unwrap();
    assert_eq!(out.hit_pos(), p(1.0, 0.5, -0.25));
    assert_eq!(out.normal(), v(1.0, 0.0, 0.0));
    assert_eq!(out.t, s(3.0));
    assert_eq!(out.material_ref(), 4);
}

#[test]
fn ray_keeps_what_it_is_given() {
    let ray = Ray::new(p(1.0, 2.0, 3.0), v(0.0, -1.0, 0.5), s(0.25));
    assert_eq!(ray.origin(), p(1.0, 2.0, 3.0));
    assert_eq!(ray.direction(), v(0.0, -1.0, 0.5));
    assert_eq!(ray.time(), s(0.25));
}
