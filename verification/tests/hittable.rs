use raytracer::aabb::AABB;
use raytracer::hittable::{
    ConstantMedium, HitRecord, Hittable, HittableList, ListScan, MovingSphere, Nearest, Query,
    Roots, RotateY, Sphere, Translate,
};
use raytracer::scalar::Scalar;
use raytracer::vec3::Vec3;

fn hit_s(x: f64) -> Scalar {
    Scalar::from_bits(x.to_bits())
}

fn hit_f(x: Scalar) -> f64 {
    f64::from_bits(x.to_bits())
}

fn hit_v(x: f64, y: f64, z: f64) -> Vec3 {
    Vec3::new(hit_s(x), hit_s(y), hit_s(z))
}

fn hit_box(min: [f64; 3], max: [f64; 3]) -> AABB {
    AABB::new(&hit_v(min[0], min[1], min[2]), &hit_v(max[0], max[1], max[2]))
}

fn hit_roots(center: [f64; 3], radius: f64, o: [f64; 3], d: [f64; 3]) -> (Roots, f64) {
    let oc = [o[0] - center[0], o[1] - center[1], o[2] - center[2]];
    let a = d[0] * d[0] + d[1] * d[1] + d[2] * d[2];
    let half_b = oc[0] * d[0] + oc[1] * d[1] + oc[2] * d[2];
    let c = oc[0] * oc[0] + oc[1] * oc[1] + oc[2] * oc[2] - radius * radius;
    let discriminant = half_b * half_b - a * c;
    let root = discriminant.sqrt();
    (
        Roots {
            discriminant: hit_s(discriminant),
            near: hit_s((-half_b - root) / a),
            far: hit_s((-half_b + root) / a),
        },
        -half_b / a,
    )
}

fn hit_record_at(t: f64, mat: usize) -> HitRecord {
    let mut rec = HitRecord::new(mat);
    rec.t = hit_s(t);
    rec
}

#[test]
fn a_new_record_is_blank() {
    let rec = HitRecord::new(12);
    assert_eq!(rec.p, hit_v(0.0, 0.0, 0.0));
    assert_eq!(rec.normal, hit_v(0.0, 0.0, 0.0));
    assert_eq!(rec.mat_ptr, 12);
    assert_eq!(hit_f(rec.t), 0.0);
    assert_eq!(hit_f(rec.u), 0.0);
    assert_eq!(hit_f(rec.v), 0.0);
    assert!(!rec.front_face);
}

#[test]
fn the_normal_faces_the_incoming_ray() {
    let outward = hit_v(0.0, 0.0, 1.0);
    let mut rec = HitRecord::new(0);
    rec.set_face_normal(hit_s(-0.5), &outward);
    assert!(rec.front_face);
    assert_eq!(rec.normal, outward);
    rec.set_face_normal(hit_s(0.5), &outward);
    assert!(!rec.front_face);
    assert_eq!(rec.normal, hit_v(-0.0, -0.0, -1.0));
    rec.set_face_normal(hit_s(0.0), &outward);
    assert!(!rec.front_face);
    rec.set_face_normal(hit_s(f64::NAN), &outward);
    assert!(!rec.front_face);
    assert_eq!(rec.normal, hit_v(-0.0, -0.0, -1.0));
}

#[test]
fn a_ray_through_the_centre_has_two_roots_around_the_closest_approach() {
    let center = [0.5, -1.0, -4.0];
    let radius = 1.5;
    let o = [0.5, -1.0, 2.0];
    let d = [0.0, 0.0, -2.0];
    let (roots, closest) = hit_roots(center, radius, o, d);
    let sphere = Sphere::new(hit_v(center[0], center[1], center[2]), hit_s(radius), 1);
    let near = sphere.hit(&roots, hit_s(0.0001), hit_s(f64::INFINITY)).unwrap();
    let far = sphere.hit(&roots, near, hit_s(f64::INFINITY)).unwrap();
    assert_eq!(hit_f(near), 2.25);
    assert_eq!(hit_f(far), 3.75);
    assert_eq!((hit_f(near) + hit_f(far)) / 2.0, closest);
    assert_eq!(closest, 3.0);
    assert!(sphere.hit(&roots, far, hit_s(f64::INFINITY)).is_none());
}

#[test]
fn the_near_root_wins_and_the_far_root_is_the_fallback() {
    let roots = Roots { discriminant: hit_s(4.0), near: hit_s(1.0), far: hit_s(5.0) };
    assert_eq!(roots.select(hit_s(0.0), hit_s(10.0)), Some(hit_s(1.0)));
    assert_eq!(roots.select(hit_s(1.0), hit_s(10.0)), Some(hit_s(5.0)));
    assert_eq!(roots.select(hit_s(2.0), hit_s(5.0)), None);
    assert_eq!(roots.select(hit_s(0.0), hit_s(1.0)), None);
    assert_eq!(roots.select(hit_s(5.0), hit_s(10.0)), None);
    assert_eq!(roots.select(hit_s(-1.0), hit_s(0.5)), None);
}

#[test]
fn a_discriminant_that_is_not_positive_means_no_hit() {
    let grazing = Roots { discriminant: hit_s(0.0), near: hit_s(1.0), far: hit_s(1.0) };
    assert_eq!(grazing.select(hit_s(0.0), hit_s(10.0)), None);
    let missing = Roots { discriminant: hit_s(-3.0), near: hit_s(f64::NAN), far: hit_s(f64::NAN) };
    assert_eq!(missing.select(hit_s(0.0), hit_s(10.0)), None);
    let undefined = Roots { discriminant: hit_s(f64::NAN), near: hit_s(1.0), far: hit_s(2.0) };
    assert_eq!(undefined.select(hit_s(0.0), hit_s(10.0)), None);
}

#[test]
fn a_ray_that_misses_the_sphere() {
    let (roots, _) = hit_roots([0.0, 0.0, -1.0], 0.5, [0.0, 2.0, 0.0], [0.0, 0.0, -1.0]);
    let sphere = Sphere::new(hit_v(0.0, 0.0, -1.0), hit_s(0.5), 0);
    assert!(sphere.hit(&roots, hit_s(0.0001), hit_s(f64::INFINITY)).is_none());
}

#[test]
fn sphere_constructors_keep_their_arguments() {
    let s = Sphere::new(hit_v(1.0, 2.0, 3.0), hit_s(0.5), 7);
    assert_eq!(s.center, hit_v(1.0, 2.0, 3.0));
    assert_eq!(hit_f(s.radius), 0.5);
    assert_eq!(s.mat_ptr, 7);
    let m = MovingSphere::new(hit_v(0.0, 0.0, 0.0), hit_v(0.0, 1.0, 0.0), hit_s(0.0), hit_s(1.0), hit_s(0.2), 3);
    assert_eq!(m.center0, hit_v(0.0, 0.0, 0.0));
    assert_eq!(m.center1, hit_v(0.0, 1.0, 0.0));
    assert_eq!(hit_f(m.time0), 0.0);
    assert_eq!(hit_f(m.time1), 1.0);
    assert_eq!(hit_f(m.radius), 0.2);
    assert_eq!(m.mat_ptr, 3);
}

#[test]
fn a_moving_sphere_is_hit_like_a_sphere_and_bounded_by_its_sweep() {
    let m = MovingSphere::new(hit_v(0.0, 0.0, 0.0), hit_v(0.0, 1.0, 0.0), hit_s(0.0), hit_s(1.0), hit_s(0.5), 3);
    let (roots, _) = hit_roots([0.0, 0.5, 0.0], 0.5, [0.0, 0.5, 3.0], [0.0, 0.0, -1.0]);
    assert_eq!(m.hit(&roots, hit_s(0.0001), hit_s(f64::INFINITY)), Some(hit_s(2.5)));
    let box0 = hit_box([-0.5, -0.5, -0.5], [0.5, 0.5, 0.5]);
    let box1 = hit_box([-0.5, 0.5, -0.5], [0.5, 1.5, 0.5]);
    assert_eq!(m.bounding_box(&box0, &box1), Some(hit_box([-0.5, -0.5, -0.5], [0.5, 1.5, 0.5])));
}

#[test]
fn an_empty_list_has_no_box() {
    let list = HittableList::new();
    assert!(list.bounding_box().is_none());
    let list = HittableList::default();
    assert_eq!(list.objects.len(), 0);
}

#[test]
fn a_list_is_bounded_by_the_union_of_its_objects() {
    let mut list = HittableList::new();
    list.add(Hittable::new(0, None, Some(hit_box([0.0, 0.0, 0.0], [1.0, 1.0, 1.0]))));
    assert_eq!(list.bounding_box(), Some(hit_box([0.0, 0.0, 0.0], [1.0, 1.0, 1.0])));
    list.add(Hittable::new(1, None, Some(hit_box([-2.0, 0.5, 0.0], [0.0, 3.0, 0.5]))));
    list.add(Hittable::new(2, None, Some(hit_box([0.0, 0.0, -7.0], [0.5, 0.5, 9.0]))));
    assert_eq!(list.bounding_box(), Some(hit_box([-2.0, 0.0, -7.0], [1.0, 3.0, 9.0])));
    assert_eq!(list.objects[1].bounding_box(), Some(hit_box([-2.0, 0.5, 0.0], [0.0, 3.0, 0.5])));
}

#[test]
fn a_list_with_an_unbounded_object_has_no_box() {
    let mut list = HittableList::new();
    list.add(Hittable::new(0, None, Some(hit_box([0.0, 0.0, 0.0], [1.0, 1.0, 1.0]))));
    list.add(Hittable::new(1, None, None));
    list.add(Hittable::new(2, None, Some(hit_box([0.0, 0.0, -7.0], [0.5, 0.5, 9.0]))));
    assert!(list.bounding_box().is_none());
    let mut first = HittableList::new();
    first.add(Hittable::new(1, None, None));
    assert!(first.bounding_box().is_none());
}

#[test]
fn add_and_clear_change_the_list() {
    let mut list = HittableList::new();
    list.add(Hittable::new(5, None, None));
    list.add(Hittable::new(6, None, None));
    assert_eq!(list.objects.len(), 2);
    assert_eq!(list.objects[0].id, 5);
    assert_eq!(list.objects[1].id, 6);
    list.clear();
    assert_eq!(list.objects.len(), 0);
}

#[test]
fn the_scan_keeps_the_nearest_hit_not_the_first() {
    let mut list = HittableList::new();
    for id in 0..4 {
        list.add(Hittable::new(id, None, None));
    }
    let candidates = [Some(6.0), None, Some(2.5), Some(4.0)];
    let mut scan: ListScan = list.hit(hit_s(100.0));
    let mut limits = Vec::new();
    let result = loop {
        match scan.query(&list) {
            Query::Object { object, limit } => {
                limits.push(hit_f(limit));
                let rec = match candidates[object.id] {
                    Some(t) if t < hit_f(limit) => Some(hit_record_at(t, object.id)),
                    _ => None,
                };
                scan.answer(&list, rec);
            }
            Query::Done { rec } => break rec,
            Query::Bounds { .. } => unreachable!(),
        }
    };
    assert_eq!(limits, vec![100.0, 6.0, 6.0, 2.5]);
    let rec = result.unwrap();
    assert_eq!(rec.mat_ptr, 2);
    assert_eq!(hit_f(rec.t), 2.5);
    scan.answer(&list, Some(hit_record_at(1.0, 9)));
    assert!(matches!(scan.query(&list), Query::Done { rec: Some(r) } if r.mat_ptr == 2));
}

#[test]
fn the_scan_of_an_empty_list_finds_nothing() {
    let list = HittableList::new();
    let scan = list.hit(hit_s(f64::INFINITY));
    assert!(matches!(scan.query(&list), Query::Done { rec: None }));
}

#[test]
fn nearest_takes_every_offer_and_lowers_the_limit() {
    let mut nearest = Nearest::start(hit_s(10.0));
    assert_eq!(hit_f(nearest.limit), 10.0);
    assert!(nearest.rec.is_none());
    nearest.offer(None);
    assert_eq!(hit_f(nearest.limit), 10.0);
    nearest.offer(Some(hit_record_at(4.0, 1)));
    assert_eq!(hit_f(nearest.limit), 4.0);
    assert_eq!(nearest.rec.unwrap().mat_ptr, 1);
    nearest.offer(None);
    assert_eq!(hit_f(nearest.limit), 4.0);
    assert_eq!(nearest.rec.unwrap().mat_ptr, 1);
}

#[test]
fn translating_an_object_leaves_the_hit_parameter_alone() {
    let center = [1.0, 0.5, -3.0];
    let radius = 0.75;
    let offset = [2.0, -1.0, 0.5];
    let o = [3.1, -0.4, 4.0];
    let d = [0.0, 0.0, -1.0];
    let sphere = Sphere::new(hit_v(center[0], center[1], center[2]), hit_s(radius), 4);
    let translate = Translate::new(0, &hit_v(offset[0], offset[1], offset[2]));
    assert_eq!(translate.ptr, 0);
    assert_eq!(translate.offset, hit_v(2.0, -1.0, 0.5));
    let moved_o = [o[0] - offset[0], o[1] - offset[1], o[2] - offset[2]];
    let (roots, _) = hit_roots(center, radius, moved_o, d);
    let t = sphere.hit(&roots, hit_s(0.0001), hit_s(f64::INFINITY)).unwrap();
    let tf = hit_f(t);
    let p = [moved_o[0] + tf * d[0], moved_o[1] + tf * d[1], moved_o[2] + tf * d[2]];
    let n = [(p[0] - center[0]) / radius, (p[1] - center[1]) / radius, (p[2] - center[2]) / radius];
    let dot = d[0] * n[0] + d[1] * n[1] + d[2] * n[2];
    let inner = sphere.record(t, hit_v(p[0], p[1], p[2]), &hit_v(n[0], n[1], n[2]), hit_s(dot), hit_s(0.5), hit_s(0.25));
    let shifted = hit_v(p[0] + offset[0], p[1] + offset[1], p[2] + offset[2]);
    let outer = translate.hit(Some(inner), shifted).unwrap();
    assert_eq!(outer.t, inner.t);
    assert_eq!(outer.p, shifted);
    assert_eq!(outer.mat_ptr, 4);
    assert_eq!(outer.normal, inner.normal);
    assert_eq!(outer.u, inner.u);
    assert_eq!(outer.v, inner.v);
    assert!(outer.front_face);

    let direct = Sphere::new(
        hit_v(center[0] + offset[0], center[1] + offset[1], center[2] + offset[2]),
        hit_s(radius),
        4,
    );
    let (direct_roots, _) = hit_roots(
        [center[0] + offset[0], center[1] + offset[1], center[2] + offset[2]],
        radius,
        o,
        d,
    );
    let direct_t = direct.hit(&direct_roots, hit_s(0.0001), hit_s(f64::INFINITY)).unwrap();
    assert!((hit_f(direct_t) - hit_f(outer.t)).abs() < 1e-12);
    assert!(translate.hit(None, shifted).is_none());
}

#[test]
fn a_translation_keeps_the_face_of_a_hit_from_inside() {
    let sphere = Sphere::new(hit_v(0.0, 0.0, 0.0), hit_s(1.0), 2);
    let translate = Translate::new(0, &hit_v(1.0, 0.0, 0.0));
    let o = [1.0, 0.0, 0.0];
    let d = [0.0, 0.0, 1.0];
    let moved_o = [0.0, 0.0, 0.0];
    let (roots, _) = hit_roots([0.0, 0.0, 0.0], 1.0, moved_o, d);
    let t = sphere.hit(&roots, hit_s(0.001), hit_s(f64::INFINITY)).unwrap();
    assert_eq!(hit_f(t), 1.0);
    let p = [0.0, 0.0, 1.0];
    let outward = [0.0, 0.0, 1.0];
    let dot = d[0] * outward[0] + d[1] * outward[1] + d[2] * outward[2];
    let inner = sphere.record(t, hit_v(p[0], p[1], p[2]), &hit_v(0.0, 0.0, 1.0), hit_s(dot), hit_s(0.0), hit_s(0.0));
    assert!(!inner.front_face);
    assert_eq!(inner.normal, hit_v(-0.0, -0.0, -1.0));
    let out = translate.hit(Some(inner), hit_v(p[0] + o[0], p[1], p[2])).unwrap();
    assert_eq!(hit_f(out.t), 1.0);
    assert_eq!(out.p, hit_v(1.0, 0.0, 1.0));
    assert_eq!(hit_f(out.normal.x), 0.0);
    assert_eq!(hit_f(out.normal.y), 0.0);
    assert_eq!(hit_f(out.normal.z), -1.0);
    assert!(!out.front_face);
    assert_eq!(out.mat_ptr, 2);
}

#[test]
fn a_sphere_hit_from_outside_is_recorded_with_its_outward_normal() {
    let sphere = Sphere::new(hit_v(0.0, 0.0, -1.0), hit_s(0.5), 7);
    let o = [0.0, 0.0, 0.0];
    let d = [0.0, 0.0, -1.0];
    let (roots, closest) = hit_roots([0.0, 0.0, -1.0], 0.5, o, d);
    let t = sphere.hit(&roots, hit_s(0.001), hit_s(f64::INFINITY)).unwrap();
    assert_eq!(hit_f(t), 0.5);
    let rec = sphere.record(t, hit_v(0.0, 0.0, -0.5), &hit_v(0.0, 0.0, 1.0), hit_s(-1.0), hit_s(0.25), hit_s(0.5));
    assert_eq!(hit_f(rec.t), 0.5);
    assert_eq!(rec.p, hit_v(0.0, 0.0, -0.5));
    assert_eq!(rec.normal, hit_v(0.0, 0.0, 1.0));
    assert!(rec.front_face);
    assert_eq!(hit_f(rec.u), 0.25);
    assert_eq!(hit_f(rec.v), 0.5);
    assert_eq!(rec.mat_ptr, 7);
    let far = sphere.hit(&roots, hit_s(0.5), hit_s(f64::INFINITY)).unwrap();
    assert_eq!(hit_f(far), 1.5);
    assert_eq!((hit_f(t) + hit_f(far)) / 2.0, closest);
    let rec = sphere.record(far, hit_v(0.0, 0.0, -1.5), &hit_v(0.0, 0.0, -1.0), hit_s(1.0), hit_s(0.0), hit_s(0.0));
    assert_eq!(hit_f(rec.t), 1.5);
    assert!(!rec.front_face);
    assert_eq!(hit_f(rec.normal.z), 1.0);
    assert_eq!(rec.mat_ptr, 7);
}

#[test]
fn a_moving_sphere_records_its_own_material() {
    let m = MovingSphere::new(hit_v(0.0, 0.0, 0.0), hit_v(0.0, 1.0, 0.0), hit_s(0.0), hit_s(1.0), hit_s(0.5), 3);
    let rec = m.record(hit_s(2.5), hit_v(0.0, 0.5, 0.5), &hit_v(0.0, 0.0, 1.0), hit_s(-1.0), hit_s(0.125), hit_s(0.75));
    assert_eq!(hit_f(rec.t), 2.5);
    assert_eq!(rec.p, hit_v(0.0, 0.5, 0.5));
    assert_eq!(rec.normal, hit_v(0.0, 0.0, 1.0));
    assert!(rec.front_face);
    assert_eq!(rec.mat_ptr, 3);
    assert_eq!(hit_f(rec.u), 0.125);
    assert_eq!(hit_f(rec.v), 0.75);
    let behind = m.record(hit_s(2.5), hit_v(0.0, 0.5, 0.5), &hit_v(0.0, 0.0, 1.0), hit_s(0.0), hit_s(0.0), hit_s(0.0));
    assert!(!behind.front_face);
    assert_eq!(behind.normal, hit_v(-0.0, -0.0, -1.0));
}

#[test]
fn a_rotation_is_bounded_by_its_turned_corners() {
    let (sin, cos) = (30.0f64.to_radians().sin(), 30.0f64.to_radians().cos());
    let min = [0.0, 0.0, 0.0];
    let max = [2.0, 3.0, 1.0];
    let mut corners = [Vec3::zero(); 8];
    let mut lo = [f64::INFINITY; 3];
    let mut hi = [f64::NEG_INFINITY; 3];
    let mut n = 0;
    for i in 0..2 {
        for j in 0..2 {
            for k in 0..2 {
                let x = i as f64 * max[0] + (1 - i) as f64 * min[0];
                let y = j as f64 * max[1] + (1 - j) as f64 * min[1];
                let z = k as f64 * max[2] + (1 - k) as f64 * min[2];
                let t = [cos * x + sin * z, y, -sin * x + cos * z];
                corners[n] = hit_v(t[0], t[1], t[2]);
                n += 1;
                for c in 0..3 {
                    lo[c] = lo[c].min(t[c]);
                    hi[c] = hi[c].max(t[c]);
                }
            }
        }
    }
    let rotate = RotateY::new(6, hit_s(sin), hit_s(cos), true, &corners);
    assert_eq!(rotate.ptr, 6);
    assert_eq!(hit_f(rotate.sin_theta), sin);
    assert_eq!(hit_f(rotate.cos_theta), cos);
    assert_eq!(rotate.bbox, hit_box(lo, hi));
    assert_eq!(rotate.bounding_box(), Some(hit_box(lo, hi)));
    assert_eq!(hit_f(rotate.bbox._min.y), 0.0);
    assert_eq!(hit_f(rotate.bbox._max.y), 3.0);
    let unbounded = RotateY::new(6, hit_s(sin), hit_s(cos), false, &corners);
    assert!(unbounded.bounding_box().is_none());
}

#[test]
fn a_rotated_hit_keeps_its_parameter_and_takes_the_turned_frame() {
    let corners = [Vec3::zero(); 8];
    let rotate = RotateY::new(1, hit_s(0.0), hit_s(1.0), true, &corners);
    let mut inner = HitRecord::new(8);
    inner.t = hit_s(2.0);
    inner.p = hit_v(1.0, 1.0, 1.0);
    inner.normal = hit_v(1.0, 0.0, 0.0);
    inner.u = hit_s(0.5);
    let out = rotate.hit(Some(inner), hit_v(0.0, 1.0, 2.0), &hit_v(0.0, 0.0, 1.0)).unwrap();
    assert_eq!(hit_f(out.t), 2.0);
    assert_eq!(out.p, hit_v(0.0, 1.0, 2.0));
    assert_eq!(out.normal, hit_v(0.0, 0.0, 1.0));
    assert!(!out.front_face);
    assert_eq!(out.mat_ptr, 8);
    assert_eq!(hit_f(out.u), 0.5);
    inner.front_face = true;
    let front = rotate.hit(Some(inner), hit_v(0.0, 1.0, 2.0), &hit_v(0.0, 0.0, 1.0)).unwrap();
    assert_eq!(front.normal, hit_v(0.0, 0.0, 1.0));
    assert!(front.front_face);
    assert!(rotate.hit(None, hit_v(0.0, 1.0, 2.0), &hit_v(0.0, 0.0, 1.0)).is_none());
}

#[test]
fn a_medium_keeps_the_part_of_the_ray_inside_the_bounds() {
    let m = ConstantMedium::new(3, 4, hit_s(-100.0));
    assert_eq!(m.boundary, 3);
    assert_eq!(m.phase_function, 4);
    assert_eq!(hit_f(m.neg_inv_density), -100.0);
    let span = |a: f64, b: f64, lo: f64, hi: f64| {
        m.span(hit_s(a), hit_s(b), hit_s(lo), hit_s(hi)).map(|(x, y)| (hit_f(x), hit_f(y)))
    };
    assert_eq!(span(2.0, 5.0, 0.001, f64::INFINITY), Some((2.0, 5.0)));
    assert_eq!(span(-3.0, 5.0, 0.001, f64::INFINITY), Some((0.001, 5.0)));
    assert_eq!(span(2.0, 5.0, 0.001, 4.0), Some((2.0, 4.0)));
    assert_eq!(span(2.0, 5.0, 0.001, 2.0), None);
    assert_eq!(span(2.0, 5.0, 6.0, 9.0), None);
    assert_eq!(span(-5.0, -2.0, -10.0, 10.0), Some((0.0, -2.0)));
    assert_eq!(span(-5.0, 2.0, -10.0, 10.0), Some((0.0, 2.0)));
    assert_eq!(span(3.0, 3.0, 0.0, 10.0), None);
    assert_eq!(span(f64::NAN, 5.0, 0.0, 10.0), None);
    assert_eq!(span(2.0, f64::NAN, 0.0, 10.0), None);
}

#[test]
fn a_medium_scatters_a_ray_that_does_not_get_through() {
    let m = ConstantMedium::new(3, 4, hit_s(-100.0));
    let mut before = HitRecord::new(9);
    before.u = hit_s(0.5);
    before.v = hit_s(0.25);
    assert!(m.hit(&before, hit_s(7.0), hit_s(6.0), hit_s(1.0), hit_v(1.0, 2.0, 3.0)).is_none());
    let rec = m.hit(&before, hit_s(6.0), hit_s(6.0), hit_s(1.5), hit_v(1.0, 2.0, 3.0)).unwrap();
    assert_eq!(hit_f(rec.t), 1.5);
    assert_eq!(rec.p, hit_v(1.0, 2.0, 3.0));
    assert_eq!(rec.normal, hit_v(1.0, 0.0, 0.0));
    assert!(rec.front_face);
    assert_eq!(rec.mat_ptr, 4);
    assert_eq!(hit_f(rec.u), 0.5);
    assert_eq!(hit_f(rec.v), 0.25);
    let rec = m.hit(&before, hit_s(2.0), hit_s(6.0), hit_s(1.5), hit_v(1.0, 2.0, 3.0));
    assert!(rec.is_some());
    assert!(m.hit(&before, hit_s(f64::NAN), hit_s(6.0), hit_s(1.5), hit_v(1.0, 2.0, 3.0)).is_none());
    assert!(m.hit(&before, hit_s(2.0), hit_s(f64::NAN), hit_s(1.5), hit_v(1.0, 2.0, 3.0)).is_none());
}
