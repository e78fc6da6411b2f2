use raytracer::aabb::{Slab, AABB};
use raytracer::bvh::BVHNode;
use raytracer::color::{ray_color, Bounce, Path};
use raytracer::hittable::{Answer, HitRecord, Hittable, HittableList, Query, Roots, Sphere};
use raytracer::material::{Lambertian, Material, Shading};
use raytracer::render::{column_range, Picture, ThreadTemp};
use raytracer::rng::Rng;
use raytracer::scalar::Scalar;
use raytracer::texture::Texture;
use raytracer::vec3::Vec3;

const SCENE_WIDTH: u32 = 8;
const SCENE_HEIGHT: u32 = 4;

type V = [f64; 3];

fn scn_s(x: f64) -> Scalar {
    Scalar::from_bits(x.to_bits())
}

fn scn_f(x: Scalar) -> f64 {
    f64::from_bits(x.to_bits())
}

fn scn_to(v: V) -> Vec3 {
    Vec3::new(scn_s(v[0]), scn_s(v[1]), scn_s(v[2]))
}

fn scn_from(v: Vec3) -> V {
    [scn_f(v.x), scn_f(v.y), scn_f(v.z)]
}

fn scn_add(a: V, b: V) -> V {
    [a[0] + b[0], a[1] + b[1], a[2] + b[2]]
}

fn scn_sub(a: V, b: V) -> V {
    [a[0] - b[0], a[1] - b[1], a[2] - b[2]]
}

fn scn_scale(a: V, k: f64) -> V {
    [a[0] * k, a[1] * k, a[2] * k]
}

fn scn_dot(a: V, b: V) -> f64 {
    a[0] * b[0] + a[1] * b[1] + a[2] * b[2]
}

fn scn_uniform(rng: &mut Rng) -> f64 {
    (rng.next_u64() >> 11) as f64 / (1u64 << 53) as f64
}

fn scn_unit_vector(rng: &mut Rng) -> V {
    loop {
        let p = [
            2.0 * scn_uniform(rng) - 1.0,
            2.0 * scn_uniform(rng) - 1.0,
            2.0 * scn_uniform(rng) - 1.0,
        ];
        let len2 = scn_dot(p, p);
        if len2 < 1.0 && len2 > 1e-12 {
            return scn_scale(p, 1.0 / len2.sqrt());
        }
    }
}

struct Scene {
    spheres: Vec<Sphere>,
    materials: Vec<Material>,
    list: HittableList,
    root: BVHNode,
}

fn scn_build(seed: u64) -> Scene {
    let spheres = vec![
        Sphere::new(scn_to([0.0, 0.0, -1.0]), scn_s(0.5), 0),
        Sphere::new(scn_to([0.0, -100.5, -1.0]), scn_s(100.0), 1),
    ];
    let materials = vec![
        Material::Lambertian(Lambertian::new(scn_to([0.7, 0.3, 0.3]))),
        Material::Lambertian(Lambertian::new(scn_to([0.8, 0.8, 0.0]))),
    ];
    let mut list = HittableList::new();
    for (id, s) in spheres.iter().enumerate() {
        let c = scn_from(s.center);
        let r = scn_f(s.radius);
        let bounds = AABB::new(&scn_to(scn_sub(c, [r, r, r])), &scn_to(scn_add(c, [r, r, r])));
        list.add(Hittable::new(id, Some(bounds), Some(bounds)));
    }
    let mut ordered = HittableList::new();
    for h in list.objects.iter() {
        ordered.add(*h);
    }
    let mut rng = Rng::new(seed);
    let root = BVHNode::new(&mut ordered, &mut rng);
    Scene { spheres, materials, list, root }
}

fn scn_sphere_hit(s: &Sphere, o: V, d: V, t_min: Scalar, t_max: Scalar) -> Option<HitRecord> {
    let center = scn_from(s.center);
    let radius = scn_f(s.radius);
    let oc = scn_sub(o, center);
    let a = scn_dot(d, d);
    let half_b = scn_dot(oc, d);
    let c = scn_dot(oc, oc) - radius * radius;
    let discriminant = half_b * half_b - a * c;
    let root = discriminant.sqrt();
    let roots = Roots {
        discriminant: scn_s(discriminant),
        near: scn_s((-half_b - root) / a),
        far: scn_s((-half_b + root) / a),
    };
    let t = s.hit(&roots, t_min, t_max)?;
    let p = scn_add(o, scn_scale(d, scn_f(t)));
    let outward = scn_scale(scn_sub(p, center), 1.0 / radius);
    Some(s.record(t, scn_to(p), &scn_to(outward), scn_s(scn_dot(d, outward)), scn_s(0.0), scn_s(0.0)))
}

fn scn_slabs(b: &AABB, o: V, d: V) -> [Slab; 3] {
    let mut out = [Slab { inv_d: scn_s(0.0), t0: scn_s(0.0), t1: scn_s(0.0) }; 3];
    for a in 0..3 {
        let inv_d = 1.0 / d[a];
        out[a] = Slab {
            inv_d: scn_s(inv_d),
            t0: scn_s((scn_f(b._min.get(a)) - o[a]) * inv_d),
            t1: scn_s((scn_f(b._max.get(a)) - o[a]) * inv_d),
        };
    }
    out
}

fn scn_hit(scene: &Scene, o: V, d: V, use_tree: bool) -> Option<HitRecord> {
    let t_min = scn_s(0.0001);
    let t_max = scn_s(f64::INFINITY);
    if use_tree {
        let mut traversal = scene.root.hit(t_min, t_max);
        loop {
            match traversal.query() {
                Query::Object { object, limit } => {
                    let rec = scn_sphere_hit(&scene.spheres[object.id], o, d, t_min, limit);
                    traversal.answer(Answer::Object { rec });
                }
                Query::Bounds { bounds } => {
                    traversal.answer(Answer::Bounds { slabs: scn_slabs(&bounds, o, d) })
                }
                Query::Done { rec } => return rec,
            }
        }
    } else {
        let mut scan = scene.list.hit(t_max);
        loop {
            match scan.query(&scene.list) {
                Query::Object { object, limit } => {
                    let rec = scn_sphere_hit(&scene.spheres[object.id], o, d, t_min, limit);
                    scan.answer(&scene.list, rec);
                }
                Query::Done { rec } => return rec,
                Query::Bounds { .. } => unreachable!(),
            }
        }
    }
}

fn scn_texture(t: &Texture) -> Vec3 {
    match t {
        Texture::Solid(s) => s.color_value,
        _ => unreachable!(),
    }
}

fn scn_trace(scene: &Scene, mut o: V, mut d: V, background: V, depth: i32, rng: &mut Rng, use_tree: bool) -> V {
    let mut path: Path = ray_color(&scn_to(background), depth);
    while !path.is_done() {
        match scn_hit(scene, o, d, use_tree) {
            None => path.record(Bounce::Miss),
            Some(rec) => {
                let material = &scene.materials[rec.mat_ptr];
                let albedo = match material {
                    Material::Lambertian(m) => scn_texture(&m.albedo),
                    _ => unreachable!(),
                };
                let direction = scn_add(scn_from(rec.normal), scn_unit_vector(rng));
                let shading = Shading { texture: albedo, facing: scn_s(scn_dot(direction, scn_from(rec.normal))) };
                path.record(material.scatter(&shading));
                o = scn_from(rec.p);
                d = direction;
            }
        }
    }
    let mut c = scn_from(path.base());
    for layer in path.layers.iter().rev() {
        let e = scn_from(layer.emitted);
        let a = scn_from(layer.attenuation);
        c = [e[0] + a[0] * c[0], e[1] + a[1] * c[1], e[2] + a[2] * c[2]];
    }
    c
}

fn scn_render(seed: u64, samples: u32, use_tree: bool) -> Vec<V> {
    let scene = scn_build(seed);
    let mut rng = Rng::new(seed.wrapping_mul(0x9e37_79b9).wrapping_add(1));
    let background = [0.7, 0.8, 1.0];
    let aspect = SCENE_WIDTH as f64 / SCENE_HEIGHT as f64;
    let horizontal = [2.0 * aspect, 0.0, 0.0];
    let vertical = [0.0, 2.0, 0.0];
    let lower_left = [-aspect, -1.0, -1.0];
    let mut image = Vec::new();
    for y in 0..SCENE_HEIGHT {
        for x in 0..SCENE_WIDTH {
            let mut sum = [0.0, 0.0, 0.0];
            for _ in 0..samples {
                let u = (x as f64 + scn_uniform(&mut rng)) / SCENE_WIDTH as f64;
                let v = ((SCENE_HEIGHT - 1 - y) as f64 + scn_uniform(&mut rng)) / SCENE_HEIGHT as f64;
                let d = scn_add(lower_left, scn_add(scn_scale(horizontal, u), scn_scale(vertical, v)));
                sum = scn_add(sum, scn_trace(&scene, [0.0, 0.0, 0.0], d, background, 50, &mut rng, use_tree));
            }
            image.push(scn_scale(sum, 1.0 / samples as f64));
        }
    }
    image
}

fn scn_average(seeds: std::ops::Range<u64>, samples: u32) -> Vec<V> {
    let mut total = vec![[0.0; 3]; (SCENE_WIDTH * SCENE_HEIGHT) as usize];
    let count = (seeds.end - seeds.start) as f64;
    for seed in seeds {
        let image = scn_render(seed, samples, true);
        for (t, p) in total.iter_mut().zip(image.iter()) {
            *t = scn_add(*t, *p);
        }
    }
    total.iter().map(|t| scn_scale(*t, 1.0 / count)).collect()
}

fn scn_quantize(c: V) -> [u8; 3] {
    let mut out = [0u8; 3];
    for k in 0..3 {
        let gamma = c[k].sqrt();
        let clamped = scn_s(gamma).clamp(scn_s(0.0), scn_s(0.999));
        out[k] = (scn_f(clamped) * 255.0) as u8;
    }
    out
}

#[test]
fn two_spheres_render_the_same_for_the_same_seed() {
    let a = scn_render(7, 4, true);
    let b = scn_render(7, 4, true);
    assert_eq!(a, b);
    let c = scn_render(8, 4, true);
    assert_ne!(a, c);
}

#[test]
fn two_spheres_render_the_same_with_and_without_the_hierarchy() {
    for seed in 1..6 {
        assert_eq!(scn_render(seed, 4, true), scn_render(seed, 4, false));
    }
}

#[test]
fn two_spheres_converge_to_one_image() {
    let reference = scn_average(1000..1300, 8);
    let sample = scn_average(1..151, 8);
    for (r, s) in reference.iter().zip(sample.iter()) {
        for k in 0..3 {
            assert!((r[k] - s[k]).abs() < 0.03, "{:?} against {:?}", r, s);
        }
    }
    let top_left = reference[0];
    assert!((top_left[0] - 0.7).abs() < 1e-12 && (top_left[1] - 0.8).abs() < 1e-12 && (top_left[2] - 1.0).abs() < 1e-12);
    let ground = reference[((SCENE_HEIGHT - 1) * SCENE_WIDTH) as usize];
    assert!(ground[2] < 0.2 && ground[0] > 0.2 && ground[1] > 0.2);
    let centre = reference[(2 * SCENE_WIDTH + SCENE_WIDTH / 2) as usize];
    assert!(centre[0] > centre[1] && centre[0] > centre[2]);
}

#[test]
fn a_rendered_image_is_assembled_from_columns() {
    let image = scn_render(3, 2, true);
    let mut picture = Picture::new(SCENE_WIDTH, SCENE_HEIGHT).unwrap();
    let workers = 3;
    let mut stored = 0;
    for i in (0..workers).rev() {
        let (start, end) = column_range(i, SCENE_WIDTH, workers);
        for x in start..end {
            let mut column = ThreadTemp { x, color: Vec::new() };
            for y in 0..SCENE_HEIGHT {
                column.color.push(scn_quantize(image[(y * SCENE_WIDTH + x) as usize]));
            }
            assert!(picture.store_column(&column));
            stored += 1;
        }
    }
    assert_eq!(stored, SCENE_WIDTH);
    for y in 0..SCENE_HEIGHT {
        for x in 0..SCENE_WIDTH {
            assert_eq!(picture.get_pixel(x, y), Some(scn_quantize(image[(y * SCENE_WIDTH + x) as usize])));
        }
    }
    assert_eq!(picture.get_pixel(0, 0), Some([213, 228, 254]));
    let raw = picture.into_raw();
    let decoded = image::RgbImage::from_raw(SCENE_WIDTH, SCENE_HEIGHT, raw).unwrap();
    assert_eq!(decoded.get_pixel(0, 0).0, [213, 228, 254]);
}
