use raytracer::color::{ray_color, Bounce};
use raytracer::scalar::Scalar;
use raytracer::vec3::{Color, Vec3};

fn col_s(x: f64) -> Scalar {
    Scalar::from_bits(x.to_bits())
}

fn col_f(x: Scalar) -> f64 {
    f64::from_bits(x.to_bits())
}

fn col_c(r: f64, g: f64, b: f64) -> Color {
    Vec3::new(col_s(r), col_s(g), col_s(b))
}

fn col_eval(path: &raytracer::color::Path) -> [f64; 3] {
    let base = path.base();
    let mut c = [col_f(base.x), col_f(base.y), col_f(base.z)];
    for layer in path.layers.iter().rev() {
        c = [
            col_f(layer.emitted.x) + col_f(layer.attenuation.x) * c[0],
            col_f(layer.emitted.y) + col_f(layer.attenuation.y) * c[1],
            col_f(layer.emitted.z) + col_f(layer.attenuation.z) * c[2],
        ];
    }
    c
}

fn col_recursive(bounces: &[Bounce], background: [f64; 3], depth: i32) -> [f64; 3] {
    if depth <= 0 {
        return [0.0, 0.0, 0.0];
    }
    match bounces[0] {
        Bounce::Miss => background,
        Bounce::Absorbed { emitted } => [col_f(emitted.x), col_f(emitted.y), col_f(emitted.z)],
        Bounce::Scattered { emitted, attenuation } => {
            let rest = col_recursive(&bounces[1..], background, depth - 1);
            [
                col_f(emitted.x) + col_f(attenuation.x) * rest[0],
                col_f(emitted.y) + col_f(attenuation.y) * rest[1],
                col_f(emitted.z) + col_f(attenuation.z) * rest[2],
            ]
        }
    }
}

fn col_follow(bounces: &[Bounce], background: [f64; 3], depth: i32) -> ([f64; 3], usize) {
    let mut path = ray_color(&col_c(background[0], background[1], background[2]), depth);
    let mut cast = 0;
    while !path.is_done() {
        path.record(bounces[cast]);
        cast += 1;
    }
    (col_eval(&path), cast)
}

#[test]
fn no_depth_gives_exactly_black() {
    for depth in [0, -1, i32::MIN] {
        let path = ray_color(&col_c(0.7, 0.8, 1.0), depth);
        assert!(path.is_done());
        assert_eq!(path.layers.len(), 0);
        assert_eq!(path.base(), col_c(0.0, 0.0, 0.0));
        assert_eq!(col_eval(&path), [0.0, 0.0, 0.0]);
    }
}

#[test]
fn an_empty_scene_gives_exactly_the_background() {
    let background = col_c(0.7, 0.8, 1.0);
    let mut path = ray_color(&background, 50);
    assert!(!path.is_done());
    path.record(Bounce::Miss);
    assert!(path.is_done());
    assert_eq!(path.layers.len(), 0);
    assert_eq!(path.base(), background);
    assert_eq!(col_eval(&path), [0.7, 0.8, 1.0]);
}

#[test]
fn a_surface_that_does_not_scatter_gives_what_it_emits() {
    let mut path = ray_color(&col_c(0.7, 0.8, 1.0), 50);
    path.record(Bounce::Absorbed { emitted: col_c(4.0, 3.0, 2.0) });
    assert!(path.is_done());
    assert_eq!(col_eval(&path), [4.0, 3.0, 2.0]);
}

#[test]
fn scattering_multiplies_what_comes_back_and_adds_what_is_emitted() {
    let bounces = [
        Bounce::Scattered { emitted: col_c(0.0, 0.0, 0.0), attenuation: col_c(0.5, 0.5, 0.5) },
        Bounce::Scattered { emitted: col_c(0.25, 0.0, 0.0), attenuation: col_c(0.5, 0.25, 1.0) },
        Bounce::Miss,
    ];
    let (colour, cast) = col_follow(&bounces, [0.8, 0.8, 0.8], 50);
    assert_eq!(cast, 3);
    assert_eq!(colour, [0.5 * (0.25 + 0.5 * 0.8), 0.5 * (0.25 * 0.8), 0.5 * 0.8]);
    assert_eq!(colour, col_recursive(&bounces, [0.8, 0.8, 0.8], 50));
}

#[test]
fn the_path_stops_when_the_depth_is_used_up() {
    let scatter = Bounce::Scattered { emitted: col_c(0.125, 0.125, 0.125), attenuation: col_c(0.5, 0.5, 0.5) };
    let bounces = [scatter; 10];
    let (colour, cast) = col_follow(&bounces, [1.0, 1.0, 1.0], 3);
    assert_eq!(cast, 3);
    let expected = 0.125 + 0.5 * (0.125 + 0.5 * (0.125 + 0.5 * 0.0));
    assert_eq!(colour, [expected, expected, expected]);
    assert_eq!(colour, col_recursive(&bounces, [1.0, 1.0, 1.0], 3));
}

#[test]
fn the_path_agrees_with_the_recursion() {
    let scatter = |e: f64, a: f64| Bounce::Scattered { emitted: col_c(e, e / 2.0, 0.0), attenuation: col_c(a, a * a, 1.0 - a) };
    let paths: Vec<Vec<Bounce>> = vec![
        vec![Bounce::Miss],
        vec![scatter(0.0, 0.3), Bounce::Absorbed { emitted: col_c(15.0, 15.0, 15.0) }],
        vec![scatter(0.1, 0.9), scatter(0.2, 0.8), scatter(0.3, 0.7), Bounce::Miss],
        vec![scatter(0.1, 0.9), scatter(0.2, 0.8), scatter(0.3, 0.7), scatter(0.4, 0.6), scatter(0.5, 0.5)],
    ];
    for bounces in paths.iter() {
        for depth in 0..7 {
            if depth as usize > bounces.len() && !matches!(bounces.last(), Some(Bounce::Miss) | Some(Bounce::Absorbed { .. })) {
                continue;
            }
            let (colour, _) = col_follow(bounces, [0.7, 0.8, 1.0], depth);
            assert_eq!(colour, col_recursive(bounces, [0.7, 0.8, 1.0], depth));
        }
    }
}

#[test]
fn a_finished_path_takes_no_more_bounces() {
    let mut path = ray_color(&col_c(0.7, 0.8, 1.0), 5);
    path.record(Bounce::Scattered { emitted: col_c(0.0, 0.0, 0.0), attenuation: col_c(0.5, 0.5, 0.5) });
    path.record(Bounce::Miss);
    assert!(path.is_done());
    path.record(Bounce::Scattered { emitted: col_c(9.0, 9.0, 9.0), attenuation: col_c(9.0, 9.0, 9.0) });
    path.record(Bounce::Absorbed { emitted: col_c(9.0, 9.0, 9.0) });
    assert_eq!(path.layers.len(), 1);
    assert_eq!(path.depth, 4);
    assert_eq!(col_eval(&path), [0.35, 0.4, 0.5]);
}

#[test]
fn a_ray_is_cast_from_just_above_its_origin_to_infinity() {
    let mut path = ray_color(&col_c(0.7, 0.8, 1.0), 2);
    let (t_min, t_max) = path.cast().unwrap();
    assert_eq!(col_f(t_min), 0.0001);
    assert_eq!(col_f(t_max), f64::INFINITY);
    path.record(Bounce::Scattered { emitted: col_c(0.0, 0.0, 0.0), attenuation: col_c(0.5, 0.5, 0.5) });
    assert!(path.cast().is_some());
    path.record(Bounce::Scattered { emitted: col_c(0.0, 0.0, 0.0), attenuation: col_c(0.5, 0.5, 0.5) });
    assert!(path.cast().is_none());
    assert!(ray_color(&col_c(0.7, 0.8, 1.0), 0).cast().is_none());
    let mut missed = ray_color(&col_c(0.7, 0.8, 1.0), 5);
    missed.record(Bounce::Miss);
    assert!(missed.cast().is_none());
}
