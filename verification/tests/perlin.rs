use raytracer::perlin::{Perlin, POINT_COUNT};
use raytracer::rng::Rng;
use raytracer::scalar::Scalar;
use raytracer::vec3::Vec3;

fn per_gradients() -> [Vec3; 256] {
    let mut gradients = [Vec3::zero(); 256];
    for (i, g) in gradients.iter_mut().enumerate() {
        let tag = Scalar::from_bits((i as f64).to_bits());
        *g = Vec3::new(tag, tag, tag);
    }
    gradients
}

fn per_index(v: Vec3) -> usize {
    f64::from_bits(v.x.to_bits()) as usize
}

fn per_tables(seed: u64) -> ([i32; 256], [i32; 256], [i32; 256]) {
    let mut rng = Rng::new(seed);
    let x = Perlin::perlin_generate_perm(&mut rng);
    let y = Perlin::perlin_generate_perm(&mut rng);
    let z = Perlin::perlin_generate_perm(&mut rng);
    (x, y, z)
}

#[test]
fn a_generated_table_holds_every_index_once() {
    for seed in 1..20u64 {
        let mut rng = Rng::new(seed);
        let table = Perlin::perlin_generate_perm(&mut rng);
        let mut seen = [false; 256];
        for &v in table.iter() {
            assert!(v >= 0 && (v as usize) < POINT_COUNT);
            assert!(!seen[v as usize]);
            seen[v as usize] = true;
        }
        assert!(seen.iter().all(|&s| s));
    }
}

#[test]
fn tables_depend_on_the_seed_alone() {
    let mut a = Rng::new(5);
    let mut b = Rng::new(5);
    assert_eq!(Perlin::perlin_generate_perm(&mut a), Perlin::perlin_generate_perm(&mut b));
    assert_eq!(a.state, b.state);
    let mut c = Rng::new(6);
    assert_ne!(Perlin::perlin_generate_perm(&mut a), Perlin::perlin_generate_perm(&mut c));
}

#[test]
fn permute_follows_the_draws_from_the_top_down() {
    let mut table = [0i32; 256];
    for (i, v) in table.iter_mut().enumerate() {
        *v = i as i32;
    }
    let mut expected = table;
    let mut draws = Rng::new(77);
    for i in (1..6usize).rev() {
        let target = draws.random_int(0, i as i32) as usize;
        expected.swap(i, target);
    }
    let mut rng = Rng::new(77);
    Perlin::permute(&mut table, 6, &mut rng);
    assert_eq!(table, expected);
    assert_eq!(rng.state, draws.state);
    for i in 6..256 {
        assert_eq!(table[i], i as i32);
    }
}

#[test]
fn permute_of_nothing_draws_nothing() {
    let mut table = [3i32; 256];
    let mut rng = Rng::new(8);
    Perlin::permute(&mut table, 1, &mut rng);
    assert_eq!(rng.state, 8);
    Perlin::permute(&mut table, 0, &mut rng);
    assert_eq!(rng.state, 8);
    Perlin::permute(&mut table, -4, &mut rng);
    assert_eq!(rng.state, 8);
    assert_eq!(table, [3i32; 256]);
}

#[test]
fn the_gradient_of_a_lattice_point_is_found_through_the_three_tables() {
    let seed = 123;
    let (x, y, z) = per_tables(seed);
    let mut rng = Rng::new(seed);
    let noise = Perlin::new(per_gradients(), &mut rng);
    let points = [(0, 0, 0), (1, 2, 3), (255, 255, 255), (256, 257, 258), (-1, -2, -3), (i32::MAX, i32::MIN, 1000)];
    for &(i, j, k) in points.iter() {
        let expected = x[(i & 255) as usize] ^ y[(j & 255) as usize] ^ z[(k & 255) as usize];
        assert_eq!(per_index(noise.gradient(i, j, k)), expected as usize);
    }
}

#[test]
fn a_cell_has_the_gradients_of_its_eight_corners() {
    let mut rng = Rng::new(2);
    let noise = Perlin::new(per_gradients(), &mut rng);
    for &(i, j, k) in [(0, 0, 0), (10, -20, 30), (255, 255, 255), (i32::MAX, i32::MAX, i32::MAX)].iter() {
        let cell = noise.noise(i, j, k);
        for di in 0..2i32 {
            for dj in 0..2i32 {
                for dk in 0..2i32 {
                    let expected = noise.gradient(i.wrapping_add(di), j.wrapping_add(dj), k.wrapping_add(dk));
                    assert_eq!(cell[(4 * di + 2 * dj + dk) as usize], expected);
                }
            }
        }
    }
}
