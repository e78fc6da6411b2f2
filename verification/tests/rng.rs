use raytracer::rng::Rng;

#[test]
fn same_seed_same_draws() {
    let mut a = Rng::new(42);
    let mut b = Rng::new(42);
    for _ in 0..100 {
        assert_eq!(a.next_u64(), b.next_u64());
    }
    let mut c = Rng::new(43);
    let mut d = Rng::new(42);
    let mut differ = false;
    for _ in 0..10 {
        if c.next_u64() != d.next_u64() {
            differ = true;
        }
    }
    assert!(differ);
}

#[test]
fn zero_seed_is_replaced() {
    let r = Rng::new(0);
    assert_eq!(r.state, 0x9e37_79b9_7f4a_7c15);
    let r = Rng::new(5);
    assert_eq!(r.state, 5);
}

#[test]
fn first_draw_follows_the_xorshift_formula() {
    let mut r = Rng::new(1);
    let mut x: u64 = 1;
    x ^= x >> 12;
    x ^= x << 25;
    x ^= x >> 27;
    let expected = x.wrapping_mul(0x2545_f491_4f6c_dd1d);
    assert_eq!(r.next_u64(), expected);
    assert_eq!(r.state, x);
    assert_eq!(x, 0x2000001);
    assert_eq!(expected, 0x2000001u64.wrapping_mul(0x2545_f491_4f6c_dd1d));
}

#[test]
fn random_int_stays_in_range_and_reaches_both_ends() {
    let mut r = Rng::new(7);
    let mut seen = [false; 3];
    for _ in 0..200 {
        let v = r.random_int(0, 2);
        assert!((0..=2).contains(&v));
        seen[v as usize] = true;
    }
    assert!(seen[0] && seen[1] && seen[2]);
    for _ in 0..50 {
        let v = r.random_int(-5, -5);
        assert_eq!(v, -5);
    }
    for _ in 0..50 {
        let v = r.random_int(i32::MIN, i32::MAX);
        let _ = v;
    }
    for _ in 0..50 {
        let v = r.random_int(-3, 4);
        assert!((-3..=4).contains(&v));
    }
}

#[test]
fn random_int_is_the_draw_reduced_to_the_range() {
    let mut a = Rng::new(99);
    let mut b = Rng::new(99);
    for _ in 0..20 {
        let raw = a.next_u64();
        let v = b.random_int(10, 19);
        assert_eq!(v as u64, 10 + raw % 10);
    }
}
