use boids::hash::{hash21, hash_u32, hash_unit, wander_units};
use boids::layout::KeyVal;
use boids::rng::Pcg32;
use boids::sort::sort_keys;

#[test]
fn same_seed_same_sequence() {
    let mut a = Pcg32::new(42, 1);
    let mut b = Pcg32::new(42, 1);
    for _ in 0..64 {
        assert_eq!(a.next_u32(), b.next_u32());
    }
    let mut c = Pcg32::new(43, 1);
    assert_ne!(Pcg32::new(42, 1).next_u32(), c.next_u32());
}

#[test]
fn floats_stay_in_range_and_are_not_degenerate() {
    let mut rng = Pcg32::new(7, 99);
    let mut sum = 0.0f64;
    let n = 10_000;
    for _ in 0..n {
        let v = rng.next_u24() as f32 / (1u32 << 24) as f32;
        assert!((0.0..1.0).contains(&v), "value {v} out of range");
        sum += f64::from(v);
    }
    let mean = sum / f64::from(n);
    assert!((mean - 0.5).abs() < 0.02, "mean {mean} is biased");
}

/// The generator as its published reference describes it.
fn reference_draw(state: &mut u64, inc: u64) -> u32 {
    let before = *state;
    *state = before.wrapping_mul(6_364_136_223_846_793_005).wrapping_add(inc);
    let xorshifted = (((before >> 18) ^ before) >> 27) as u32;
    xorshifted.rotate_right((before >> 59) as u32)
}

#[test]
fn draws_match_the_published_generator() {
    // The first outputs of the published demo, seeded with 42 on stream 54.
    let mut rng = Pcg32::new(42, 54);
    let first: Vec<u32> = (0..6).map(|_| rng.next_u32()).collect();
    assert_eq!(
        first,
        [0xa15c_02b7, 0x7b47_f409, 0xba1d_3330, 0x83d2_f293, 0xbfa4_784b, 0xcbed_606e]
    );

    let inc = (3u64 << 1) | 1;
    let mut state = 0u64;
    reference_draw(&mut state, inc);
    state = state.wrapping_add(u64::MAX);
    reference_draw(&mut state, inc);
    let mut rng = Pcg32::new(u64::MAX, 3);
    for _ in 0..100 {
        assert_eq!(rng.next_u32(), reference_draw(&mut state, inc));
    }
}

#[test]
fn streams_of_one_seed_differ() {
    let draw = |stream| {
        let mut rng = Pcg32::new(5, stream);
        (0..8).map(|_| rng.next_u32()).collect::<Vec<u32>>()
    };
    assert_ne!(draw(1), draw(2));
}

#[test]
fn the_finaliser_mixes_known_words() {
    let reference = |mut h: u32| {
        h ^= h >> 16;
        h = h.wrapping_mul(0x7feb_352d);
        h ^= h >> 15;
        h = h.wrapping_mul(0x846c_a68b);
        h ^= h >> 16;
        h
    };
    assert_eq!(hash_u32(0), 0);
    for h in [1u32, 2, 0xffff, 0x1_0000, 0xdead_beef, u32::MAX] {
        assert_eq!(hash_u32(h), reference(h));
        assert_eq!(hash_unit(h), reference(h) >> 8);
        assert!(hash_unit(h) < 1 << 24);
    }
}

#[test]
fn lattice_points_hash_both_coordinates() {
    let expected = |x: i32, y: i32| {
        hash_u32((x as u32).wrapping_mul(0x9e37_79b9) ^ hash_u32((y as u32).wrapping_mul(0x85eb_ca6b)))
            >> 8
    };
    for (x, y) in [(0, 0), (1, 0), (0, 1), (-1, 5), (i32::MIN, i32::MAX)] {
        assert_eq!(hash21(x, y), expected(x, y));
    }
    assert_ne!(hash21(3, 4), hash21(4, 3));
}

#[test]
fn wander_components_come_from_three_hashes() {
    let base = 7u32.wrapping_mul(0x9e37_79b9) ^ 11u32.wrapping_mul(0x85eb_ca6b);
    assert_eq!(
        wander_units(7, 11),
        [hash_unit(base), hash_unit(base ^ 0x27d4_eb2d), hash_unit(base ^ 0x1656_67b1)]
    );
}

#[test]
fn keys_sort_by_cell_and_then_by_agent() {
    let mut keys = vec![
        KeyVal { key: 2, val: 1 },
        KeyVal { key: 0, val: 9 },
        KeyVal { key: 2, val: 0 },
        KeyVal { key: 1, val: 5 },
        KeyVal { key: 0, val: 3 },
    ];
    sort_keys(&mut keys);
    let flat: Vec<(u32, u32)> = keys.iter().map(|k| (k.key, k.val)).collect();
    assert_eq!(flat, [(0, 3), (0, 9), (1, 5), (2, 0), (2, 1)]);

    let mut rng = Pcg32::new(1, 1);
    let mut keys: Vec<KeyVal> = (0..1000)
        .map(|i| KeyVal { key: rng.next_u32() % 50, val: i })
        .collect();
    let mut expected: Vec<(u32, u32)> = keys.iter().map(|k| (k.key, k.val)).collect();
    expected.sort();
    sort_keys(&mut keys);
    let got: Vec<(u32, u32)> = keys.iter().map(|k| (k.key, k.val)).collect();
    assert_eq!(got, expected);

    let mut none: Vec<KeyVal> = Vec::new();
    sort_keys(&mut none);
    assert!(none.is_empty());
}
