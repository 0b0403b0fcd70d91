use material_color::argb::Argb;
use material_color::quantize::wsmeans::{
    DeterministicRng, RANDOM_SEED, cluster_pixel_counts, cluster_populations, count_pixels,
    initial_cluster_indices, opaque_pixels,
};

#[test]
fn generator_follows_the_c_rand_recurrence() {
    let mut rng = DeterministicRng::new(1);
    // state 1 -> 1103527590, output (1103527590 / 65536) % 2^31.
    assert_eq!(rng.next_u31(), 16838);
    let mut seeded = DeterministicRng::new(RANDOM_SEED);
    let state = RANDOM_SEED.wrapping_mul(1_103_515_245).wrapping_add(12_345);
    assert_eq!(seeded.next_u31(), (state / 65_536) % 0x8000_0000);
}

#[test]
fn generator_wraps_around() {
    let mut rng = DeterministicRng::new(u64::MAX);
    let state = u64::MAX.wrapping_mul(1_103_515_245).wrapping_add(12_345);
    assert_eq!(rng.next_u31(), (state / 65_536) % 0x8000_0000);
}

#[test]
fn counts_keep_first_appearance_order() {
    let input = [
        Argb::new(0xff00_00ff),
        Argb::new(0xffff_0000),
        Argb::new(0xff00_00ff),
        Argb::new(0xff00_ff00),
        Argb::new(0xffff_0000),
        Argb::new(0xff00_00ff),
    ];
    let (pixels, counts) = count_pixels(&input);
    assert_eq!(
        pixels,
        vec![
            Argb::new(0xff00_00ff),
            Argb::new(0xffff_0000),
            Argb::new(0xff00_ff00)
        ]
    );
    assert_eq!(counts, vec![3, 2, 1]);
    let (empty, none) = count_pixels(&[]);
    assert!(empty.is_empty() && none.is_empty());
}

#[test]
fn initial_clusters_come_from_the_generator() {
    let indices = initial_cluster_indices(5, 3);
    let mut rng = DeterministicRng::new(RANDOM_SEED);
    let expected: Vec<usize> = (0..5).map(|_| rng.next_u31() as usize % 3).collect();
    assert_eq!(indices, expected);
    assert!(indices.iter().all(|&i| i < 3));
    assert!(initial_cluster_indices(0, 4).is_empty());
}

#[test]
fn cluster_counts_add_up() {
    let sums = cluster_pixel_counts(&[0, 2, 0, 1, 2], &[3, 1, 4, 1, 5], 4);
    assert_eq!(sums, vec![7, 1, 6, 0]);
}

#[test]
fn populations_merge_clusters_of_one_color() {
    let argbs = [
        Argb::new(0xff11_1111),
        Argb::new(0xff22_2222),
        Argb::new(0xff11_1111),
        Argb::new(0xff33_3333),
    ];
    let result = cluster_populations(&argbs, &[2, 5, 3, 0]);
    assert_eq!(
        result,
        vec![(Argb::new(0xff11_1111), 5), (Argb::new(0xff22_2222), 5)]
    );
}

#[test]
fn opaque_filter_drops_translucent_pixels() {
    let pixels = [
        Argb::new(0x20f9_3013),
        Argb::new(0xff00_0000),
        Argb::new(0xfe12_3456),
        Argb::new(0xffab_cdef),
    ];
    assert_eq!(
        opaque_pixels(&pixels),
        vec![Argb::new(0xff00_0000), Argb::new(0xffab_cdef)]
    );
}
