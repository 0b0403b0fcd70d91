use material_color::argb::Argb;
use material_color::quantize::wu::quantize_wu;

#[test]
fn wu_one_primary_color_matches_cpp() {
    assert_eq!(
        quantize_wu(&[Argb::new(0xffff_0000)], 256),
        vec![Argb::new(0xffff_0000)]
    );
    assert_eq!(
        quantize_wu(&[Argb::new(0xff00_ff00)], 256),
        vec![Argb::new(0xff00_ff00)]
    );
    assert_eq!(
        quantize_wu(&[Argb::new(0xff00_00ff)], 256),
        vec![Argb::new(0xff00_00ff)]
    );
}

#[test]
fn repeated_color_collapses_to_single_result() {
    let pixels = vec![Argb::new(0xff00_00ff); 5];
    assert_eq!(quantize_wu(&pixels, 256), vec![Argb::new(0xff00_00ff)]);
}

#[test]
fn red_green_blue_matches_cpp_order() {
    let result = quantize_wu(
        &[
            Argb::new(0xffff_0000),
            Argb::new(0xff00_ff00),
            Argb::new(0xff00_00ff),
        ],
        256,
    );

    assert_eq!(
        result,
        vec![
            Argb::new(0xff00_00ff),
            Argb::new(0xffff_0000),
            Argb::new(0xff00_ff00),
        ]
    );
}

#[test]
fn two_red_three_green_returns_two_colors() {
    let pixels = [
        Argb::new(0xffff_0000),
        Argb::new(0xffff_0000),
        Argb::new(0xffff_0000),
        Argb::new(0xff00_ff00),
        Argb::new(0xff00_ff00),
    ];

    assert_eq!(quantize_wu(&pixels, 256).len(), 2);
}

#[test]
fn wu_rejects_degenerate_inputs() {
    assert!(quantize_wu(&[], 16).is_empty());
    assert!(quantize_wu(&[Argb::new(0xffff_0000)], 0).is_empty());
    assert!(quantize_wu(&[Argb::new(0xffff_0000)], 257).is_empty());
}

#[test]
fn wu_respects_max_colors() {
    let pixels: Vec<Argb> = (0u32..64)
        .map(|i| Argb::new(0xff00_0000 | (i * 4) << 16 | (255 - i * 4) << 8 | (i * 3)))
        .collect();
    for max_colors in [1u16, 2, 3, 5, 8] {
        let result = quantize_wu(&pixels, max_colors);
        assert!(!result.is_empty());
        assert!(result.len() <= usize::from(max_colors));
        assert!(result.iter().all(|c| c.is_opaque()));
    }
}

#[test]
fn wu_single_box_gives_mean_color() {
    // One box: the truncated mean of the channels.
    let pixels = [Argb::new(0xff10_2030), Argb::new(0xff12_2234)];
    assert_eq!(quantize_wu(&pixels, 1), vec![Argb::new(0xff11_2132)]);
}

#[test]
fn wu_uniform_translucent_input_gives_opaque_copy() {
    let pixels = vec![Argb::new(0x2012_3456); 4];
    assert_eq!(quantize_wu(&pixels, 8), vec![Argb::new(0xff12_3456)]);
}

#[test]
fn wu_ignores_pixel_order_and_alpha() {
    let pixels = [
        Argb::new(0xffff_0000),
        Argb::new(0xff00_ff00),
        Argb::new(0xff00_ff00),
        Argb::new(0xff12_3456),
        Argb::new(0xff00_00ff),
    ];
    let mut reordered = pixels;
    reordered.reverse();
    let translucent: Vec<Argb> = pixels
        .iter()
        .map(|p| Argb::new(p.to_u32() & 0x00ff_ffff | 0x4000_0000))
        .collect();
    for max_colors in [1u16, 2, 3, 256] {
        let base = quantize_wu(&pixels, max_colors);
        assert_eq!(quantize_wu(&reordered, max_colors), base);
        assert_eq!(quantize_wu(&translucent, max_colors), base);
    }
}

#[test]
fn wu_colors_are_distinct_and_within_the_pixels_channels() {
    let pixels: Vec<Argb> = (0u32..200)
        .map(|i| Argb::new(0xff00_0000 | (40 + i % 90) << 16 | (10 + (i * 7) % 200) << 8 | (i * 13) % 120))
        .collect();
    let (min_r, max_r) = (pixels.iter().map(|p| p.red()).min().unwrap(), pixels.iter().map(|p| p.red()).max().unwrap());
    let (min_g, max_g) = (pixels.iter().map(|p| p.green()).min().unwrap(), pixels.iter().map(|p| p.green()).max().unwrap());
    let (min_b, max_b) = (pixels.iter().map(|p| p.blue()).min().unwrap(), pixels.iter().map(|p| p.blue()).max().unwrap());
    for max_colors in [1u16, 4, 16, 256] {
        let result = quantize_wu(&pixels, max_colors);
        for (i, a) in result.iter().enumerate() {
            assert!((min_r..=max_r).contains(&a.red()));
            assert!((min_g..=max_g).contains(&a.green()));
            assert!((min_b..=max_b).contains(&a.blue()));
            for b in &result[i + 1..] {
                assert_ne!(a, b);
            }
        }
    }
}

#[test]
fn wu_with_one_color_gives_the_truncated_mean() {
    assert_eq!(
        quantize_wu(&[Argb::new(0xff00_0000), Argb::new(0xffff_ffff)], 1),
        vec![Argb::new(0xff7f_7f7f)]
    );
}
