use material_color::argb::{
    Argb, alpha_from_int, argb_from_rgb, blue_from_int, green_from_int, is_opaque, red_from_int,
};

#[test]
fn argb_from_rgb_returns_correct_value_for_black() {
    assert_eq!(argb_from_rgb(0, 0, 0).to_u32(), 0xff00_0000);
    assert_eq!(argb_from_rgb(0, 0, 0).to_u32(), 4_278_190_080);
}

#[test]
fn argb_from_rgb_returns_correct_value_for_white() {
    assert_eq!(argb_from_rgb(255, 255, 255).to_u32(), 0xffff_ffff);
    assert_eq!(argb_from_rgb(255, 255, 255).to_u32(), 4_294_967_295);
}

#[test]
fn argb_from_rgb_returns_correct_value_for_random_color() {
    assert_eq!(argb_from_rgb(50, 150, 250).to_u32(), 0xff32_96fa);
    assert_eq!(argb_from_rgb(50, 150, 250).to_u32(), 4_281_505_530);
}

#[test]
fn components_match_cpp_helpers() {
    let first = Argb::new(0xff12_3456);
    let second = Argb::new(0xffab_cdef);

    assert_eq!(alpha_from_int(first), 0xff);
    assert_eq!(alpha_from_int(second), 0xff);
    assert_eq!(red_from_int(first), 0x12);
    assert_eq!(red_from_int(second), 0xab);
    assert_eq!(green_from_int(first), 0x34);
    assert_eq!(green_from_int(second), 0xcd);
    assert_eq!(blue_from_int(first), 0x56);
    assert_eq!(blue_from_int(second), 0xef);
}

#[test]
fn opaqueness_matches_alpha_channel() {
    assert!(is_opaque(Argb::new(0xff12_3456)));
    assert!(!is_opaque(Argb::new(0xf012_3456)));
    assert!(!is_opaque(Argb::new(0x0012_3456)));
}

#[test]
fn argb_from_rgb_masks_cpp_style_int_inputs() {
    assert_eq!(argb_from_rgb(-1, 256, 511).to_u32(), 0xffff_00ff);
}

#[test]
fn from_rgb_packs_channels_and_reads_them_back() {
    let color = Argb::from_rgb(0x12, 0x34, 0x56);
    assert_eq!(color.to_u32(), 0xff12_3456);
    assert_eq!(color.alpha(), 0xff);
    assert_eq!(color.red(), 0x12);
    assert_eq!(color.green(), 0x34);
    assert_eq!(color.blue(), 0x56);
    assert!(color.is_opaque());
}

#[test]
fn opaque_color_is_rebuilt_from_its_channels() {
    let color = Argb::new(0xff89_bce1);
    assert_eq!(
        Argb::from_rgb(color.red(), color.green(), color.blue()),
        color
    );
}

#[test]
fn transparent_color_reports_its_alpha() {
    let color = Argb::new(0x20f9_3013);
    assert_eq!(color.alpha(), 0x20);
    assert!(!color.is_opaque());
    assert_eq!(Argb::new(7).to_u32(), 7);
}

#[test]
fn conversions_to_and_from_u32_keep_the_value() {
    let color = Argb::from(0x8012_3456_u32);
    assert_eq!(color, Argb::new(0x8012_3456));
    assert_eq!(u32::from(color), 0x8012_3456);
    let back: u32 = Argb::new(0xff00_00ff).into();
    assert_eq!(back, 0xff00_00ff);
}

#[test]
fn black_and_white_are_opaque_extremes() {
    assert_eq!(Argb::black(), Argb::new(0xff00_0000));
    assert_eq!(Argb::white(), Argb::new(0xffff_ffff));
    assert_eq!(Argb::black(), Argb::from_rgb(0, 0, 0));
    assert_eq!(Argb::white(), Argb::from_rgb(255, 255, 255));
    assert!(Argb::black().is_opaque() && Argb::white().is_opaque());
}
