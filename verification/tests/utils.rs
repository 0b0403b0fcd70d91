use material_color::VERSION;
use material_color::argb::Argb;
use material_color::capi::parse_version_component;
use material_color::utils::{hex_from_argb, sanitize_degrees_int};

#[test]
fn rust_version_surface_is_stable() {
    assert_eq!(VERSION, "1.0.0");
}

#[test]
fn hex_from_argb_matches_cpp() {
    assert_eq!(hex_from_argb(Argb::new(0xff89_bce1)), "ff89bce1");
    assert_eq!(hex_from_argb(Argb::new(0xff01_0204)), "ff010204");
}

#[test]
fn hex_has_no_leading_zeros() {
    assert_eq!(hex_from_argb(Argb::new(0)), "0");
    assert_eq!(hex_from_argb(Argb::new(0x00ab_cdef)), "abcdef");
    assert_eq!(hex_from_argb(Argb::new(0x10)), "10");
}

#[test]
fn angle_sanitation_matches_cpp() {
    assert_eq!(sanitize_degrees_int(30), 30);
    assert_eq!(sanitize_degrees_int(240), 240);
    assert_eq!(sanitize_degrees_int(360), 0);
    assert_eq!(sanitize_degrees_int(-30), 330);
    assert_eq!(sanitize_degrees_int(-750), 330);
    assert_eq!(sanitize_degrees_int(-54_321), 39);
}

#[test]
fn negative_full_turns_sanitize_to_360() {
    assert_eq!(sanitize_degrees_int(-360), 360);
    assert_eq!(sanitize_degrees_int(-720), 360);
    assert_eq!(sanitize_degrees_int(720), 0);
    assert_eq!(sanitize_degrees_int(i32::MIN), 232);
}

#[test]
fn version_components_parse() {
    assert_eq!(parse_version_component("1"), 1);
    assert_eq!(parse_version_component("0"), 0);
    assert_eq!(parse_version_component("42"), 42);
    assert_eq!(parse_version_component(""), 0);
    assert_eq!(parse_version_component("4294967295"), u32::MAX);
}

#[test]
fn hex_numerals_read_back_without_leading_zeros() {
    for value in [0u32, 1, 0xf, 0x10, 0xabc, 0x0fff_ffff, 0x1000_0000, 0xff00_0000, u32::MAX] {
        let text = hex_from_argb(Argb::new(value));
        assert_eq!(u32::from_str_radix(&text, 16), Ok(value));
        assert!(text.chars().all(|c| c.is_ascii_digit() || ('a'..='f').contains(&c)));
        assert!(!text.starts_with('0') || text == "0");
        if value >= 0x1000_0000 {
            assert_eq!(text.len(), 8);
        }
    }
    assert_eq!(hex_from_argb(Argb::new(0)), "0");
}
