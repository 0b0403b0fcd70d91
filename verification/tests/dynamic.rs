use material_color::dynamic::roles::{BaseToneRule, ContrastCurveKind, PaletteGroup, role_from_i32};
use material_color::dynamic::variant::variant_from_i32;
use material_color::dynamic::{DynamicColorRole, TonePolarity, Variant};

#[test]
fn role_inventory_matches_material_dynamic_colors() {
    assert_eq!(DynamicColorRole::ALL.len(), 54);
    assert_eq!(DynamicColorRole::Primary.name(), "primary");
    assert_eq!(
        DynamicColorRole::NeutralVariantPaletteKeyColor.name(),
        "neutral_variant_palette_key_color"
    );
}

#[test]
fn role_values_read_back() {
    for (index, role) in DynamicColorRole::ALL.iter().enumerate() {
        assert_eq!(role_from_i32(index as i32), Some(*role));
    }
    assert_eq!(role_from_i32(-1), None);
    assert_eq!(role_from_i32(54), None);
    assert_eq!(role_from_i32(25), Some(DynamicColorRole::Primary));
}

#[test]
fn variant_values_and_names() {
    let all = [
        (Variant::Monochrome, "monochrome"),
        (Variant::Neutral, "neutral"),
        (Variant::TonalSpot, "tonal_spot"),
        (Variant::Vibrant, "vibrant"),
        (Variant::Expressive, "expressive"),
        (Variant::Fidelity, "fidelity"),
        (Variant::Content, "content"),
        (Variant::Rainbow, "rainbow"),
        (Variant::FruitSalad, "fruit_salad"),
    ];
    for (index, (variant, name)) in all.iter().enumerate() {
        assert_eq!(variant_from_i32(index as i32), Some(*variant));
        assert_eq!(variant.name(), *name);
    }
    assert_eq!(variant_from_i32(9), None);
    assert_eq!(variant_from_i32(-3), None);
}

#[test]
fn backgrounds_follow_the_scheme_rules() {
    assert_eq!(
        DynamicColorRole::OnPrimary.background(false),
        Some(DynamicColorRole::Primary)
    );
    assert_eq!(
        DynamicColorRole::Primary.background(false),
        Some(DynamicColorRole::SurfaceDim)
    );
    assert_eq!(
        DynamicColorRole::Primary.background(true),
        Some(DynamicColorRole::SurfaceBright)
    );
    assert_eq!(DynamicColorRole::Surface.background(true), None);
    assert_eq!(
        DynamicColorRole::OnTertiaryFixedVariant.second_background(),
        Some(DynamicColorRole::TertiaryFixed)
    );
    assert_eq!(DynamicColorRole::OnSurface.second_background(), None);
}

#[test]
fn background_chains_end_within_three_steps() {
    for dark in [false, true] {
        for role in DynamicColorRole::ALL {
            let mut current = Some(role);
            let mut steps = 0;
            while let Some(r) = current {
                current = r.background(dark);
                steps += 1;
            }
            assert!(steps <= 4, "role {}", role.name());
        }
    }
}

#[test]
fn every_background_role_has_a_contrast_curve() {
    for role in DynamicColorRole::ALL {
        if role.background(false).is_some() {
            assert!(role.contrast_curve().is_some(), "role {}", role.name());
        }
    }
    assert_eq!(
        DynamicColorRole::OnSurface.contrast_curve(),
        Some(ContrastCurveKind::HighEmphasisText)
    );
    assert_eq!(DynamicColorRole::Surface.contrast_curve(), None);
}

#[test]
fn palette_groups_and_background_flags() {
    assert_eq!(DynamicColorRole::SurfaceTint.palette_group(), PaletteGroup::Primary);
    assert_eq!(DynamicColorRole::Outline.palette_group(), PaletteGroup::NeutralVariant);
    assert_eq!(DynamicColorRole::OnErrorContainer.palette_group(), PaletteGroup::Error);
    assert_eq!(DynamicColorRole::Scrim.palette_group(), PaletteGroup::Neutral);
    assert!(DynamicColorRole::SurfaceTint.is_background());
    assert!(!DynamicColorRole::OnPrimary.is_background());
}

#[test]
fn tone_partners_are_symmetric() {
    let pair = DynamicColorRole::Primary.tone_partners().unwrap();
    assert_eq!(pair.role_a, DynamicColorRole::PrimaryContainer);
    assert_eq!(pair.role_b, DynamicColorRole::Primary);
    assert_eq!(pair.polarity, TonePolarity::Nearer);
    assert!(!pair.stay_together);
    assert_eq!(DynamicColorRole::PrimaryContainer.tone_partners(), Some(pair));
    let fixed = DynamicColorRole::TertiaryFixedDim.tone_partners().unwrap();
    assert_eq!(fixed.polarity, TonePolarity::Lighter);
    assert!(fixed.stay_together);
    assert_eq!(DynamicColorRole::OnPrimary.tone_partners(), None);
}

#[test]
fn nearer_partner_depends_on_polarity_and_darkness() {
    let container = DynamicColorRole::PrimaryContainer.tone_partners().unwrap();
    assert_eq!(container.polarity, TonePolarity::Nearer);
    assert_eq!(
        container.nearer_and_farther(false),
        (DynamicColorRole::PrimaryContainer, DynamicColorRole::Primary)
    );
    assert_eq!(
        container.nearer_and_farther(true),
        (DynamicColorRole::PrimaryContainer, DynamicColorRole::Primary)
    );

    // The lighter fixed role is nearer on a light scheme, farther on a dark one.
    let fixed = DynamicColorRole::PrimaryFixedDim.tone_partners().unwrap();
    assert_eq!(fixed.polarity, TonePolarity::Lighter);
    assert_eq!(
        fixed.nearer_and_farther(false),
        (DynamicColorRole::PrimaryFixed, DynamicColorRole::PrimaryFixedDim)
    );
    assert_eq!(
        fixed.nearer_and_farther(true),
        (DynamicColorRole::PrimaryFixedDim, DynamicColorRole::PrimaryFixed)
    );
}

#[test]
fn base_tone_rules_follow_variant_and_darkness() {
    assert_eq!(
        DynamicColorRole::Surface.base_tone_rule(Variant::TonalSpot, false),
        BaseToneRule::Fixed(98)
    );
    assert_eq!(
        DynamicColorRole::SurfaceDim.base_tone_rule(Variant::TonalSpot, false),
        BaseToneRule::Curve { low: 87, normal: 87, medium: 80, high: 75 }
    );
    assert_eq!(
        DynamicColorRole::Primary.base_tone_rule(Variant::Monochrome, true),
        BaseToneRule::Fixed(100)
    );
    assert_eq!(
        DynamicColorRole::PrimaryContainer.base_tone_rule(Variant::Content, false),
        BaseToneRule::SourceTone
    );
    assert_eq!(
        DynamicColorRole::OnPrimaryContainer.base_tone_rule(Variant::Fidelity, true),
        BaseToneRule::ForegroundOf(DynamicColorRole::PrimaryContainer)
    );
    assert_eq!(
        DynamicColorRole::SecondaryContainer.base_tone_rule(Variant::Fidelity, false),
        BaseToneRule::DesiredChroma { initial: 90, lighter: false }
    );
    assert_eq!(
        DynamicColorRole::TertiaryContainer.base_tone_rule(Variant::Content, true),
        BaseToneRule::DislikeCorrectedSource
    );
    assert_eq!(
        DynamicColorRole::NeutralPaletteKeyColor.base_tone_rule(Variant::Vibrant, true),
        BaseToneRule::KeyColor
    );
    for role in DynamicColorRole::ALL {
        for variant in [Variant::Monochrome, Variant::TonalSpot, Variant::Fidelity, Variant::Content] {
            for is_dark in [false, true] {
                if let BaseToneRule::ForegroundOf(other) = role.base_tone_rule(variant, is_dark) {
                    assert!(!matches!(
                        other.base_tone_rule(variant, is_dark),
                        BaseToneRule::ForegroundOf(_)
                    ));
                }
            }
        }
    }
}
