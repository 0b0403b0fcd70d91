use vstd::prelude::*;

use super::color::TonePolarity;
use super::variant::Variant;

verus! {

/// The 54 color roles of a Material dynamic color scheme.
#[derive(Clone, Copy, Debug, PartialEq, Eq, Hash, Structural)]
pub enum DynamicColorRole {
    PrimaryPaletteKeyColor,
    SecondaryPaletteKeyColor,
    TertiaryPaletteKeyColor,
    NeutralPaletteKeyColor,
    NeutralVariantPaletteKeyColor,
    Background,
    OnBackground,
    Surface,
    SurfaceDim,
    SurfaceBright,
    SurfaceContainerLowest,
    SurfaceContainerLow,
    SurfaceContainer,
    SurfaceContainerHigh,
    SurfaceContainerHighest,
    OnSurface,
    SurfaceVariant,
    OnSurfaceVariant,
    InverseSurface,
    InverseOnSurface,
    Outline,
    OutlineVariant,
    Shadow,
    Scrim,
    SurfaceTint,
    Primary,
    OnPrimary,
    PrimaryContainer,
    OnPrimaryContainer,
    InversePrimary,
    Secondary,
    OnSecondary,
    SecondaryContainer,
    OnSecondaryContainer,
    Tertiary,
    OnTertiary,
    TertiaryContainer,
    OnTertiaryContainer,
    Error,
    OnError,
    ErrorContainer,
    OnErrorContainer,
    PrimaryFixed,
    PrimaryFixedDim,
    OnPrimaryFixed,
    OnPrimaryFixedVariant,
    SecondaryFixed,
    SecondaryFixedDim,
    OnSecondaryFixed,
    OnSecondaryFixedVariant,
    TertiaryFixed,
    TertiaryFixedDim,
    OnTertiaryFixed,
    OnTertiaryFixedVariant,
}

/// The tonal palette that a role draws its color from.
#[derive(Clone, Copy, Debug, PartialEq, Eq, Structural)]
pub enum PaletteGroup {
    Primary,
    Secondary,
    Tertiary,
    Neutral,
    NeutralVariant,
    Error,
}

/// The contrast requirement a role has against its background; each kind
/// stands for one curve of minimum contrast ratios.
#[derive(Clone, Copy, Debug, PartialEq, Eq, Structural)]
pub enum ContrastCurveKind {
    /// 3, 3, 4.5 and 7 at low, normal, medium and high contrast.
    OnBackground,
    /// 4.5, 7, 11 and 21.
    HighEmphasisText,
    /// 3, 4.5, 7 and 11.
    LowEmphasisText,
    /// 1.5, 3, 4.5 and 7.
    Outline,
    /// 1, 1, 3 and 4.5.
    Decoration,
    /// 3, 4.5, 7 and 7.
    Accent,
}

/// Two roles whose tones keep a fixed distance: the roles, which of them is
/// nearer to the background, and whether they move together.
#[derive(Clone, Copy, Debug, PartialEq, Eq, Structural)]
pub struct TonePartners {
    pub role_a: DynamicColorRole,
    pub role_b: DynamicColorRole,
    pub polarity: TonePolarity,
    pub stay_together: bool,
}

/// The position of a role in `DynamicColorRole::ALL`.
pub open spec fn role_index(role: DynamicColorRole) -> int {
    match role {
        DynamicColorRole::PrimaryPaletteKeyColor => 0,
        DynamicColorRole::SecondaryPaletteKeyColor => 1,
        DynamicColorRole::TertiaryPaletteKeyColor => 2,
        DynamicColorRole::NeutralPaletteKeyColor => 3,
        DynamicColorRole::NeutralVariantPaletteKeyColor => 4,
        DynamicColorRole::Background => 5,
        DynamicColorRole::OnBackground => 6,
        DynamicColorRole::Surface => 7,
        DynamicColorRole::SurfaceDim => 8,
        DynamicColorRole::SurfaceBright => 9,
        DynamicColorRole::SurfaceContainerLowest => 10,
        DynamicColorRole::SurfaceContainerLow => 11,
        DynamicColorRole::SurfaceContainer => 12,
        DynamicColorRole::SurfaceContainerHigh => 13,
        DynamicColorRole::SurfaceContainerHighest => 14,
        DynamicColorRole::OnSurface => 15,
        DynamicColorRole::SurfaceVariant => 16,
        DynamicColorRole::OnSurfaceVariant => 17,
        DynamicColorRole::InverseSurface => 18,
        DynamicColorRole::InverseOnSurface => 19,
        DynamicColorRole::Outline => 20,
        DynamicColorRole::OutlineVariant => 21,
        DynamicColorRole::Shadow => 22,
        DynamicColorRole::Scrim => 23,
        DynamicColorRole::SurfaceTint => 24,
        DynamicColorRole::Primary => 25,
        DynamicColorRole::OnPrimary => 26,
        DynamicColorRole::PrimaryContainer => 27,
        DynamicColorRole::OnPrimaryContainer => 28,
        DynamicColorRole::InversePrimary => 29,
        DynamicColorRole::Secondary => 30,
        DynamicColorRole::OnSecondary => 31,
        DynamicColorRole::SecondaryContainer => 32,
        DynamicColorRole::OnSecondaryContainer => 33,
        DynamicColorRole::Tertiary => 34,
        DynamicColorRole::OnTertiary => 35,
        DynamicColorRole::TertiaryContainer => 36,
        DynamicColorRole::OnTertiaryContainer => 37,
        DynamicColorRole::Error => 38,
        DynamicColorRole::OnError => 39,
        DynamicColorRole::ErrorContainer => 40,
        DynamicColorRole::OnErrorContainer => 41,
        DynamicColorRole::PrimaryFixed => 42,
        DynamicColorRole::PrimaryFixedDim => 43,
        DynamicColorRole::OnPrimaryFixed => 44,
        DynamicColorRole::OnPrimaryFixedVariant => 45,
        DynamicColorRole::SecondaryFixed => 46,
        DynamicColorRole::SecondaryFixedDim => 47,
        DynamicColorRole::OnSecondaryFixed => 48,
        DynamicColorRole::OnSecondaryFixedVariant => 49,
        DynamicColorRole::TertiaryFixed => 50,
        DynamicColorRole::TertiaryFixedDim => 51,
        DynamicColorRole::OnTertiaryFixed => 52,
        DynamicColorRole::OnTertiaryFixedVariant => 53,
    }
}

/// The snake-case name of a role.
pub open spec fn role_name(role: DynamicColorRole) -> Seq<char> {
    match role {
        DynamicColorRole::PrimaryPaletteKeyColor => "primary_palette_key_color"@,
        DynamicColorRole::SecondaryPaletteKeyColor => "secondary_palette_key_color"@,
        DynamicColorRole::TertiaryPaletteKeyColor => "tertiary_palette_key_color"@,
        DynamicColorRole::NeutralPaletteKeyColor => "neutral_palette_key_color"@,
        DynamicColorRole::NeutralVariantPaletteKeyColor => "neutral_variant_palette_key_color"@,
        DynamicColorRole::Background => "background"@,
        DynamicColorRole::OnBackground => "on_background"@,
        DynamicColorRole::Surface => "surface"@,
        DynamicColorRole::SurfaceDim => "surface_dim"@,
        DynamicColorRole::SurfaceBright => "surface_bright"@,
        DynamicColorRole::SurfaceContainerLowest => "surface_container_lowest"@,
        DynamicColorRole::SurfaceContainerLow => "surface_container_low"@,
        DynamicColorRole::SurfaceContainer => "surface_container"@,
        DynamicColorRole::SurfaceContainerHigh => "surface_container_high"@,
        DynamicColorRole::SurfaceContainerHighest => "surface_container_highest"@,
        DynamicColorRole::OnSurface => "on_surface"@,
        DynamicColorRole::SurfaceVariant => "surface_variant"@,
        DynamicColorRole::OnSurfaceVariant => "on_surface_variant"@,
        DynamicColorRole::InverseSurface => "inverse_surface"@,
        DynamicColorRole::InverseOnSurface => "inverse_on_surface"@,
        DynamicColorRole::Outline => "outline"@,
        DynamicColorRole::OutlineVariant => "outline_variant"@,
        DynamicColorRole::Shadow => "shadow"@,
        DynamicColorRole::Scrim => "scrim"@,
        DynamicColorRole::SurfaceTint => "surface_tint"@,
        DynamicColorRole::Primary => "primary"@,
        DynamicColorRole::OnPrimary => "on_primary"@,
        DynamicColorRole::PrimaryContainer => "primary_container"@,
        DynamicColorRole::OnPrimaryContainer => "on_primary_container"@,
        DynamicColorRole::InversePrimary => "inverse_primary"@,
        DynamicColorRole::Secondary => "secondary"@,
        DynamicColorRole::OnSecondary => "on_secondary"@,
        DynamicColorRole::SecondaryContainer => "secondary_container"@,
        DynamicColorRole::OnSecondaryContainer => "on_secondary_container"@,
        DynamicColorRole::Tertiary => "tertiary"@,
        DynamicColorRole::OnTertiary => "on_tertiary"@,
        DynamicColorRole::TertiaryContainer => "tertiary_container"@,
        DynamicColorRole::OnTertiaryContainer => "on_tertiary_container"@,
        DynamicColorRole::Error => "error"@,
        DynamicColorRole::OnError => "on_error"@,
        DynamicColorRole::ErrorContainer => "error_container"@,
        DynamicColorRole::OnErrorContainer => "on_error_container"@,
        DynamicColorRole::PrimaryFixed => "primary_fixed"@,
        DynamicColorRole::PrimaryFixedDim => "primary_fixed_dim"@,
        DynamicColorRole::OnPrimaryFixed => "on_primary_fixed"@,
        DynamicColorRole::OnPrimaryFixedVariant => "on_primary_fixed_variant"@,
        DynamicColorRole::SecondaryFixed => "secondary_fixed"@,
        DynamicColorRole::SecondaryFixedDim => "secondary_fixed_dim"@,
        DynamicColorRole::OnSecondaryFixed => "on_secondary_fixed"@,
        DynamicColorRole::OnSecondaryFixedVariant => "on_secondary_fixed_variant"@,
        DynamicColorRole::TertiaryFixed => "tertiary_fixed"@,
        DynamicColorRole::TertiaryFixedDim => "tertiary_fixed_dim"@,
        DynamicColorRole::OnTertiaryFixed => "on_tertiary_fixed"@,
        DynamicColorRole::OnTertiaryFixedVariant => "on_tertiary_fixed_variant"@,
    }
}

/// The surface that other roles are measured against.
pub open spec fn highest_surface(is_dark: bool) -> DynamicColorRole {
    if is_dark {
        DynamicColorRole::SurfaceBright
    } else {
        DynamicColorRole::SurfaceDim
    }
}

/// The role whose tone a role must contrast with.
pub open spec fn background_of(role: DynamicColorRole, is_dark: bool) -> Option<DynamicColorRole> {
    match role {
        DynamicColorRole::OnBackground => Some(DynamicColorRole::Background),
        DynamicColorRole::OnSurface | DynamicColorRole::OnSurfaceVariant | DynamicColorRole::Outline | DynamicColorRole::OutlineVariant | DynamicColorRole::Primary | DynamicColorRole::PrimaryContainer | DynamicColorRole::Secondary | DynamicColorRole::SecondaryContainer | DynamicColorRole::Tertiary | DynamicColorRole::TertiaryContainer | DynamicColorRole::Error | DynamicColorRole::ErrorContainer | DynamicColorRole::PrimaryFixed | DynamicColorRole::PrimaryFixedDim | DynamicColorRole::SecondaryFixed | DynamicColorRole::SecondaryFixedDim | DynamicColorRole::TertiaryFixed | DynamicColorRole::TertiaryFixedDim => Some(highest_surface(is_dark)),
        DynamicColorRole::InverseOnSurface | DynamicColorRole::InversePrimary => Some(DynamicColorRole::InverseSurface),
        DynamicColorRole::OnPrimary => Some(DynamicColorRole::Primary),
        DynamicColorRole::OnPrimaryContainer => Some(DynamicColorRole::PrimaryContainer),
        DynamicColorRole::OnSecondary => Some(DynamicColorRole::Secondary),
        DynamicColorRole::OnSecondaryContainer => Some(DynamicColorRole::SecondaryContainer),
        DynamicColorRole::OnTertiary => Some(DynamicColorRole::Tertiary),
        DynamicColorRole::OnTertiaryContainer => Some(DynamicColorRole::TertiaryContainer),
        DynamicColorRole::OnError => Some(DynamicColorRole::Error),
        DynamicColorRole::OnErrorContainer => Some(DynamicColorRole::ErrorContainer),
        DynamicColorRole::OnPrimaryFixed | DynamicColorRole::OnPrimaryFixedVariant => Some(DynamicColorRole::PrimaryFixedDim),
        DynamicColorRole::OnSecondaryFixed | DynamicColorRole::OnSecondaryFixedVariant => Some(DynamicColorRole::SecondaryFixedDim),
        DynamicColorRole::OnTertiaryFixed | DynamicColorRole::OnTertiaryFixedVariant => Some(DynamicColorRole::TertiaryFixedDim),
        _ => None,
    }
}

/// The second role that a role must contrast with.
pub open spec fn second_background_of(role: DynamicColorRole) -> Option<DynamicColorRole> {
    match role {
        DynamicColorRole::OnPrimaryFixed | DynamicColorRole::OnPrimaryFixedVariant => Some(DynamicColorRole::PrimaryFixed),
        DynamicColorRole::OnSecondaryFixed | DynamicColorRole::OnSecondaryFixedVariant => Some(DynamicColorRole::SecondaryFixed),
        DynamicColorRole::OnTertiaryFixed | DynamicColorRole::OnTertiaryFixedVariant => Some(DynamicColorRole::TertiaryFixed),
        _ => None,
    }
}

/// Whether other roles are drawn on top of this one.
pub open spec fn is_background_role(role: DynamicColorRole) -> bool {
    match role {
        DynamicColorRole::Background | DynamicColorRole::Surface | DynamicColorRole::SurfaceDim | DynamicColorRole::SurfaceBright | DynamicColorRole::SurfaceContainerLowest | DynamicColorRole::SurfaceContainerLow | DynamicColorRole::SurfaceContainer | DynamicColorRole::SurfaceContainerHigh | DynamicColorRole::SurfaceContainerHighest | DynamicColorRole::SurfaceVariant | DynamicColorRole::SurfaceTint | DynamicColorRole::Primary | DynamicColorRole::PrimaryContainer | DynamicColorRole::Secondary | DynamicColorRole::SecondaryContainer | DynamicColorRole::Tertiary | DynamicColorRole::TertiaryContainer | DynamicColorRole::Error | DynamicColorRole::ErrorContainer | DynamicColorRole::PrimaryFixed | DynamicColorRole::PrimaryFixedDim | DynamicColorRole::SecondaryFixed | DynamicColorRole::SecondaryFixedDim | DynamicColorRole::TertiaryFixed | DynamicColorRole::TertiaryFixedDim => true,
        _ => false,
    }
}

/// The palette that a role's color is taken from.
pub open spec fn palette_group_of(role: DynamicColorRole) -> PaletteGroup {
    match role {
        DynamicColorRole::PrimaryPaletteKeyColor | DynamicColorRole::SurfaceTint | DynamicColorRole::Primary | DynamicColorRole::OnPrimary | DynamicColorRole::PrimaryContainer | DynamicColorRole::OnPrimaryContainer | DynamicColorRole::InversePrimary | DynamicColorRole::PrimaryFixed | DynamicColorRole::PrimaryFixedDim | DynamicColorRole::OnPrimaryFixed | DynamicColorRole::OnPrimaryFixedVariant => PaletteGroup::Primary,
        DynamicColorRole::SecondaryPaletteKeyColor | DynamicColorRole::Secondary | DynamicColorRole::OnSecondary | DynamicColorRole::SecondaryContainer | DynamicColorRole::OnSecondaryContainer | DynamicColorRole::SecondaryFixed | DynamicColorRole::SecondaryFixedDim | DynamicColorRole::OnSecondaryFixed | DynamicColorRole::OnSecondaryFixedVariant => PaletteGroup::Secondary,
        DynamicColorRole::TertiaryPaletteKeyColor | DynamicColorRole::Tertiary | DynamicColorRole::OnTertiary | DynamicColorRole::TertiaryContainer | DynamicColorRole::OnTertiaryContainer | DynamicColorRole::TertiaryFixed | DynamicColorRole::TertiaryFixedDim | DynamicColorRole::OnTertiaryFixed | DynamicColorRole::OnTertiaryFixedVariant => PaletteGroup::Tertiary,
        DynamicColorRole::NeutralVariantPaletteKeyColor | DynamicColorRole::SurfaceVariant | DynamicColorRole::OnSurfaceVariant | DynamicColorRole::Outline | DynamicColorRole::OutlineVariant => PaletteGroup::NeutralVariant,
        DynamicColorRole::Error | DynamicColorRole::OnError | DynamicColorRole::ErrorContainer | DynamicColorRole::OnErrorContainer => PaletteGroup::Error,
        _ => PaletteGroup::Neutral,
    }
}

/// The contrast curve that a role must meet against its background.
pub open spec fn contrast_curve_of(role: DynamicColorRole) -> Option<ContrastCurveKind> {
    match role {
        DynamicColorRole::OnBackground => Some(ContrastCurveKind::OnBackground),
        DynamicColorRole::OnSurface | DynamicColorRole::InverseOnSurface | DynamicColorRole::OnPrimary | DynamicColorRole::OnSecondary | DynamicColorRole::OnTertiary | DynamicColorRole::OnError | DynamicColorRole::OnPrimaryFixed | DynamicColorRole::OnSecondaryFixed | DynamicColorRole::OnTertiaryFixed => Some(ContrastCurveKind::HighEmphasisText),
        DynamicColorRole::OnSurfaceVariant | DynamicColorRole::OnPrimaryContainer | DynamicColorRole::OnSecondaryContainer | DynamicColorRole::OnTertiaryContainer | DynamicColorRole::OnErrorContainer | DynamicColorRole::OnPrimaryFixedVariant | DynamicColorRole::OnSecondaryFixedVariant | DynamicColorRole::OnTertiaryFixedVariant => Some(ContrastCurveKind::LowEmphasisText),
        DynamicColorRole::Outline => Some(ContrastCurveKind::Outline),
        DynamicColorRole::OutlineVariant | DynamicColorRole::PrimaryContainer | DynamicColorRole::SecondaryContainer | DynamicColorRole::TertiaryContainer | DynamicColorRole::ErrorContainer | DynamicColorRole::PrimaryFixed | DynamicColorRole::PrimaryFixedDim | DynamicColorRole::SecondaryFixed | DynamicColorRole::SecondaryFixedDim | DynamicColorRole::TertiaryFixed | DynamicColorRole::TertiaryFixedDim => Some(ContrastCurveKind::Decoration),
        DynamicColorRole::Primary | DynamicColorRole::InversePrimary | DynamicColorRole::Secondary | DynamicColorRole::Tertiary | DynamicColorRole::Error => Some(ContrastCurveKind::Accent),
        _ => None,
    }
}

/// The pair of roles a role keeps a fixed tone distance with.
pub open spec fn tone_partners_of(role: DynamicColorRole) -> Option<TonePartners> {
    match role {
        DynamicColorRole::Primary | DynamicColorRole::PrimaryContainer => Some(TonePartners { role_a: DynamicColorRole::PrimaryContainer, role_b: DynamicColorRole::Primary, polarity: TonePolarity::Nearer, stay_together: false }),
        DynamicColorRole::Secondary | DynamicColorRole::SecondaryContainer => Some(TonePartners { role_a: DynamicColorRole::SecondaryContainer, role_b: DynamicColorRole::Secondary, polarity: TonePolarity::Nearer, stay_together: false }),
        DynamicColorRole::Tertiary | DynamicColorRole::TertiaryContainer => Some(TonePartners { role_a: DynamicColorRole::TertiaryContainer, role_b: DynamicColorRole::Tertiary, polarity: TonePolarity::Nearer, stay_together: false }),
        DynamicColorRole::Error | DynamicColorRole::ErrorContainer => Some(TonePartners { role_a: DynamicColorRole::ErrorContainer, role_b: DynamicColorRole::Error, polarity: TonePolarity::Nearer, stay_together: false }),
        DynamicColorRole::PrimaryFixed | DynamicColorRole::PrimaryFixedDim => Some(TonePartners { role_a: DynamicColorRole::PrimaryFixed, role_b: DynamicColorRole::PrimaryFixedDim, polarity: TonePolarity::Lighter, stay_together: true }),
        DynamicColorRole::SecondaryFixed | DynamicColorRole::SecondaryFixedDim => Some(TonePartners { role_a: DynamicColorRole::SecondaryFixed, role_b: DynamicColorRole::SecondaryFixedDim, polarity: TonePolarity::Lighter, stay_together: true }),
        DynamicColorRole::TertiaryFixed | DynamicColorRole::TertiaryFixedDim => Some(TonePartners { role_a: DynamicColorRole::TertiaryFixed, role_b: DynamicColorRole::TertiaryFixedDim, polarity: TonePolarity::Lighter, stay_together: true }),
        _ => None,
    }
}

impl DynamicColorRole {
    /// Every role, in the order of their numeric values.
    pub const ALL: [DynamicColorRole; 54] = [
        DynamicColorRole::PrimaryPaletteKeyColor,
        DynamicColorRole::SecondaryPaletteKeyColor,
        DynamicColorRole::TertiaryPaletteKeyColor,
        DynamicColorRole::NeutralPaletteKeyColor,
        DynamicColorRole::NeutralVariantPaletteKeyColor,
        DynamicColorRole::Background,
        DynamicColorRole::OnBackground,
        DynamicColorRole::Surface,
        DynamicColorRole::SurfaceDim,
        DynamicColorRole::SurfaceBright,
        DynamicColorRole::SurfaceContainerLowest,
        DynamicColorRole::SurfaceContainerLow,
        DynamicColorRole::SurfaceContainer,
        DynamicColorRole::SurfaceContainerHigh,
        DynamicColorRole::SurfaceContainerHighest,
        DynamicColorRole::OnSurface,
        DynamicColorRole::SurfaceVariant,
        DynamicColorRole::OnSurfaceVariant,
        DynamicColorRole::InverseSurface,
        DynamicColorRole::InverseOnSurface,
        DynamicColorRole::Outline,
        DynamicColorRole::OutlineVariant,
        DynamicColorRole::Shadow,
        DynamicColorRole::Scrim,
        DynamicColorRole::SurfaceTint,
        DynamicColorRole::Primary,
        DynamicColorRole::OnPrimary,
        DynamicColorRole::PrimaryContainer,
        DynamicColorRole::OnPrimaryContainer,
        DynamicColorRole::InversePrimary,
        DynamicColorRole::Secondary,
        DynamicColorRole::OnSecondary,
        DynamicColorRole::SecondaryContainer,
        DynamicColorRole::OnSecondaryContainer,
        DynamicColorRole::Tertiary,
        DynamicColorRole::OnTertiary,
        DynamicColorRole::TertiaryContainer,
        DynamicColorRole::OnTertiaryContainer,
        DynamicColorRole::Error,
        DynamicColorRole::OnError,
        DynamicColorRole::ErrorContainer,
        DynamicColorRole::OnErrorContainer,
        DynamicColorRole::PrimaryFixed,
        DynamicColorRole::PrimaryFixedDim,
        DynamicColorRole::OnPrimaryFixed,
        DynamicColorRole::OnPrimaryFixedVariant,
        DynamicColorRole::SecondaryFixed,
        DynamicColorRole::SecondaryFixedDim,
        DynamicColorRole::OnSecondaryFixed,
        DynamicColorRole::OnSecondaryFixedVariant,
        DynamicColorRole::TertiaryFixed,
        DynamicColorRole::TertiaryFixedDim,
        DynamicColorRole::OnTertiaryFixed,
        DynamicColorRole::OnTertiaryFixedVariant,
    ];

    /// The snake-case name of the role.
    pub fn name(self) -> (r: &'static str)
        ensures
            r@ == role_name(self),
    {
        match self {
            DynamicColorRole::PrimaryPaletteKeyColor => "primary_palette_key_color",
            DynamicColorRole::SecondaryPaletteKeyColor => "secondary_palette_key_color",
            DynamicColorRole::TertiaryPaletteKeyColor => "tertiary_palette_key_color",
            DynamicColorRole::NeutralPaletteKeyColor => "neutral_palette_key_color",
            DynamicColorRole::NeutralVariantPaletteKeyColor => "neutral_variant_palette_key_color",
            DynamicColorRole::Background => "background",
            DynamicColorRole::OnBackground => "on_background",
            DynamicColorRole::Surface => "surface",
            DynamicColorRole::SurfaceDim => "surface_dim",
            DynamicColorRole::SurfaceBright => "surface_bright",
            DynamicColorRole::SurfaceContainerLowest => "surface_container_lowest",
            DynamicColorRole::SurfaceContainerLow => "surface_container_low",
            DynamicColorRole::SurfaceContainer => "surface_container",
            DynamicColorRole::SurfaceContainerHigh => "surface_container_high",
            DynamicColorRole::SurfaceContainerHighest => "surface_container_highest",
            DynamicColorRole::OnSurface => "on_surface",
            DynamicColorRole::SurfaceVariant => "surface_variant",
            DynamicColorRole::OnSurfaceVariant => "on_surface_variant",
            DynamicColorRole::InverseSurface => "inverse_surface",
            DynamicColorRole::InverseOnSurface => "inverse_on_surface",
            DynamicColorRole::Outline => "outline",
            DynamicColorRole::OutlineVariant => "outline_variant",
            DynamicColorRole::Shadow => "shadow",
            DynamicColorRole::Scrim => "scrim",
            DynamicColorRole::SurfaceTint => "surface_tint",
            DynamicColorRole::Primary => "primary",
            DynamicColorRole::OnPrimary => "on_primary",
            DynamicColorRole::PrimaryContainer => "primary_container",
            DynamicColorRole::OnPrimaryContainer => "on_primary_container",
            DynamicColorRole::InversePrimary => "inverse_primary",
            DynamicColorRole::Secondary => "secondary",
            DynamicColorRole::OnSecondary => "on_secondary",
            DynamicColorRole::SecondaryContainer => "secondary_container",
            DynamicColorRole::OnSecondaryContainer => "on_secondary_container",
            DynamicColorRole::Tertiary => "tertiary",
            DynamicColorRole::OnTertiary => "on_tertiary",
            DynamicColorRole::TertiaryContainer => "tertiary_container",
            DynamicColorRole::OnTertiaryContainer => "on_tertiary_container",
            DynamicColorRole::Error => "error",
            DynamicColorRole::OnError => "on_error",
            DynamicColorRole::ErrorContainer => "error_container",
            DynamicColorRole::OnErrorContainer => "on_error_container",
            DynamicColorRole::PrimaryFixed => "primary_fixed",
            DynamicColorRole::PrimaryFixedDim => "primary_fixed_dim",
            DynamicColorRole::OnPrimaryFixed => "on_primary_fixed",
            DynamicColorRole::OnPrimaryFixedVariant => "on_primary_fixed_variant",
            DynamicColorRole::SecondaryFixed => "secondary_fixed",
            DynamicColorRole::SecondaryFixedDim => "secondary_fixed_dim",
            DynamicColorRole::OnSecondaryFixed => "on_secondary_fixed",
            DynamicColorRole::OnSecondaryFixedVariant => "on_secondary_fixed_variant",
            DynamicColorRole::TertiaryFixed => "tertiary_fixed",
            DynamicColorRole::TertiaryFixedDim => "tertiary_fixed_dim",
            DynamicColorRole::OnTertiaryFixed => "on_tertiary_fixed",
            DynamicColorRole::OnTertiaryFixedVariant => "on_tertiary_fixed_variant",
        }
    }

    /// The role whose tone this role must contrast with.
    pub fn background(self, is_dark: bool) -> (r: Option<DynamicColorRole>)
        ensures
            r == background_of(self, is_dark),
    {
        let highest = if is_dark {
            DynamicColorRole::SurfaceBright
        } else {
            DynamicColorRole::SurfaceDim
        };
        match self {
            DynamicColorRole::OnBackground => Some(DynamicColorRole::Background),
            DynamicColorRole::OnSurface | DynamicColorRole::OnSurfaceVariant | DynamicColorRole::Outline | DynamicColorRole::OutlineVariant | DynamicColorRole::Primary | DynamicColorRole::PrimaryContainer | DynamicColorRole::Secondary | DynamicColorRole::SecondaryContainer | DynamicColorRole::Tertiary | DynamicColorRole::TertiaryContainer | DynamicColorRole::Error | DynamicColorRole::ErrorContainer | DynamicColorRole::PrimaryFixed | DynamicColorRole::PrimaryFixedDim | DynamicColorRole::SecondaryFixed | DynamicColorRole::SecondaryFixedDim | DynamicColorRole::TertiaryFixed | DynamicColorRole::TertiaryFixedDim => Some(highest),
            DynamicColorRole::InverseOnSurface | DynamicColorRole::InversePrimary => Some(DynamicColorRole::InverseSurface),
            DynamicColorRole::OnPrimary => Some(DynamicColorRole::Primary),
            DynamicColorRole::OnPrimaryContainer => Some(DynamicColorRole::PrimaryContainer),
            DynamicColorRole::OnSecondary => Some(DynamicColorRole::Secondary),
            DynamicColorRole::OnSecondaryContainer => Some(DynamicColorRole::SecondaryContainer),
            DynamicColorRole::OnTertiary => Some(DynamicColorRole::Tertiary),
            DynamicColorRole::OnTertiaryContainer => Some(DynamicColorRole::TertiaryContainer),
            DynamicColorRole::OnError => Some(DynamicColorRole::Error),
            DynamicColorRole::OnErrorContainer => Some(DynamicColorRole::ErrorContainer),
            DynamicColorRole::OnPrimaryFixed | DynamicColorRole::OnPrimaryFixedVariant => Some(DynamicColorRole::PrimaryFixedDim),
            DynamicColorRole::OnSecondaryFixed | DynamicColorRole::OnSecondaryFixedVariant => Some(DynamicColorRole::SecondaryFixedDim),
            DynamicColorRole::OnTertiaryFixed | DynamicColorRole::OnTertiaryFixedVariant => Some(DynamicColorRole::TertiaryFixedDim),
            _ => None,
        }
    }

    /// The second role that this role must contrast with.
    pub fn second_background(self) -> (r: Option<DynamicColorRole>)
        ensures
            r == second_background_of(self),
    {
        match self {
            DynamicColorRole::OnPrimaryFixed | DynamicColorRole::OnPrimaryFixedVariant => Some(DynamicColorRole::PrimaryFixed),
            DynamicColorRole::OnSecondaryFixed | DynamicColorRole::OnSecondaryFixedVariant => Some(DynamicColorRole::SecondaryFixed),
            DynamicColorRole::OnTertiaryFixed | DynamicColorRole::OnTertiaryFixedVariant => Some(DynamicColorRole::TertiaryFixed),
            _ => None,
        }
    }

    /// Whether other roles are drawn on top of this one.
    pub fn is_background(self) -> (r: bool)
        ensures
            r == is_background_role(self),
    {
        match self {
            DynamicColorRole::Background | DynamicColorRole::Surface | DynamicColorRole::SurfaceDim | DynamicColorRole::SurfaceBright | DynamicColorRole::SurfaceContainerLowest | DynamicColorRole::SurfaceContainerLow | DynamicColorRole::SurfaceContainer | DynamicColorRole::SurfaceContainerHigh | DynamicColorRole::SurfaceContainerHighest | DynamicColorRole::SurfaceVariant | DynamicColorRole::SurfaceTint | DynamicColorRole::Primary | DynamicColorRole::PrimaryContainer | DynamicColorRole::Secondary | DynamicColorRole::SecondaryContainer | DynamicColorRole::Tertiary | DynamicColorRole::TertiaryContainer | DynamicColorRole::Error | DynamicColorRole::ErrorContainer | DynamicColorRole::PrimaryFixed | DynamicColorRole::PrimaryFixedDim | DynamicColorRole::SecondaryFixed | DynamicColorRole::SecondaryFixedDim | DynamicColorRole::TertiaryFixed | DynamicColorRole::TertiaryFixedDim => true,
            _ => false,
        }
    }

    /// The palette that the role's color is taken from.
    pub fn palette_group(self) -> (r: PaletteGroup)
        ensures
            r == palette_group_of(self),
    {
        match self {
            DynamicColorRole::PrimaryPaletteKeyColor | DynamicColorRole::SurfaceTint | DynamicColorRole::Primary | DynamicColorRole::OnPrimary | DynamicColorRole::PrimaryContainer | DynamicColorRole::OnPrimaryContainer | DynamicColorRole::InversePrimary | DynamicColorRole::PrimaryFixed | DynamicColorRole::PrimaryFixedDim | DynamicColorRole::OnPrimaryFixed | DynamicColorRole::OnPrimaryFixedVariant => PaletteGroup::Primary,
            DynamicColorRole::SecondaryPaletteKeyColor | DynamicColorRole::Secondary | DynamicColorRole::OnSecondary | DynamicColorRole::SecondaryContainer | DynamicColorRole::OnSecondaryContainer | DynamicColorRole::SecondaryFixed | DynamicColorRole::SecondaryFixedDim | DynamicColorRole::OnSecondaryFixed | DynamicColorRole::OnSecondaryFixedVariant => PaletteGroup::Secondary,
            DynamicColorRole::TertiaryPaletteKeyColor | DynamicColorRole::Tertiary | DynamicColorRole::OnTertiary | DynamicColorRole::TertiaryContainer | DynamicColorRole::OnTertiaryContainer | DynamicColorRole::TertiaryFixed | DynamicColorRole::TertiaryFixedDim | DynamicColorRole::OnTertiaryFixed | DynamicColorRole::OnTertiaryFixedVariant => PaletteGroup::Tertiary,
            DynamicColorRole::NeutralVariantPaletteKeyColor | DynamicColorRole::SurfaceVariant | DynamicColorRole::OnSurfaceVariant | DynamicColorRole::Outline | DynamicColorRole::OutlineVariant => PaletteGroup::NeutralVariant,
            DynamicColorRole::Error | DynamicColorRole::OnError | DynamicColorRole::ErrorContainer | DynamicColorRole::OnErrorContainer => PaletteGroup::Error,
            _ => PaletteGroup::Neutral,
        }
    }

    /// The contrast curve that the role must meet against its background.
    pub fn contrast_curve(self) -> (r: Option<ContrastCurveKind>)
        ensures
            r == contrast_curve_of(self),
    {
        match self {
            DynamicColorRole::OnBackground => Some(ContrastCurveKind::OnBackground),
            DynamicColorRole::OnSurface | DynamicColorRole::InverseOnSurface | DynamicColorRole::OnPrimary | DynamicColorRole::OnSecondary | DynamicColorRole::OnTertiary | DynamicColorRole::OnError | DynamicColorRole::OnPrimaryFixed | DynamicColorRole::OnSecondaryFixed | DynamicColorRole::OnTertiaryFixed => Some(ContrastCurveKind::HighEmphasisText),
            DynamicColorRole::OnSurfaceVariant | DynamicColorRole::OnPrimaryContainer | DynamicColorRole::OnSecondaryContainer | DynamicColorRole::OnTertiaryContainer | DynamicColorRole::OnErrorContainer | DynamicColorRole::OnPrimaryFixedVariant | DynamicColorRole::OnSecondaryFixedVariant | DynamicColorRole::OnTertiaryFixedVariant => Some(ContrastCurveKind::LowEmphasisText),
            DynamicColorRole::Outline => Some(ContrastCurveKind::Outline),
            DynamicColorRole::OutlineVariant | DynamicColorRole::PrimaryContainer | DynamicColorRole::SecondaryContainer | DynamicColorRole::TertiaryContainer | DynamicColorRole::ErrorContainer | DynamicColorRole::PrimaryFixed | DynamicColorRole::PrimaryFixedDim | DynamicColorRole::SecondaryFixed | DynamicColorRole::SecondaryFixedDim | DynamicColorRole::TertiaryFixed | DynamicColorRole::TertiaryFixedDim => Some(ContrastCurveKind::Decoration),
            DynamicColorRole::Primary | DynamicColorRole::InversePrimary | DynamicColorRole::Secondary | DynamicColorRole::Tertiary | DynamicColorRole::Error => Some(ContrastCurveKind::Accent),
            _ => None,
        }
    }

    /// The pair of roles that this role keeps a fixed tone distance with.
    pub fn tone_partners(self) -> (r: Option<TonePartners>)
        ensures
            r == tone_partners_of(self),
    {
        match self {
            DynamicColorRole::Primary | DynamicColorRole::PrimaryContainer => Some(TonePartners { role_a: DynamicColorRole::PrimaryContainer, role_b: DynamicColorRole::Primary, polarity: TonePolarity::Nearer, stay_together: false }),
            DynamicColorRole::Secondary | DynamicColorRole::SecondaryContainer => Some(TonePartners { role_a: DynamicColorRole::SecondaryContainer, role_b: DynamicColorRole::Secondary, polarity: TonePolarity::Nearer, stay_together: false }),
            DynamicColorRole::Tertiary | DynamicColorRole::TertiaryContainer => Some(TonePartners { role_a: DynamicColorRole::TertiaryContainer, role_b: DynamicColorRole::Tertiary, polarity: TonePolarity::Nearer, stay_together: false }),
            DynamicColorRole::Error | DynamicColorRole::ErrorContainer => Some(TonePartners { role_a: DynamicColorRole::ErrorContainer, role_b: DynamicColorRole::Error, polarity: TonePolarity::Nearer, stay_together: false }),
            DynamicColorRole::PrimaryFixed | DynamicColorRole::PrimaryFixedDim => Some(TonePartners { role_a: DynamicColorRole::PrimaryFixed, role_b: DynamicColorRole::PrimaryFixedDim, polarity: TonePolarity::Lighter, stay_together: true }),
            DynamicColorRole::SecondaryFixed | DynamicColorRole::SecondaryFixedDim => Some(TonePartners { role_a: DynamicColorRole::SecondaryFixed, role_b: DynamicColorRole::SecondaryFixedDim, polarity: TonePolarity::Lighter, stay_together: true }),
            DynamicColorRole::TertiaryFixed | DynamicColorRole::TertiaryFixedDim => Some(TonePartners { role_a: DynamicColorRole::TertiaryFixed, role_b: DynamicColorRole::TertiaryFixedDim, polarity: TonePolarity::Lighter, stay_together: true }),
            _ => None,
        }
    }
}

/// Whether the first role of a pair sits nearer to the background than the
/// second, in a light (`is_dark` false) or dark scheme.
pub open spec fn first_is_nearer(polarity: TonePolarity, is_dark: bool) -> bool {
    match polarity {
        TonePolarity::Nearer => true,
        TonePolarity::Farther => false,
        TonePolarity::Lighter => !is_dark,
        TonePolarity::Darker => is_dark,
    }
}

impl TonePartners {
    /// The two roles ordered as (nearer to the background, farther from
    /// it): a lighter role is the nearer one on a light scheme, a darker
    /// role on a dark scheme.
    pub fn nearer_and_farther(self, is_dark: bool) -> (r: (DynamicColorRole, DynamicColorRole))
        ensures
            first_is_nearer(self.polarity, is_dark) ==> r == (self.role_a, self.role_b),
            !first_is_nearer(self.polarity, is_dark) ==> r == (self.role_b, self.role_a),
    {
        let a_is_nearer = match self.polarity {
            TonePolarity::Nearer => true,
            TonePolarity::Farther => false,
            TonePolarity::Lighter => !is_dark,
            TonePolarity::Darker => is_dark,
        };
        if a_is_nearer {
            (self.role_a, self.role_b)
        } else {
            (self.role_b, self.role_a)
        }
    }
}

/// How a role's tone is found before contrast adjustments. Tones are on the
/// 0 to 100 scale.
#[derive(Clone, Copy, Debug, PartialEq, Eq, Structural)]
pub enum BaseToneRule {
    /// A fixed tone.
    Fixed(u8),
    /// A tone that depends on the contrast level: the four tones at low,
    /// normal, medium and high contrast, interpolated in between.
    Curve { low: u8, normal: u8, medium: u8, high: u8 },
    /// The tone of the key color of the role's palette.
    KeyColor,
    /// The tone of the scheme's source color.
    SourceTone,
    /// The tone that reaches contrast ratio 4.5 against the base tone of the
    /// given role.
    ForegroundOf(DynamicColorRole),
    /// The tone nearest `initial`, searching toward lighter tones when
    /// `lighter` holds and darker ones otherwise, at which the role's
    /// palette reaches its chroma.
    DesiredChroma { initial: u8, lighter: bool },
    /// The tone of the role's palette color at the source tone, after
    /// correcting a disliked color.
    DislikeCorrectedSource,
}

/// The base-tone rule of every role, for a scheme of the given variant and
/// darkness. Monochrome schemes and the fidelity and content variants have
/// rules of their own for some roles.
pub open spec fn base_tone_rule_of(role: DynamicColorRole, variant: Variant, is_dark: bool) -> BaseToneRule {
    let mono = variant == Variant::Monochrome;
    let fid = variant == Variant::Fidelity || variant == Variant::Content;
    match role {
        DynamicColorRole::PrimaryPaletteKeyColor | DynamicColorRole::SecondaryPaletteKeyColor | DynamicColorRole::TertiaryPaletteKeyColor | DynamicColorRole::NeutralPaletteKeyColor | DynamicColorRole::NeutralVariantPaletteKeyColor => BaseToneRule::KeyColor,
        DynamicColorRole::Background | DynamicColorRole::Surface => if is_dark { BaseToneRule::Fixed(6) } else { BaseToneRule::Fixed(98) },
        DynamicColorRole::OnBackground | DynamicColorRole::OnSurface => if is_dark { BaseToneRule::Fixed(90) } else { BaseToneRule::Fixed(10) },
        DynamicColorRole::SurfaceDim => if is_dark { BaseToneRule::Fixed(6) } else { BaseToneRule::Curve { low: 87, normal: 87, medium: 80, high: 75 } },
        DynamicColorRole::SurfaceBright => if is_dark { BaseToneRule::Curve { low: 24, normal: 24, medium: 29, high: 34 } } else { BaseToneRule::Fixed(98) },
        DynamicColorRole::SurfaceContainerLowest => if is_dark { BaseToneRule::Curve { low: 4, normal: 4, medium: 2, high: 0 } } else { BaseToneRule::Fixed(100) },
        DynamicColorRole::SurfaceContainerLow => if is_dark { BaseToneRule::Curve { low: 10, normal: 10, medium: 11, high: 12 } } else { BaseToneRule::Curve { low: 96, normal: 96, medium: 96, high: 95 } },
        DynamicColorRole::SurfaceContainer => if is_dark { BaseToneRule::Curve { low: 12, normal: 12, medium: 16, high: 20 } } else { BaseToneRule::Curve { low: 94, normal: 94, medium: 92, high: 90 } },
        DynamicColorRole::SurfaceContainerHigh => if is_dark { BaseToneRule::Curve { low: 17, normal: 17, medium: 21, high: 25 } } else { BaseToneRule::Curve { low: 92, normal: 92, medium: 88, high: 85 } },
        DynamicColorRole::SurfaceContainerHighest => if is_dark { BaseToneRule::Curve { low: 22, normal: 22, medium: 26, high: 30 } } else { BaseToneRule::Curve { low: 90, normal: 90, medium: 84, high: 80 } },
        DynamicColorRole::SurfaceVariant => if is_dark { BaseToneRule::Fixed(30) } else { BaseToneRule::Fixed(90) },
        DynamicColorRole::OnSurfaceVariant => if is_dark { BaseToneRule::Fixed(80) } else { BaseToneRule::Fixed(30) },
        DynamicColorRole::InverseSurface => if is_dark { BaseToneRule::Fixed(90) } else { BaseToneRule::Fixed(20) },
        DynamicColorRole::InverseOnSurface => if is_dark { BaseToneRule::Fixed(20) } else { BaseToneRule::Fixed(95) },
        DynamicColorRole::Outline => if is_dark { BaseToneRule::Fixed(60) } else { BaseToneRule::Fixed(50) },
        DynamicColorRole::OutlineVariant => if is_dark { BaseToneRule::Fixed(30) } else { BaseToneRule::Fixed(80) },
        DynamicColorRole::Shadow | DynamicColorRole::Scrim => BaseToneRule::Fixed(0),
        DynamicColorRole::SurfaceTint => if is_dark { BaseToneRule::Fixed(80) } else { BaseToneRule::Fixed(40) },
        DynamicColorRole::Primary => if mono { if is_dark { BaseToneRule::Fixed(100) } else { BaseToneRule::Fixed(0) } } else { if is_dark { BaseToneRule::Fixed(80) } else { BaseToneRule::Fixed(40) } },
        DynamicColorRole::OnPrimary => if mono { if is_dark { BaseToneRule::Fixed(10) } else { BaseToneRule::Fixed(90) } } else { if is_dark { BaseToneRule::Fixed(20) } else { BaseToneRule::Fixed(100) } },
        DynamicColorRole::PrimaryContainer => if fid { BaseToneRule::SourceTone } else { if mono { if is_dark { BaseToneRule::Fixed(85) } else { BaseToneRule::Fixed(25) } } else { if is_dark { BaseToneRule::Fixed(30) } else { BaseToneRule::Fixed(90) } } },
        DynamicColorRole::OnPrimaryContainer => if fid { BaseToneRule::ForegroundOf(DynamicColorRole::PrimaryContainer) } else { if mono { if is_dark { BaseToneRule::Fixed(0) } else { BaseToneRule::Fixed(100) } } else { if is_dark { BaseToneRule::Fixed(90) } else { BaseToneRule::Fixed(30) } } },
        DynamicColorRole::InversePrimary => if is_dark { BaseToneRule::Fixed(40) } else { BaseToneRule::Fixed(80) },
        DynamicColorRole::Secondary => if is_dark { BaseToneRule::Fixed(80) } else { BaseToneRule::Fixed(40) },
        DynamicColorRole::OnSecondary => if mono { if is_dark { BaseToneRule::Fixed(10) } else { BaseToneRule::Fixed(100) } } else { if is_dark { BaseToneRule::Fixed(20) } else { BaseToneRule::Fixed(100) } },
        DynamicColorRole::SecondaryContainer => if mono { if is_dark { BaseToneRule::Fixed(30) } else { BaseToneRule::Fixed(85) } } else if fid { BaseToneRule::DesiredChroma { initial: if is_dark { 30 } else { 90 }, lighter: is_dark } } else { if is_dark { BaseToneRule::Fixed(30) } else { BaseToneRule::Fixed(90) } },
        DynamicColorRole::OnSecondaryContainer => if mono { if is_dark { BaseToneRule::Fixed(90) } else { BaseToneRule::Fixed(10) } } else if fid { BaseToneRule::ForegroundOf(DynamicColorRole::SecondaryContainer) } else { if is_dark { BaseToneRule::Fixed(90) } else { BaseToneRule::Fixed(30) } },
        DynamicColorRole::Tertiary => if mono { if is_dark { BaseToneRule::Fixed(90) } else { BaseToneRule::Fixed(25) } } else { if is_dark { BaseToneRule::Fixed(80) } else { BaseToneRule::Fixed(40) } },
        DynamicColorRole::OnTertiary => if mono { if is_dark { BaseToneRule::Fixed(10) } else { BaseToneRule::Fixed(90) } } else { if is_dark { BaseToneRule::Fixed(20) } else { BaseToneRule::Fixed(100) } },
        DynamicColorRole::TertiaryContainer => if mono { if is_dark { BaseToneRule::Fixed(60) } else { BaseToneRule::Fixed(49) } } else if fid { BaseToneRule::DislikeCorrectedSource } else { if is_dark { BaseToneRule::Fixed(30) } else { BaseToneRule::Fixed(90) } },
        DynamicColorRole::OnTertiaryContainer => if mono { if is_dark { BaseToneRule::Fixed(0) } else { BaseToneRule::Fixed(100) } } else if fid { BaseToneRule::ForegroundOf(DynamicColorRole::TertiaryContainer) } else { if is_dark { BaseToneRule::Fixed(90) } else { BaseToneRule::Fixed(30) } },
        DynamicColorRole::Error => if is_dark { BaseToneRule::Fixed(80) } else { BaseToneRule::Fixed(40) },
        DynamicColorRole::OnError => if is_dark { BaseToneRule::Fixed(20) } else { BaseToneRule::Fixed(100) },
        DynamicColorRole::ErrorContainer => if is_dark { BaseToneRule::Fixed(30) } else { BaseToneRule::Fixed(90) },
        DynamicColorRole::OnErrorContainer => if mono { if is_dark { BaseToneRule::Fixed(90) } else { BaseToneRule::Fixed(10) } } else { if is_dark { BaseToneRule::Fixed(90) } else { BaseToneRule::Fixed(30) } },
        DynamicColorRole::PrimaryFixed => if mono { BaseToneRule::Fixed(40) } else { BaseToneRule::Fixed(90) },
        DynamicColorRole::PrimaryFixedDim => if mono { BaseToneRule::Fixed(30) } else { BaseToneRule::Fixed(80) },
        DynamicColorRole::OnPrimaryFixed => if mono { BaseToneRule::Fixed(100) } else { BaseToneRule::Fixed(10) },
        DynamicColorRole::OnPrimaryFixedVariant => if mono { BaseToneRule::Fixed(90) } else { BaseToneRule::Fixed(30) },
        DynamicColorRole::SecondaryFixed => if mono { BaseToneRule::Fixed(80) } else { BaseToneRule::Fixed(90) },
        DynamicColorRole::SecondaryFixedDim => if mono { BaseToneRule::Fixed(70) } else { BaseToneRule::Fixed(80) },
        DynamicColorRole::OnSecondaryFixed => BaseToneRule::Fixed(10),
        DynamicColorRole::OnSecondaryFixedVariant => if mono { BaseToneRule::Fixed(25) } else { BaseToneRule::Fixed(30) },
        DynamicColorRole::TertiaryFixed => if mono { BaseToneRule::Fixed(40) } else { BaseToneRule::Fixed(90) },
        DynamicColorRole::TertiaryFixedDim => if mono { BaseToneRule::Fixed(30) } else { BaseToneRule::Fixed(80) },
        DynamicColorRole::OnTertiaryFixed => if mono { BaseToneRule::Fixed(100) } else { BaseToneRule::Fixed(10) },
        DynamicColorRole::OnTertiaryFixedVariant => if mono { BaseToneRule::Fixed(90) } else { BaseToneRule::Fixed(30) },
    }
}

impl DynamicColorRole {
    /// The rule that gives this role's tone before contrast adjustments.
    pub fn base_tone_rule(self, variant: Variant, is_dark: bool) -> (r: BaseToneRule)
        ensures
            r == base_tone_rule_of(self, variant, is_dark),
            r matches BaseToneRule::Fixed(t) ==> t <= 100,
            r matches BaseToneRule::Curve { low, normal, medium, high } ==> low <= 100 && normal
                <= 100 && medium <= 100 && high <= 100,
            r matches BaseToneRule::DesiredChroma { initial, lighter } ==> initial <= 100,
            (variant != Variant::Fidelity && variant != Variant::Content) ==> !(r is SourceTone
                || r is ForegroundOf || r is DesiredChroma || r is DislikeCorrectedSource),
            (r is KeyColor) == (palette_key_role(self)),
    {
        let mono = variant == Variant::Monochrome;
        let fid = variant == Variant::Fidelity || variant == Variant::Content;
        match self {
            DynamicColorRole::PrimaryPaletteKeyColor | DynamicColorRole::SecondaryPaletteKeyColor | DynamicColorRole::TertiaryPaletteKeyColor | DynamicColorRole::NeutralPaletteKeyColor | DynamicColorRole::NeutralVariantPaletteKeyColor => BaseToneRule::KeyColor,
            DynamicColorRole::Background | DynamicColorRole::Surface => if is_dark { BaseToneRule::Fixed(6) } else { BaseToneRule::Fixed(98) },
            DynamicColorRole::OnBackground | DynamicColorRole::OnSurface => if is_dark { BaseToneRule::Fixed(90) } else { BaseToneRule::Fixed(10) },
            DynamicColorRole::SurfaceDim => if is_dark { BaseToneRule::Fixed(6) } else { BaseToneRule::Curve { low: 87, normal: 87, medium: 80, high: 75 } },
            DynamicColorRole::SurfaceBright => if is_dark { BaseToneRule::Curve { low: 24, normal: 24, medium: 29, high: 34 } } else { BaseToneRule::Fixed(98) },
            DynamicColorRole::SurfaceContainerLowest => if is_dark { BaseToneRule::Curve { low: 4, normal: 4, medium: 2, high: 0 } } else { BaseToneRule::Fixed(100) },
            DynamicColorRole::SurfaceContainerLow => if is_dark { BaseToneRule::Curve { low: 10, normal: 10, medium: 11, high: 12 } } else { BaseToneRule::Curve { low: 96, normal: 96, medium: 96, high: 95 } },
            DynamicColorRole::SurfaceContainer => if is_dark { BaseToneRule::Curve { low: 12, normal: 12, medium: 16, high: 20 } } else { BaseToneRule::Curve { low: 94, normal: 94, medium: 92, high: 90 } },
            DynamicColorRole::SurfaceContainerHigh => if is_dark { BaseToneRule::Curve { low: 17, normal: 17, medium: 21, high: 25 } } else { BaseToneRule::Curve { low: 92, normal: 92, medium: 88, high: 85 } },
            DynamicColorRole::SurfaceContainerHighest => if is_dark { BaseToneRule::Curve { low: 22, normal: 22, medium: 26, high: 30 } } else { BaseToneRule::Curve { low: 90, normal: 90, medium: 84, high: 80 } },
            DynamicColorRole::SurfaceVariant => if is_dark { BaseToneRule::Fixed(30) } else { BaseToneRule::Fixed(90) },
            DynamicColorRole::OnSurfaceVariant => if is_dark { BaseToneRule::Fixed(80) } else { BaseToneRule::Fixed(30) },
            DynamicColorRole::InverseSurface => if is_dark { BaseToneRule::Fixed(90) } else { BaseToneRule::Fixed(20) },
            DynamicColorRole::InverseOnSurface => if is_dark { BaseToneRule::Fixed(20) } else { BaseToneRule::Fixed(95) },
            DynamicColorRole::Outline => if is_dark { BaseToneRule::Fixed(60) } else { BaseToneRule::Fixed(50) },
            DynamicColorRole::OutlineVariant => if is_dark { BaseToneRule::Fixed(30) } else { BaseToneRule::Fixed(80) },
            DynamicColorRole::Shadow | DynamicColorRole::Scrim => BaseToneRule::Fixed(0),
            DynamicColorRole::SurfaceTint => if is_dark { BaseToneRule::Fixed(80) } else { BaseToneRule::Fixed(40) },
            DynamicColorRole::Primary => if mono { if is_dark { BaseToneRule::Fixed(100) } else { BaseToneRule::Fixed(0) } } else { if is_dark { BaseToneRule::Fixed(80) } else { BaseToneRule::Fixed(40) } },
            DynamicColorRole::OnPrimary => if mono { if is_dark { BaseToneRule::Fixed(10) } else { BaseToneRule::Fixed(90) } } else { if is_dark { BaseToneRule::Fixed(20) } else { BaseToneRule::Fixed(100) } },
            DynamicColorRole::PrimaryContainer => if fid { BaseToneRule::SourceTone } else { if mono { if is_dark { BaseToneRule::Fixed(85) } else { BaseToneRule::Fixed(25) } } else { if is_dark { BaseToneRule::Fixed(30) } else { BaseToneRule::Fixed(90) } } },
            DynamicColorRole::OnPrimaryContainer => if fid { BaseToneRule::ForegroundOf(DynamicColorRole::PrimaryContainer) } else { if mono { if is_dark { BaseToneRule::Fixed(0) } else { BaseToneRule::Fixed(100) } } else { if is_dark { BaseToneRule::Fixed(90) } else { BaseToneRule::Fixed(30) } } },
            DynamicColorRole::InversePrimary => if is_dark { BaseToneRule::Fixed(40) } else { BaseToneRule::Fixed(80) },
            DynamicColorRole::Secondary => if is_dark { BaseToneRule::Fixed(80) } else { BaseToneRule::Fixed(40) },
            DynamicColorRole::OnSecondary => if mono { if is_dark { BaseToneRule::Fixed(10) } else { BaseToneRule::Fixed(100) } } else { if is_dark { BaseToneRule::Fixed(20) } else { BaseToneRule::Fixed(100) } },
            DynamicColorRole::SecondaryContainer => if mono { if is_dark { BaseToneRule::Fixed(30) } else { BaseToneRule::Fixed(85) } } else if fid { BaseToneRule::DesiredChroma { initial: if is_dark { 30 } else { 90 }, lighter: is_dark } } else { if is_dark { BaseToneRule::Fixed(30) } else { BaseToneRule::Fixed(90) } },
            DynamicColorRole::OnSecondaryContainer => if mono { if is_dark { BaseToneRule::Fixed(90) } else { BaseToneRule::Fixed(10) } } else if fid { BaseToneRule::ForegroundOf(DynamicColorRole::SecondaryContainer) } else { if is_dark { BaseToneRule::Fixed(90) } else { BaseToneRule::Fixed(30) } },
            DynamicColorRole::Tertiary => if mono { if is_dark { BaseToneRule::Fixed(90) } else { BaseToneRule::Fixed(25) } } else { if is_dark { BaseToneRule::Fixed(80) } else { BaseToneRule::Fixed(40) } },
            DynamicColorRole::OnTertiary => if mono { if is_dark { BaseToneRule::Fixed(10) } else { BaseToneRule::Fixed(90) } } else { if is_dark { BaseToneRule::Fixed(20) } else { BaseToneRule::Fixed(100) } },
            DynamicColorRole::TertiaryContainer => if mono { if is_dark { BaseToneRule::Fixed(60) } else { BaseToneRule::Fixed(49) } } else if fid { BaseToneRule::DislikeCorrectedSource } else { if is_dark { BaseToneRule::Fixed(30) } else { BaseToneRule::Fixed(90) } },
            DynamicColorRole::OnTertiaryContainer => if mono { if is_dark { BaseToneRule::Fixed(0) } else { BaseToneRule::Fixed(100) } } else if fid { BaseToneRule::ForegroundOf(DynamicColorRole::TertiaryContainer) } else { if is_dark { BaseToneRule::Fixed(90) } else { BaseToneRule::Fixed(30) } },
            DynamicColorRole::Error => if is_dark { BaseToneRule::Fixed(80) } else { BaseToneRule::Fixed(40) },
            DynamicColorRole::OnError => if is_dark { BaseToneRule::Fixed(20) } else { BaseToneRule::Fixed(100) },
            DynamicColorRole::ErrorContainer => if is_dark { BaseToneRule::Fixed(30) } else { BaseToneRule::Fixed(90) },
            DynamicColorRole::OnErrorContainer => if mono { if is_dark { BaseToneRule::Fixed(90) } else { BaseToneRule::Fixed(10) } } else { if is_dark { BaseToneRule::Fixed(90) } else { BaseToneRule::Fixed(30) } },
            DynamicColorRole::PrimaryFixed => if mono { BaseToneRule::Fixed(40) } else { BaseToneRule::Fixed(90) },
            DynamicColorRole::PrimaryFixedDim => if mono { BaseToneRule::Fixed(30) } else { BaseToneRule::Fixed(80) },
            DynamicColorRole::OnPrimaryFixed => if mono { BaseToneRule::Fixed(100) } else { BaseToneRule::Fixed(10) },
            DynamicColorRole::OnPrimaryFixedVariant => if mono { BaseToneRule::Fixed(90) } else { BaseToneRule::Fixed(30) },
            DynamicColorRole::SecondaryFixed => if mono { BaseToneRule::Fixed(80) } else { BaseToneRule::Fixed(90) },
            DynamicColorRole::SecondaryFixedDim => if mono { BaseToneRule::Fixed(70) } else { BaseToneRule::Fixed(80) },
            DynamicColorRole::OnSecondaryFixed => BaseToneRule::Fixed(10),
            DynamicColorRole::OnSecondaryFixedVariant => if mono { BaseToneRule::Fixed(25) } else { BaseToneRule::Fixed(30) },
            DynamicColorRole::TertiaryFixed => if mono { BaseToneRule::Fixed(40) } else { BaseToneRule::Fixed(90) },
            DynamicColorRole::TertiaryFixedDim => if mono { BaseToneRule::Fixed(30) } else { BaseToneRule::Fixed(80) },
            DynamicColorRole::OnTertiaryFixed => if mono { BaseToneRule::Fixed(100) } else { BaseToneRule::Fixed(10) },
            DynamicColorRole::OnTertiaryFixedVariant => if mono { BaseToneRule::Fixed(90) } else { BaseToneRule::Fixed(30) },
        }
    }
}

/// Whether the role is the key color of one of the five palettes.
pub open spec fn palette_key_role(role: DynamicColorRole) -> bool {
    ||| role == DynamicColorRole::PrimaryPaletteKeyColor
    ||| role == DynamicColorRole::SecondaryPaletteKeyColor
    ||| role == DynamicColorRole::TertiaryPaletteKeyColor
    ||| role == DynamicColorRole::NeutralPaletteKeyColor
    ||| role == DynamicColorRole::NeutralVariantPaletteKeyColor
}

/// A role whose base tone is a foreground of another role depends on a role
/// whose base tone is not itself a foreground, so base tones never depend on
/// each other in a cycle; and that role is the container the foreground sits
/// on.
pub proof fn lemma_foreground_targets_end(role: DynamicColorRole, variant: Variant, is_dark: bool)
    ensures
        base_tone_rule_of(role, variant, is_dark) matches BaseToneRule::ForegroundOf(other) ==> {
            &&& !(base_tone_rule_of(other, variant, is_dark) is ForegroundOf)
            &&& background_of(role, is_dark) == Some(other)
        },
{
}

/// The roles named for the primary palette: its key color, the primary
/// colors, their containers and fixed variants, and the colors drawn on
/// them.
pub open spec fn primary_family(role: DynamicColorRole) -> bool {
    role == DynamicColorRole::PrimaryPaletteKeyColor || role == DynamicColorRole::Primary || role == DynamicColorRole::OnPrimary || role == DynamicColorRole::PrimaryContainer || role == DynamicColorRole::OnPrimaryContainer || role == DynamicColorRole::InversePrimary || role == DynamicColorRole::PrimaryFixed || role == DynamicColorRole::PrimaryFixedDim || role == DynamicColorRole::OnPrimaryFixed || role == DynamicColorRole::OnPrimaryFixedVariant
}

/// The roles named for the secondary palette.
pub open spec fn secondary_family(role: DynamicColorRole) -> bool {
    role == DynamicColorRole::SecondaryPaletteKeyColor || role == DynamicColorRole::Secondary || role == DynamicColorRole::OnSecondary || role == DynamicColorRole::SecondaryContainer || role == DynamicColorRole::OnSecondaryContainer || role == DynamicColorRole::SecondaryFixed || role == DynamicColorRole::SecondaryFixedDim || role == DynamicColorRole::OnSecondaryFixed || role == DynamicColorRole::OnSecondaryFixedVariant
}

/// The roles named for the tertiary palette.
pub open spec fn tertiary_family(role: DynamicColorRole) -> bool {
    role == DynamicColorRole::TertiaryPaletteKeyColor || role == DynamicColorRole::Tertiary || role == DynamicColorRole::OnTertiary || role == DynamicColorRole::TertiaryContainer || role == DynamicColorRole::OnTertiaryContainer || role == DynamicColorRole::TertiaryFixed || role == DynamicColorRole::TertiaryFixedDim || role == DynamicColorRole::OnTertiaryFixed || role == DynamicColorRole::OnTertiaryFixedVariant
}

/// The roles named for the error palette.
pub open spec fn error_family(role: DynamicColorRole) -> bool {
    role == DynamicColorRole::Error || role == DynamicColorRole::OnError || role == DynamicColorRole::ErrorContainer || role == DynamicColorRole::OnErrorContainer
}

/// Every role named for a palette draws its color from that palette.
pub proof fn lemma_families_use_their_palette(role: DynamicColorRole)
    ensures
        primary_family(role) ==> palette_group_of(role) == PaletteGroup::Primary,
        secondary_family(role) ==> palette_group_of(role) == PaletteGroup::Secondary,
        tertiary_family(role) ==> palette_group_of(role) == PaletteGroup::Tertiary,
        error_family(role) ==> palette_group_of(role) == PaletteGroup::Error,
{
}

/// Whether `role` is named as drawn on `under`: on-primary on primary,
/// on-primary-container on primary-container, and so on.
pub open spec fn drawn_on(role: DynamicColorRole, under: DynamicColorRole) -> bool {
    ||| (role, under) == (DynamicColorRole::OnPrimary, DynamicColorRole::Primary)
    ||| (role, under) == (DynamicColorRole::OnPrimaryContainer, DynamicColorRole::PrimaryContainer)
    ||| (role, under) == (DynamicColorRole::OnSecondary, DynamicColorRole::Secondary)
    ||| (role, under) == (DynamicColorRole::OnSecondaryContainer, DynamicColorRole::SecondaryContainer)
    ||| (role, under) == (DynamicColorRole::OnTertiary, DynamicColorRole::Tertiary)
    ||| (role, under) == (DynamicColorRole::OnTertiaryContainer, DynamicColorRole::TertiaryContainer)
    ||| (role, under) == (DynamicColorRole::OnError, DynamicColorRole::Error)
    ||| (role, under) == (DynamicColorRole::OnErrorContainer, DynamicColorRole::ErrorContainer)
    ||| (role, under) == (DynamicColorRole::OnBackground, DynamicColorRole::Background)
    ||| (role, under) == (DynamicColorRole::InverseOnSurface, DynamicColorRole::InverseSurface)
}

/// A role drawn on another has that role as its background, in light and
/// dark schemes alike.
pub proof fn lemma_on_roles_sit_on_their_role(role: DynamicColorRole, under: DynamicColorRole, is_dark: bool)
    requires
        drawn_on(role, under),
    ensures
        background_of(role, is_dark) == Some(under),
{
}

/// Light schemes give the surface a tone above 50 and the inverse surface
/// one below; dark schemes the reverse. The colors drawn on them, and the
/// primary color and its inverse, likewise sit on opposite sides of 50.
pub proof fn lemma_inverse_roles_opposite(variant: Variant, is_dark: bool)
    ensures
        base_tone_rule_of(DynamicColorRole::Surface, variant, is_dark) matches BaseToneRule::Fixed(t) && (t > 50)
            == !is_dark,
        base_tone_rule_of(DynamicColorRole::InverseSurface, variant, is_dark) matches BaseToneRule::Fixed(t) && (t
            > 50) == is_dark,
        base_tone_rule_of(DynamicColorRole::OnSurface, variant, is_dark) matches BaseToneRule::Fixed(t) && (t > 50)
            == is_dark,
        base_tone_rule_of(DynamicColorRole::InverseOnSurface, variant, is_dark) matches BaseToneRule::Fixed(t) && (
        t > 50) == !is_dark,
        base_tone_rule_of(DynamicColorRole::Primary, variant, is_dark) matches BaseToneRule::Fixed(t) && (t > 50)
            == is_dark,
        base_tone_rule_of(DynamicColorRole::InversePrimary, variant, is_dark) matches BaseToneRule::Fixed(t) && (t
            > 50) == !is_dark,
{
}

/// The role with numeric value `value`, if there is one.
pub fn role_from_i32(value: i32) -> (r: Option<DynamicColorRole>)
    ensures
        r is Some <==> 0 <= value < 54,
        r matches Some(role) ==> role_index(role) == value,
{
    match value {
        0 => Some(DynamicColorRole::PrimaryPaletteKeyColor),
        1 => Some(DynamicColorRole::SecondaryPaletteKeyColor),
        2 => Some(DynamicColorRole::TertiaryPaletteKeyColor),
        3 => Some(DynamicColorRole::NeutralPaletteKeyColor),
        4 => Some(DynamicColorRole::NeutralVariantPaletteKeyColor),
        5 => Some(DynamicColorRole::Background),
        6 => Some(DynamicColorRole::OnBackground),
        7 => Some(DynamicColorRole::Surface),
        8 => Some(DynamicColorRole::SurfaceDim),
        9 => Some(DynamicColorRole::SurfaceBright),
        10 => Some(DynamicColorRole::SurfaceContainerLowest),
        11 => Some(DynamicColorRole::SurfaceContainerLow),
        12 => Some(DynamicColorRole::SurfaceContainer),
        13 => Some(DynamicColorRole::SurfaceContainerHigh),
        14 => Some(DynamicColorRole::SurfaceContainerHighest),
        15 => Some(DynamicColorRole::OnSurface),
        16 => Some(DynamicColorRole::SurfaceVariant),
        17 => Some(DynamicColorRole::OnSurfaceVariant),
        18 => Some(DynamicColorRole::InverseSurface),
        19 => Some(DynamicColorRole::InverseOnSurface),
        20 => Some(DynamicColorRole::Outline),
        21 => Some(DynamicColorRole::OutlineVariant),
        22 => Some(DynamicColorRole::Shadow),
        23 => Some(DynamicColorRole::Scrim),
        24 => Some(DynamicColorRole::SurfaceTint),
        25 => Some(DynamicColorRole::Primary),
        26 => Some(DynamicColorRole::OnPrimary),
        27 => Some(DynamicColorRole::PrimaryContainer),
        28 => Some(DynamicColorRole::OnPrimaryContainer),
        29 => Some(DynamicColorRole::InversePrimary),
        30 => Some(DynamicColorRole::Secondary),
        31 => Some(DynamicColorRole::OnSecondary),
        32 => Some(DynamicColorRole::SecondaryContainer),
        33 => Some(DynamicColorRole::OnSecondaryContainer),
        34 => Some(DynamicColorRole::Tertiary),
        35 => Some(DynamicColorRole::OnTertiary),
        36 => Some(DynamicColorRole::TertiaryContainer),
        37 => Some(DynamicColorRole::OnTertiaryContainer),
        38 => Some(DynamicColorRole::Error),
        39 => Some(DynamicColorRole::OnError),
        40 => Some(DynamicColorRole::ErrorContainer),
        41 => Some(DynamicColorRole::OnErrorContainer),
        42 => Some(DynamicColorRole::PrimaryFixed),
        43 => Some(DynamicColorRole::PrimaryFixedDim),
        44 => Some(DynamicColorRole::OnPrimaryFixed),
        45 => Some(DynamicColorRole::OnPrimaryFixedVariant),
        46 => Some(DynamicColorRole::SecondaryFixed),
        47 => Some(DynamicColorRole::SecondaryFixedDim),
        48 => Some(DynamicColorRole::OnSecondaryFixed),
        49 => Some(DynamicColorRole::OnSecondaryFixedVariant),
        50 => Some(DynamicColorRole::TertiaryFixed),
        51 => Some(DynamicColorRole::TertiaryFixedDim),
        52 => Some(DynamicColorRole::OnTertiaryFixed),
        53 => Some(DynamicColorRole::OnTertiaryFixedVariant),
        _ => None,
    }
}

/// Different roles have different numeric values, all in `0..54`.
pub proof fn lemma_role_index_injective(a: DynamicColorRole, b: DynamicColorRole)
    ensures
        0 <= role_index(a) < 54,
        role_index(a) == role_index(b) ==> a == b,
{
}

/// `DynamicColorRole::ALL` lists every role at the position of its numeric
/// value.
pub proof fn lemma_all_in_index_order(i: int)
    requires
        0 <= i < 54,
    ensures
        role_index(DynamicColorRole::ALL@[i]) == i,
{
}

/// Following backgrounds from any role reaches a role without a background
/// in at most three steps, so resolving a tone through backgrounds ends.
pub proof fn lemma_background_chain_ends(role: DynamicColorRole, is_dark: bool)
    ensures
        match background_of(role, is_dark) {
            None => true,
            Some(b1) => match background_of(b1, is_dark) {
                None => true,
                Some(b2) => match background_of(b2, is_dark) {
                    None => true,
                    Some(b3) => background_of(b3, is_dark) is None,
                },
            },
        },
        match second_background_of(role) {
            None => true,
            Some(s1) => match background_of(s1, is_dark) {
                None => true,
                Some(s2) => background_of(s2, is_dark) is None,
            },
        },
{
}

/// A role that is measured against a background has a contrast curve to
/// measure with, and a role with a second background also has a first one.
pub proof fn lemma_backgrounds_have_curves(role: DynamicColorRole, is_dark: bool)
    ensures
        background_of(role, is_dark) is Some ==> contrast_curve_of(role) is Some,
        second_background_of(role) is Some ==> background_of(role, is_dark) is Some,
{
}

/// Tone partners name the role itself, both partners share the same pair,
/// and both have a background and a contrast curve.
pub proof fn lemma_tone_partners_consistent(role: DynamicColorRole, is_dark: bool)
    ensures
        tone_partners_of(role) matches Some(p) ==> {
            &&& role == p.role_a || role == p.role_b
            &&& p.role_a != p.role_b
            &&& tone_partners_of(p.role_a) == Some(p)
            &&& tone_partners_of(p.role_b) == Some(p)
            &&& background_of(p.role_a, is_dark) is Some
            &&& background_of(p.role_b, is_dark) is Some
            &&& contrast_curve_of(p.role_a) is Some
            &&& contrast_curve_of(p.role_b) is Some
        },
{
}

} // verus!
