use vstd::prelude::*;

verus! {

/// The recipe that turns a source color into a scheme's palettes.
#[derive(Clone, Copy, Debug, Eq, PartialEq, Hash, Structural)]
pub enum Variant {
    Monochrome,
    Neutral,
    TonalSpot,
    Vibrant,
    Expressive,
    Fidelity,
    Content,
    Rainbow,
    FruitSalad,
}

/// The numeric value of a variant.
pub open spec fn variant_index(v: Variant) -> int {
    match v {
        Variant::Monochrome => 0,
        Variant::Neutral => 1,
        Variant::TonalSpot => 2,
        Variant::Vibrant => 3,
        Variant::Expressive => 4,
        Variant::Fidelity => 5,
        Variant::Content => 6,
        Variant::Rainbow => 7,
        Variant::FruitSalad => 8,
    }
}

/// The snake-case name of a variant.
pub open spec fn variant_name(v: Variant) -> Seq<char> {
    match v {
        Variant::Monochrome => "monochrome"@,
        Variant::Neutral => "neutral"@,
        Variant::TonalSpot => "tonal_spot"@,
        Variant::Vibrant => "vibrant"@,
        Variant::Expressive => "expressive"@,
        Variant::Fidelity => "fidelity"@,
        Variant::Content => "content"@,
        Variant::Rainbow => "rainbow"@,
        Variant::FruitSalad => "fruit_salad"@,
    }
}

impl Variant {
    /// The snake-case name of the variant.
    pub fn name(self) -> (r: &'static str)
        ensures
            r@ == variant_name(self),
    {
        match self {
            Self::Monochrome => "monochrome",
            Self::Neutral => "neutral",
            Self::TonalSpot => "tonal_spot",
            Self::Vibrant => "vibrant",
            Self::Expressive => "expressive",
            Self::Fidelity => "fidelity",
            Self::Content => "content",
            Self::Rainbow => "rainbow",
            Self::FruitSalad => "fruit_salad",
        }
    }
}

/// The variant with numeric value `value`, if there is one.
pub fn variant_from_i32(value: i32) -> (r: Option<Variant>)
    ensures
        r is Some <==> 0 <= value < 9,
        r matches Some(v) ==> variant_index(v) == value,
{
    match value {
        0 => Some(Variant::Monochrome),
        1 => Some(Variant::Neutral),
        2 => Some(Variant::TonalSpot),
        3 => Some(Variant::Vibrant),
        4 => Some(Variant::Expressive),
        5 => Some(Variant::Fidelity),
        6 => Some(Variant::Content),
        7 => Some(Variant::Rainbow),
        8 => Some(Variant::FruitSalad),
        _ => None,
    }
}

/// Different variants have different numeric values, all in `0..9`, so the
/// numeric value of a variant reads back as that variant.
pub proof fn lemma_variant_index_injective(a: Variant, b: Variant)
    ensures
        0 <= variant_index(a) < 9,
        variant_index(a) == variant_index(b) ==> a == b,
{
}

} // verus!
