use vstd::prelude::*;

verus! {

/// The alpha channel of a packed 32-bit ARGB value.
pub open spec fn alpha_of(v: u32) -> u8 {
    (v / 0x0100_0000) as u8
}

/// The red channel of a packed 32-bit ARGB value.
pub open spec fn red_of(v: u32) -> u8 {
    ((v / 0x0001_0000) % 0x100) as u8
}

/// The green channel of a packed 32-bit ARGB value.
pub open spec fn green_of(v: u32) -> u8 {
    ((v / 0x100) % 0x100) as u8
}

/// The blue channel of a packed 32-bit ARGB value.
pub open spec fn blue_of(v: u32) -> u8 {
    (v % 0x100) as u8
}

/// The packed value of the fully opaque color with the given channels.
pub open spec fn pack_opaque(red: u8, green: u8, blue: u8) -> u32 {
    (0xff00_0000 + red * 0x1_0000 + green * 0x100 + blue) as u32
}

/// A color packed as `0xAARRGGBB`.
#[derive(Clone, Copy, Debug, Default, Eq, Hash, Ord, PartialEq, PartialOrd)]
pub struct Argb(u32);

impl View for Argb {
    type V = u32;

    /// The packed 32-bit value.
    closed spec fn view(&self) -> u32 {
        self.0
    }
}

proof fn lemma_channels(v: u32)
    ensures
        (v & 0xff00_0000) >> 24 == v / 0x0100_0000,
        (v & 0x00ff_0000) >> 16 == (v / 0x0001_0000) % 0x100,
        (v & 0x0000_ff00) >> 8 == (v / 0x100) % 0x100,
        v & 0x0000_00ff == v % 0x100,
        v / 0x0100_0000 < 0x100,
{
    assert((v & 0xff00_0000) >> 24 == v / 0x0100_0000) by (bit_vector);
    assert((v & 0x00ff_0000) >> 16 == (v / 0x0001_0000) % 0x100) by (bit_vector);
    assert((v & 0x0000_ff00) >> 8 == (v / 0x100) % 0x100) by (bit_vector);
    assert(v & 0x0000_00ff == v % 0x100) by (bit_vector);
}

proof fn lemma_pack(r: u32, g: u32, b: u32)
    requires
        r < 0x100,
        g < 0x100,
        b < 0x100,
    ensures
        0xff00_0000u32 | (r << 16) | (g << 8) | b == 0xff00_0000 + r * 0x1_0000 + g * 0x100 + b,
{
    assert(0xff00_0000u32 | (r << 16) | (g << 8) | b == 0xff00_0000 + r * 0x1_0000 + g * 0x100
        + b) by (bit_vector)
        requires
            r < 0x100,
            g < 0x100,
            b < 0x100,
    ;
}

/// Two colors are equal exactly when their packed values are.
pub proof fn lemma_view_injective(a: Argb, b: Argb)
    ensures
        (a@ == b@) == (a == b),
{
}

impl Argb {
    /// Opaque black, `0xff000000`.
    pub fn black() -> (r: Self)
        ensures
            r@ == 0xff00_0000,
    {
        Self(0xff00_0000)
    }

    /// Opaque white, `0xffffffff`.
    pub fn white() -> (r: Self)
        ensures
            r@ == 0xffff_ffff,
    {
        Self(0xffff_ffff)
    }

    /// The color with packed value `value`.
    pub fn new(value: u32) -> (r: Self)
        ensures
            r@ == value,
    {
        Self(value)
    }

    /// The fully opaque color with the given channels.
    pub fn from_rgb(red: u8, green: u8, blue: u8) -> (r: Self)
        ensures
            r@ == pack_opaque(red, green, blue),
    {
        proof {
            lemma_pack(red as u32, green as u32, blue as u32);
        }
        Self(0xff00_0000 | ((red as u32) << 16) | ((green as u32) << 8) | blue as u32)
    }

    /// The packed value.
    pub fn to_u32(self) -> (r: u32)
        ensures
            r == self@,
    {
        self.0
    }

    /// The alpha channel (bits 24..32).
    pub fn alpha(self) -> (r: u8)
        ensures
            r == alpha_of(self@),
    {
        proof {
            lemma_channels(self.0);
        }
        ((self.0 & 0xff00_0000) >> 24) as u8
    }

    /// The red channel (bits 16..24).
    pub fn red(self) -> (r: u8)
        ensures
            r == red_of(self@),
    {
        proof {
            lemma_channels(self.0);
        }
        ((self.0 & 0x00ff_0000) >> 16) as u8
    }

    /// The green channel (bits 8..16).
    pub fn green(self) -> (r: u8)
        ensures
            r == green_of(self@),
    {
        proof {
            lemma_channels(self.0);
        }
        ((self.0 & 0x0000_ff00) >> 8) as u8
    }

    /// The blue channel (bits 0..8).
    pub fn blue(self) -> (r: u8)
        ensures
            r == blue_of(self@),
    {
        proof {
            lemma_channels(self.0);
        }
        (self.0 & 0x0000_00ff) as u8
    }

    /// Whether the alpha channel is 255.
    pub fn is_opaque(self) -> (r: bool)
        ensures
            r == (alpha_of(self@) == 0xff),
    {
        self.alpha() == 0xff
    }
}

impl From<u32> for Argb {
    /// The color with packed value `value`.
    fn from(value: u32) -> (r: Self)
        ensures
            r@ == value,
    {
        let r = Self::new(value);
        proof {
            let c = choose|a: Argb| a@ == value;
            assert(c@ == value);
            assert(c == r);
        }
        r
    }
}

impl vstd::std_specs::convert::FromSpecImpl<u32> for Argb {
    open spec fn obeys_from_spec() -> bool {
        true
    }

    open spec fn from_spec(v: u32) -> Argb {
        choose|a: Argb| a@ == v
    }
}

impl From<Argb> for u32 {
    /// The packed value of the color.
    fn from(value: Argb) -> (r: Self)
        ensures
            r == value@,
    {
        value.to_u32()
    }
}

impl vstd::std_specs::convert::FromSpecImpl<Argb> for u32 {
    open spec fn obeys_from_spec() -> bool {
        true
    }

    open spec fn from_spec(v: Argb) -> u32 {
        v@
    }
}

/// Builds an opaque color from integer channels; each channel keeps only its
/// low eight bits (two's complement), so out-of-range inputs wrap.
pub fn argb_from_rgb(red: i32, green: i32, blue: i32) -> (r: Argb)
    ensures
        r@ == pack_opaque(red as u8, green as u8, blue as u8),
{
    let rb = (red as u32) & 0xff;
    let gb = (green as u32) & 0xff;
    let bb = (blue as u32) & 0xff;
    proof {
        assert(((red as u32) & 0xff) == (red as u8) as u32) by (bit_vector);
        assert(((green as u32) & 0xff) == (green as u8) as u32) by (bit_vector);
        assert(((blue as u32) & 0xff) == (blue as u8) as u32) by (bit_vector);
        lemma_pack(rb, gb, bb);
    }
    Argb::new(0xff00_0000 | (rb << 16) | (gb << 8) | bb)
}

/// The alpha channel as an integer in `0..=255`.
pub fn alpha_from_int(argb: Argb) -> (r: i32)
    ensures
        r == alpha_of(argb@),
{
    argb.alpha() as i32
}

/// The red channel as an integer in `0..=255`.
pub fn red_from_int(argb: Argb) -> (r: i32)
    ensures
        r == red_of(argb@),
{
    argb.red() as i32
}

/// The green channel as an integer in `0..=255`.
pub fn green_from_int(argb: Argb) -> (r: i32)
    ensures
        r == green_of(argb@),
{
    argb.green() as i32
}

/// The blue channel as an integer in `0..=255`.
pub fn blue_from_int(argb: Argb) -> (r: i32)
    ensures
        r == blue_of(argb@),
{
    argb.blue() as i32
}

/// Whether the color's alpha channel is 255.
pub fn is_opaque(argb: Argb) -> (r: bool)
    ensures
        r == (alpha_of(argb@) == 0xff),
{
    argb.is_opaque()
}

/// Packing channels and reading them back gives the channels again, and the
/// packed color is opaque.
pub proof fn lemma_pack_then_read(red: u8, green: u8, blue: u8)
    ensures
        alpha_of(pack_opaque(red, green, blue)) == 0xff,
        red_of(pack_opaque(red, green, blue)) == red,
        green_of(pack_opaque(red, green, blue)) == green,
        blue_of(pack_opaque(red, green, blue)) == blue,
{
    let v = pack_opaque(red, green, blue);
    assert(v == 0xff00_0000 + red * 0x1_0000 + green * 0x100 + blue);
    assert(v / 0x0100_0000 == 0xff);
    assert(v / 0x1_0000 == 0xff00 + red);
    assert(v / 0x100 == 0xff_0000 + red * 0x100 + green);
}

/// An opaque color is exactly the packing of its own three channels.
pub proof fn lemma_read_then_pack(v: u32)
    requires
        alpha_of(v) == 0xff,
    ensures
        pack_opaque(red_of(v), green_of(v), blue_of(v)) == v,
{
    assert(v / 0x0100_0000 == 0xff);
    assert(v == 0xff00_0000 + ((v / 0x1_0000) % 0x100) * 0x1_0000 + ((v / 0x100) % 0x100) * 0x100
        + v % 0x100);
}

} // verus!
