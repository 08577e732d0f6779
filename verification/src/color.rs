//! Colours as four 8-bit channels together with their packed little-endian
//! ABGR word, and interpolation between two colours by a 16-bit fraction.

use vstd::prelude::*;

verus! {

/// The denominator of a 16-bit fraction: a weight `w` stands for `w / 65536`.
pub const FRACTION_DENOMINATOR: u32 = 65536;

/// The four channel values of a colour.
#[derive(Clone, Copy, Debug, PartialEq, Eq)]
pub struct Channels {
    pub red: u8,
    pub green: u8,
    pub blue: u8,
    pub alpha: u8,
}

/// The ABGR word of four channels: alpha in the top byte, red in the lowest.
pub open spec fn pack(red: u8, green: u8, blue: u8, alpha: u8) -> u32 {
    ((alpha as u32) << 24) | ((blue as u32) << 16) | ((green as u32) << 8) | (red as u32)
}

/// The channels that an ABGR word holds.
pub open spec fn unpack(word: u32) -> Channels {
    Channels {
        red: (word & 0xff) as u8,
        green: ((word >> 8) & 0xff) as u8,
        blue: ((word >> 16) & 0xff) as u8,
        alpha: ((word >> 24) & 0xff) as u8,
    }
}

/// The channel value a `weight / 65536` of the way from `from` to `to`,
/// rounded down.
pub open spec fn blend(from: u8, to: u8, weight: u16) -> int {
    (from * 65536 + (to - from) * weight) / 65536
}

/// Unpacking a packed word gives back the four channels that went in.
pub proof fn lemma_unpack_pack(red: u8, green: u8, blue: u8, alpha: u8)
    ensures
        unpack(pack(red, green, blue, alpha)) == (Channels { red, green, blue, alpha }),
{
    let word = pack(red, green, blue, alpha);
    assert({
        &&& (word & 0xff) as u8 == red
        &&& ((word >> 8) & 0xff) as u8 == green
        &&& ((word >> 16) & 0xff) as u8 == blue
        &&& ((word >> 24) & 0xff) as u8 == alpha
    }) by (bit_vector)
        requires
            word == ((alpha as u32) << 24) | ((blue as u32) << 16) | ((green as u32) << 8)
                | (red as u32),
    ;
}

/// Packing the channels of a word gives back the word: every 32-bit word is
/// the packed form of exactly one colour.
pub proof fn lemma_pack_unpack(word: u32)
    ensures
        pack(unpack(word).red, unpack(word).green, unpack(word).blue, unpack(word).alpha) == word,
{
    let red = (word & 0xff) as u8;
    let green = ((word >> 8) & 0xff) as u8;
    let blue = ((word >> 16) & 0xff) as u8;
    let alpha = ((word >> 24) & 0xff) as u8;
    assert(((alpha as u32) << 24) | ((blue as u32) << 16) | ((green as u32) << 8) | (red as u32)
        == word) by (bit_vector)
        requires
            red == (word & 0xff) as u8,
            green == ((word >> 8) & 0xff) as u8,
            blue == ((word >> 16) & 0xff) as u8,
            alpha == ((word >> 24) & 0xff) as u8,
    ;
}

/// A blended channel lies between its two ends, so it is a channel value.
pub proof fn lemma_blend_between(from: u8, to: u8, weight: u16)
    ensures
        from <= to ==> from <= blend(from, to, weight) <= to,
        to <= from ==> to <= blend(from, to, weight) <= from,
        weight == 0 ==> blend(from, to, weight) == from,
{
    let span = to - from;
    let lift = span * weight;
    assert(span >= 0 ==> 0 <= lift <= span * 65535) by (nonlinear_arith)
        requires
            lift == span * weight,
            0 <= weight <= 65535,
    ;
    assert(span <= 0 ==> span * 65535 <= lift <= 0) by (nonlinear_arith)
        requires
            lift == span * weight,
            0 <= weight <= 65535,
    ;
    assert(weight == 0 ==> lift == 0) by (nonlinear_arith)
        requires
            lift == span * weight,
    ;
}

/// A colour: four channels and the ABGR word that packs them.
#[derive(Clone, Copy, Debug, PartialEq, Eq)]
pub struct Color {
    red: u8,
    green: u8,
    blue: u8,
    alpha: u8,
    abgr: u32,
}

impl View for Color {
    type V = Channels;

    closed spec fn view(&self) -> Channels {
        Channels { red: self.red, green: self.green, blue: self.blue, alpha: self.alpha }
    }
}

impl Color {
    #[verifier::type_invariant]
    spec fn word_packs_channels(self) -> bool {
        self.abgr == pack(self.red, self.green, self.blue, self.alpha)
    }

    /// The opaque black that marks a point which never escaped.
    pub fn black() -> (color: Color)
        ensures
            color@ == (Channels { red: 0, green: 0, blue: 0, alpha: 0xff }),
    {
        Color::new(0, 0, 0, 0xff)
    }

    /// The colour of the given channels.
    pub fn new(red: u8, green: u8, blue: u8, alpha: u8) -> (color: Color)
        ensures
            color@ == (Channels { red, green, blue, alpha }),
    {
        Color {
            red,
            green,
            blue,
            alpha,
            abgr: ((alpha as u32) << 24) | ((blue as u32) << 16) | ((green as u32) << 8)
                | (red as u32),
        }
    }

    /// The colour that an ABGR word packs.
    pub fn from_packed(word: u32) -> (color: Color)
        ensures
            color@ == unpack(word),
            pack(color@.red, color@.green, color@.blue, color@.alpha) == word,
    {
        proof {
            lemma_pack_unpack(word);
        }
        Color {
            red: (word & 0xff) as u8,
            green: ((word >> 8) & 0xff) as u8,
            blue: ((word >> 16) & 0xff) as u8,
            alpha: ((word >> 24) & 0xff) as u8,
            abgr: word,
        }
    }

    /// The red channel.
    pub fn red(&self) -> (value: u8)
        ensures
            value == self@.red,
    {
        self.red
    }

    /// The green channel.
    pub fn green(&self) -> (value: u8)
        ensures
            value == self@.green,
    {
        self.green
    }

    /// The blue channel.
    pub fn blue(&self) -> (value: u8)
        ensures
            value == self@.blue,
    {
        self.blue
    }

    /// The alpha channel: 255 is opaque.
    pub fn alpha(&self) -> (value: u8)
        ensures
            value == self@.alpha,
    {
        self.alpha
    }

    /// The packed ABGR word of this colour.
    pub fn abgr(&self) -> (word: u32)
        ensures
            word == pack(self@.red, self@.green, self@.blue, self@.alpha),
    {
        proof {
            use_type_invariant(self);
        }
        self.abgr
    }

    /// The colour `value / 65536` of the way from `color1` to `color2`, each
    /// channel interpolated exactly and rounded down once.
    pub fn lerp(color1: &Color, color2: &Color, value: u16) -> (color: Color)
        ensures
            color@.red == blend(color1@.red, color2@.red, value),
            color@.green == blend(color1@.green, color2@.green, value),
            color@.blue == blend(color1@.blue, color2@.blue, value),
            color@.alpha == blend(color1@.alpha, color2@.alpha, value),
    {
        Color::new(
            blend_channel(color1.red, color2.red, value),
            blend_channel(color1.green, color2.green, value),
            blend_channel(color1.blue, color2.blue, value),
            blend_channel(color1.alpha, color2.alpha, value),
        )
    }
}

/// One channel of an interpolation.
pub fn blend_channel(from: u8, to: u8, weight: u16) -> (value: u8)
    ensures
        value == blend(from, to, weight),
{
    proof {
        lemma_blend_between(from, to, weight);
    }
    let base: u32 = (from as u32) * 65536;
    if to >= from {
        let span: u32 = (to - from) as u32;
        assert(span * weight <= 255 * 65535) by (nonlinear_arith)
            requires
                span <= 255,
                weight <= 65535,
        ;
        let lift: u32 = span * (weight as u32);
        ((base + lift) / 65536) as u8
    } else {
        let span: u32 = (from - to) as u32;
        assert(span * weight <= span * 65535 && (to - from) * weight == -(span * weight))
            by (nonlinear_arith)
            requires
                span == from - to,
                span <= 255,
                weight <= 65535,
        ;
        let fall: u32 = span * (weight as u32);
        ((base - fall) / 65536) as u8
    }
}

} // verus!
