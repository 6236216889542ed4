//! The colour value that every stage works on.

use vstd::prelude::*;

verus! {

/// A colour of four 8-bit channels. Alpha is carried along but plays no part
/// in any distance.
#[derive(Clone, Copy, Debug, PartialEq, Eq, Hash, Structural)]
pub struct Pixel {
    pub r: u8,
    pub g: u8,
    pub b: u8,
    pub a: u8,
}

impl Pixel {
    /// The number that identifies this colour: its four channels as the
    /// digits of a base-256 numeral.
    pub open spec fn spec_key(self) -> nat {
        (self.r as nat) * 16777216 + (self.g as nat) * 65536 + (self.b as nat) * 256 + (
        self.a as nat)
    }

    /// This colour without transparency.
    pub open spec fn as_opaque(self) -> Pixel {
        Pixel { r: self.r, g: self.g, b: self.b, a: 255 }
    }

    /// The colour with the given channels.
    pub fn new(r: u8, g: u8, b: u8, a: u8) -> (px: Pixel)
        ensures
            px == (Pixel { r, g, b, a }),
    {
        Pixel { r, g, b, a }
    }

    /// The opaque colour with the given channels.
    pub fn opaque(r: u8, g: u8, b: u8) -> (px: Pixel)
        ensures
            px == (Pixel { r, g, b, a: 255 }),
    {
        Pixel { r, g, b, a: 255 }
    }

    /// Opaque black: the colour of a pixel that nothing has been drawn on.
    pub open spec fn spec_blank() -> Pixel {
        Pixel { r: 0, g: 0, b: 0, a: 255 }
    }

    /// Opaque black: the colour of a pixel that nothing has been drawn on.
    #[verifier::when_used_as_spec(spec_blank)]
    pub fn blank() -> (px: Pixel)
        ensures
            px == Pixel::spec_blank(),
    {
        Pixel { r: 0, g: 0, b: 0, a: 255 }
    }

    /// The number that identifies this colour among all colours.
    pub fn key(self) -> (k: u32)
        ensures
            k == self.spec_key(),
    {
        (self.r as u32) * 16777216 + (self.g as u32) * 65536 + (self.b as u32) * 256 + (
        self.a as u32)
    }
}

/// Two colours with the same key are the same colour.
pub proof fn lemma_key_identifies(p: Pixel, q: Pixel)
    requires
        p.spec_key() == q.spec_key(),
    ensures
        p == q,
{
    lemma_key_digits(p);
    lemma_key_digits(q);
}

/// The channels of a colour are the base-256 digits of its key.
proof fn lemma_key_digits(p: Pixel)
    ensures
        p.a == p.spec_key() % 256,
        p.b == (p.spec_key() / 256) % 256,
        p.g == (p.spec_key() / 65536) % 256,
        p.r == p.spec_key() / 16777216,
        p.spec_key() <= u32::MAX,
{
    let r = p.r as int;
    let g = p.g as int;
    let b = p.b as int;
    let a = p.a as int;
    let k = p.spec_key() as int;
    assert(k == 256 * (65536 * r + 256 * g + b) + a);
    assert(k / 256 == 65536 * r + 256 * g + b);
    assert(k / 256 == 256 * (256 * r + g) + b);
    assert(k / 65536 == 256 * r + g);
    assert(k == 16777216 * r + (65536 * g + 256 * b + a));
}

} // verus!
