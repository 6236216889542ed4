//! The scalar measures of a colour that the distance metrics compare.

use crate::pixel::Pixel;
use vstd::prelude::*;

verus! {

/// The product of the three colour channels.
pub open spec fn spec_product(px: Pixel) -> nat {
    (px.r as nat) * (px.g as nat) * (px.b as nat)
}

/// Perceived brightness as a weighted sum of the channels, each term rounded
/// down on its own.
pub open spec fn spec_luminance(px: Pixel) -> nat {
    (px.r as nat) * 1063 / 5000 + (px.g as nat) * 447 / 625 + (px.b as nat) * 361 / 5000
}

/// Perceived brightness as a weighted sum of the squared channels, each term
/// rounded down on its own.
pub open spec fn spec_better_luminance(px: Pixel) -> nat {
    (px.r as nat) * (px.r as nat) * 299 / 1000 + (px.g as nat) * (px.g as nat) * 587 / 1000 + (
    px.b as nat) * (px.b as nat) * 57 / 500
}

/// The mean of the three colour channels, rounded down.
pub open spec fn spec_average(px: Pixel) -> nat {
    ((px.r as nat) + (px.g as nat) + (px.b as nat)) / 3
}

/// The least of three integers.
pub open spec fn min3(x: int, y: int, z: int) -> int {
    if x <= y && x <= z {
        x
    } else if y <= z {
        y
    } else {
        z
    }
}

/// The greatest of three integers.
pub open spec fn max3(x: int, y: int, z: int) -> int {
    if x >= y && x >= z {
        x
    } else if y >= z {
        y
    } else {
        z
    }
}

/// The spread between the strongest and the weakest colour channel; zero
/// exactly for the greys.
pub open spec fn chroma(px: Pixel) -> int {
    max3(px.r as int, px.g as int, px.b as int) - min3(px.r as int, px.g as int, px.b as int)
}

/// The hue angle of a chromatic colour in degrees, multiplied by its chroma:
/// a whole number in `[0, 360 * chroma)`.
pub open spec fn scaled_hue(px: Pixel) -> int {
    let r = px.r as int;
    let g = px.g as int;
    let b = px.b as int;
    let top = max3(r, g, b);
    let delta = chroma(px);
    let sector = if top == r {
        60 * (g - b)
    } else if top == g {
        120 * delta + 60 * (b - r)
    } else {
        240 * delta + 60 * (r - g)
    };
    if sector < 0 {
        sector + 360 * delta
    } else {
        sector
    }
}

/// The hue angle in whole degrees, rounded to the nearest (a half rounds up),
/// so between 0 and 360. Every grey has hue 0.
pub open spec fn spec_hue(px: Pixel) -> nat {
    let delta = chroma(px);
    if delta == 0 {
        0
    } else {
        ((2 * scaled_hue(px) + delta) / (2 * delta)) as nat
    }
}

/// The product of the three colour channels.
pub fn product(px: Pixel) -> (v: u32)
    ensures
        v == spec_product(px),
{
    let r: u32 = px.r as u32;
    let g: u32 = px.g as u32;
    let b: u32 = px.b as u32;
    assert(r * g <= 255 * 255) by (nonlinear_arith)
        requires
            r <= 255,
            g <= 255,
    ;
    let rg: u32 = r * g;
    assert(rg * b <= 65025 * 255) by (nonlinear_arith)
        requires
            rg <= 65025,
            b <= 255,
    ;
    rg * b
}

/// Perceived brightness as a weighted sum of the channels.
pub fn luminance(px: Pixel) -> (v: u32)
    ensures
        v == spec_luminance(px),
{
    ((px.r as u32) * 1063 / 5000) + ((px.g as u32) * 447 / 625) + ((px.b as u32) * 361 / 5000)
}

/// Perceived brightness as a weighted sum of the squared channels.
pub fn better_luminance(px: Pixel) -> (v: u32)
    ensures
        v == spec_better_luminance(px),
{
    let r: u32 = px.r as u32;
    let g: u32 = px.g as u32;
    let b: u32 = px.b as u32;
    assert(r * r <= 65025 && g * g <= 65025 && b * b <= 65025) by (nonlinear_arith)
        requires
            r <= 255,
            g <= 255,
            b <= 255,
    ;
    (r * r * 299 / 1000) + (g * g * 587 / 1000) + (b * b * 57 / 500)
}

/// The mean of the three colour channels, rounded down.
pub fn average(px: Pixel) -> (v: u32)
    ensures
        v == spec_average(px),
{
    (px.r as u32 + px.g as u32 + px.b as u32) / 3
}

/// The hue angle in whole degrees, rounded to the nearest; 0 for a grey.
pub fn hue(px: Pixel) -> (v: u32)
    ensures
        v == spec_hue(px),
        v <= 360,
{
    let r: i32 = px.r as i32;
    let g: i32 = px.g as i32;
    let b: i32 = px.b as i32;
    let low: i32 = if r <= g && r <= b {
        r
    } else if g <= b {
        g
    } else {
        b
    };
    let top: i32 = if r >= g && r >= b {
        r
    } else if g >= b {
        g
    } else {
        b
    };
    let delta: i32 = top - low;
    if delta == 0 {
        return 0;
    }
    let sector: i32 = if top == r {
        60 * (g - b)
    } else if top == g {
        120 * delta + 60 * (b - r)
    } else {
        240 * delta + 60 * (r - g)
    };
    let turned: i32 = if sector < 0 {
        sector + 360 * delta
    } else {
        sector
    };
    assert(0 <= turned < 360 * delta);
    let rounded: i32 = (2 * turned + delta) / (2 * delta);
    assert(rounded <= 360) by (nonlinear_arith)
        requires
            0 <= turned < 360 * delta,
            delta > 0,
            rounded == (2 * turned + delta) / (2 * delta),
    ;
    assert(rounded >= 0) by (nonlinear_arith)
        requires
            0 <= turned,
            delta > 0,
            rounded == (2 * turned + delta) / (2 * delta),
    ;
    rounded as u32
}

} // verus!
