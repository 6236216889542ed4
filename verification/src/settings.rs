//! The settings of the two stages.

use vstd::prelude::*;
use vstd::std_specs::cmp::PartialEqSpecImpl;

verus! {

/// How the palette is drawn from the image.
#[derive(Copy, Clone, Debug, PartialEq, Eq, Structural)]
pub struct PaletteSettings {
    /// The number of blocks along each dimension; snapped to a divisor of the
    /// image's shorter side before use.
    pub chunks_per_dimension: u32,
    /// The least distance, on the linear scale, that two palette colours keep
    /// from each other.
    pub closeness_threshold: u32,
}

impl Default for PaletteSettings {
    fn default() -> (settings: Self)
        ensures
            settings == (PaletteSettings { chunks_per_dimension: 100, closeness_threshold: 50 }),
    {
        PaletteSettings { chunks_per_dimension: 100, closeness_threshold: 50 }
    }
}

/// How the image is rendered from the palette.
#[derive(Copy, Clone, Debug)]
pub struct OutputSettings {
    /// The side of an output block as a power of two: a value of `n` asks for
    /// blocks of `2^(n-1)` input pixels. At least 1.
    pub output_px_size: u32,
    /// How readily two near candidates are blended: 1 never blends, higher
    /// values blend more. At least 1.
    pub dithering_likelihood: u32,
    /// The side of the checkerboard that stands for one block in the output;
    /// 1 for no dithering. At least 1.
    pub dithering_scale: u32,
    /// Whether the coarse output is scaled back up by repeating its pixels.
    pub scale_output_to_original: bool,
}

/// A setting that must be at least one, with zero read as one.
pub open spec fn at_least_one(n: u32) -> nat {
    if n == 0 {
        1
    } else {
        n as nat
    }
}

impl OutputSettings {
    /// All three counts are at least one.
    pub open spec fn wf(self) -> bool {
        self.output_px_size >= 1 && self.dithering_likelihood >= 1 && self.dithering_scale >= 1
    }

    /// The side of the checkerboard that stands for one block.
    pub open spec fn scale(self) -> nat {
        at_least_one(self.dithering_scale)
    }

    /// The divisor in the blend decision.
    pub open spec fn likelihood(self) -> nat {
        at_least_one(self.dithering_likelihood)
    }

    /// The block side that is asked for, in input pixels: `2^(n-1)`.
    pub open spec fn block_target(self) -> nat {
        vstd::arithmetic::power2::pow2((at_least_one(self.output_px_size) - 1) as nat)
    }

    /// Whether rendering with `self` and with `other` gives the same result:
    /// without dithering the likelihood has no say.
    pub open spec fn same_as(self, other: Self) -> bool {
        if self.dithering_scale == 1 || other.dithering_scale == 1 {
            self.dithering_scale == other.dithering_scale && self.output_px_size
                == other.output_px_size && self.scale_output_to_original
                == other.scale_output_to_original
        } else {
            self.output_px_size == other.output_px_size && self.dithering_likelihood
                == other.dithering_likelihood && self.dithering_scale == other.dithering_scale
                && self.scale_output_to_original == other.scale_output_to_original
        }
    }
}

impl OutputSettings {
    /// The side of the checkerboard that stands for one block, with zero
    /// read as one.
    pub fn clamped_scale(self) -> (scale: u32)
        ensures
            scale == self.scale(),
    {
        if self.dithering_scale == 0 {
            1
        } else {
            self.dithering_scale
        }
    }

    /// The divisor in the blend decision, with zero read as one.
    pub fn clamped_likelihood(self) -> (likelihood: u32)
        ensures
            likelihood == self.likelihood(),
    {
        if self.dithering_likelihood == 0 {
            1
        } else {
            self.dithering_likelihood
        }
    }

    /// The block side that is asked for, in input pixels; `None` where it
    /// is beyond 64 bits.
    pub fn checked_block_target(self) -> (target: Option<u64>)
        ensures
            match target {
                Some(t) => t == self.block_target(),
                None => self.block_target() > u64::MAX,
            },
    {
        let exponent: u32 = if self.output_px_size == 0 {
            0
        } else {
            self.output_px_size - 1
        };
        if exponent >= 64 {
            proof {
                vstd::arithmetic::power2::lemma2_to64();
                if exponent > 64 {
                    vstd::arithmetic::power2::lemma_pow2_strictly_increases(64, exponent as nat);
                }
            }
            return None;
        }
        let mut power: u64 = 1;
        let mut i: u32 = 0;
        proof {
            vstd::arithmetic::power2::lemma2_to64();
        }
        while i < exponent
            invariant
                i <= exponent < 64,
                power == vstd::arithmetic::power2::pow2(i as nat),
            decreases exponent - i,
        {
            proof {
                vstd::arithmetic::power2::lemma_pow2_unfold((i + 1) as nat);
                vstd::bits::lemma_u64_pow2_no_overflow((i + 1) as nat);
            }
            power = power * 2;
            i = i + 1;
        }
        Some(power)
    }
}

/// The least block size setting that goes with a dithering scale: the `n`
/// for which the scale lies from `2^(n-1)` up to, but not at, `2^n`. A
/// scale of zero is read as one.
pub fn least_px_size(dithering_scale: u32) -> (n: u32)
    ensures
        1 <= n <= 32,
        vstd::arithmetic::power2::pow2((n - 1) as nat) <= at_least_one(dithering_scale)
            < vstd::arithmetic::power2::pow2(n as nat),
{
    let scale: u64 = if dithering_scale == 0 {
        1
    } else {
        dithering_scale as u64
    };
    let mut n: u32 = 1;
    let mut power: u64 = 2;
    proof {
        vstd::arithmetic::power2::lemma2_to64();
    }
    while power <= scale
        invariant
            1 <= n <= 32,
            scale == at_least_one(dithering_scale),
            power == vstd::arithmetic::power2::pow2(n as nat),
            vstd::arithmetic::power2::pow2((n - 1) as nat) <= scale,
        decreases 32 - n,
    {
        proof {
            vstd::arithmetic::power2::lemma2_to64();
            if n >= 32 {
                assert(false);
            }
            vstd::arithmetic::power2::lemma_pow2_unfold((n + 1) as nat);
            vstd::arithmetic::power2::lemma_pow2_strictly_increases(n as nat, 32);
        }
        power = power * 2;
        n = n + 1;
    }
    n
}

impl OutputSettings {
    /// These settings with the dithering scale set to `scale`, and the block
    /// size raised, where it is less, to the least that goes with the scale.
    pub fn with_dithering_scale(self, scale: u32) -> (changed: OutputSettings)
        ensures
            changed.dithering_scale == scale,
            changed.dithering_likelihood == self.dithering_likelihood,
            changed.scale_output_to_original == self.scale_output_to_original,
            if vstd::arithmetic::power2::pow2(self.output_px_size as nat) > at_least_one(scale) {
                changed.output_px_size == self.output_px_size
            } else {
                vstd::arithmetic::power2::pow2((changed.output_px_size - 1) as nat)
                    <= at_least_one(scale) < vstd::arithmetic::power2::pow2(
                    changed.output_px_size as nat,
                )
            },
    {
        let least: u32 = least_px_size(scale);
        let size: u32 = if self.output_px_size < least {
            least
        } else {
            self.output_px_size
        };
        proof {
            if self.output_px_size > least {
                vstd::arithmetic::power2::lemma_pow2_strictly_increases(
                    least as nat,
                    self.output_px_size as nat,
                );
            }
            if self.output_px_size < least - 1 {
                vstd::arithmetic::power2::lemma_pow2_strictly_increases(
                    self.output_px_size as nat,
                    (least - 1) as nat,
                );
            }
        }
        OutputSettings {
            output_px_size: size,
            dithering_likelihood: self.dithering_likelihood,
            dithering_scale: scale,
            scale_output_to_original: self.scale_output_to_original,
        }
    }
}

impl PartialEq for OutputSettings {
    fn eq(&self, other: &Self) -> (equal: bool) {
        if self.dithering_scale == 1 || other.dithering_scale == 1 {
            if self.dithering_scale != other.dithering_scale {
                false
            } else {
                self.output_px_size == other.output_px_size && self.scale_output_to_original
                    == other.scale_output_to_original
            }
        } else {
            self.output_px_size == other.output_px_size && self.dithering_likelihood
                == other.dithering_likelihood && self.dithering_scale == other.dithering_scale
                && self.scale_output_to_original == other.scale_output_to_original
        }
    }
}

impl PartialEqSpecImpl for OutputSettings {
    open spec fn obeys_eq_spec() -> bool {
        true
    }

    open spec fn eq_spec(&self, other: &Self) -> bool {
        self.same_as(*other)
    }
}

impl Eq for OutputSettings {

}

impl Default for OutputSettings {
    fn default() -> (settings: Self)
        ensures
            settings.output_px_size == 5,
            settings.dithering_likelihood == 4,
            settings.dithering_scale == 2,
            settings.scale_output_to_original,
    {
        OutputSettings {
            output_px_size: 5,
            dithering_likelihood: 4,
            dithering_scale: 2,
            scale_output_to_original: true,
        }
    }
}

/// Settings without dithering that agree on the block size and on scaling
/// are the same, whatever their likelihoods.
pub proof fn lemma_likelihood_ignored_without_dithering(a: OutputSettings, b: OutputSettings)
    requires
        a.dithering_scale == 1,
        b.dithering_scale == 1,
        a.output_px_size == b.output_px_size,
        a.scale_output_to_original == b.scale_output_to_original,
    ensures
        a.same_as(b),
{
}

/// Sameness of settings is an equivalence.
pub proof fn lemma_same_as_equivalence(a: OutputSettings, b: OutputSettings, c: OutputSettings)
    ensures
        a.same_as(a),
        a.same_as(b) ==> b.same_as(a),
        a.same_as(b) && b.same_as(c) ==> a.same_as(c),
{
}

} // verus!
