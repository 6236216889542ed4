//! The family of colour distances.

use crate::factor::gap;
use crate::pixel::Pixel;
use crate::pixel_operations::{
    average, better_luminance, hue, luminance, product, spec_average, spec_better_luminance,
    spec_hue, spec_luminance, spec_product,
};
use vstd::prelude::*;

verus! {

/// The way the distance between two colours is measured.
#[derive(Debug, Copy, Clone, Eq, PartialEq, Structural)]
pub enum DistanceAlgorithm {
    /// The sum of the squared channel differences.
    Euclidean,
    /// The sum of the absolute channel differences.
    Manhattan,
    /// The difference of the products of the channels.
    Product,
    /// The difference of the channel means.
    Brightness,
    /// The difference of the weighted channel sums.
    Luminance,
    /// The difference of the weighted sums of squared channels.
    SlowLuminance,
    /// The difference of the hue angles.
    Hue,
}

/// Every metric, in the order in which they are offered.
pub const ALL_ALGOS: [DistanceAlgorithm; 7] = [
    DistanceAlgorithm::Euclidean,
    DistanceAlgorithm::Manhattan,
    DistanceAlgorithm::Product,
    DistanceAlgorithm::Brightness,
    DistanceAlgorithm::Luminance,
    DistanceAlgorithm::SlowLuminance,
    DistanceAlgorithm::Hue,
];

/// Every metric is listed once among all metrics.
pub proof fn lemma_all_algos_listed(algo: DistanceAlgorithm)
    ensures
        exists|i: int| 0 <= i < 7 && #[trigger] ALL_ALGOS@[i] == algo,
        forall|i: int, j: int| 0 <= i < j < 7 ==> ALL_ALGOS@[i] != ALL_ALGOS@[j],
{
    assert(ALL_ALGOS@[0] == DistanceAlgorithm::Euclidean);
    assert(ALL_ALGOS@[1] == DistanceAlgorithm::Manhattan);
    assert(ALL_ALGOS@[2] == DistanceAlgorithm::Product);
    assert(ALL_ALGOS@[3] == DistanceAlgorithm::Brightness);
    assert(ALL_ALGOS@[4] == DistanceAlgorithm::Luminance);
    assert(ALL_ALGOS@[5] == DistanceAlgorithm::SlowLuminance);
    assert(ALL_ALGOS@[6] == DistanceAlgorithm::Hue);
}

/// The absolute difference of two channel values.
fn channel_gap(x: u8, y: u8) -> (d: u32)
    ensures
        d == gap(x as int, y as int),
        d <= 255,
{
    if x <= y {
        (y - x) as u32
    } else {
        (x - y) as u32
    }
}

/// The absolute difference of two measures.
fn measure_gap(x: u32, y: u32) -> (d: u32)
    ensures
        d == gap(x as int, y as int),
{
    if x <= y {
        y - x
    } else {
        x - y
    }
}

impl DistanceAlgorithm {
    /// The metric's name.
    pub open spec fn spec_name(self) -> Seq<char> {
        match self {
            DistanceAlgorithm::Euclidean => "Euclidean"@,
            DistanceAlgorithm::Manhattan => "Manhattan"@,
            DistanceAlgorithm::Product => "Product"@,
            DistanceAlgorithm::Brightness => "Brightness"@,
            DistanceAlgorithm::Luminance => "Luminance"@,
            DistanceAlgorithm::SlowLuminance => "SlowLuminance"@,
            DistanceAlgorithm::Hue => "Hue"@,
        }
    }

    /// A closeness threshold given on the linear scale, brought to the scale
    /// of this metric's distances: squared for the metrics whose distances
    /// are of squared magnitude, unchanged for the others.
    pub open spec fn spec_threshold(self, n: nat) -> nat {
        match self {
            DistanceAlgorithm::Euclidean | DistanceAlgorithm::Product => n * n,
            _ => n,
        }
    }

    /// The distance between two colours under this metric. Alpha plays no
    /// part.
    pub open spec fn spec_distance(self, a: Pixel, b: Pixel) -> nat {
        let dr = gap(a.r as int, b.r as int);
        let dg = gap(a.g as int, b.g as int);
        let db = gap(a.b as int, b.b as int);
        match self {
            DistanceAlgorithm::Euclidean => (dr * dr + dg * dg + db * db) as nat,
            DistanceAlgorithm::Manhattan => (dr + dg + db) as nat,
            DistanceAlgorithm::Product => gap(spec_product(a) as int, spec_product(b) as int) as nat,
            DistanceAlgorithm::Brightness => gap(
                spec_average(a) as int,
                spec_average(b) as int,
            ) as nat,
            DistanceAlgorithm::Luminance => gap(
                spec_luminance(a) as int,
                spec_luminance(b) as int,
            ) as nat,
            DistanceAlgorithm::SlowLuminance => gap(
                spec_better_luminance(a) as int,
                spec_better_luminance(b) as int,
            ) as nat,
            DistanceAlgorithm::Hue => gap(spec_hue(a) as int, spec_hue(b) as int) as nat,
        }
    }

    /// Whether `px` lies nearer than the closeness threshold to `other`.
    pub open spec fn spec_too_close(self, threshold: nat, px: Pixel, other: Pixel) -> bool {
        self.spec_distance(px, other) < self.spec_threshold(threshold)
    }

    /// The metric's name.
    pub fn to_str(self) -> (s: &'static str)
        ensures
            s@ == self.spec_name(),
    {
        match self {
            DistanceAlgorithm::Euclidean => "Euclidean",
            DistanceAlgorithm::Manhattan => "Manhattan",
            DistanceAlgorithm::Product => "Product",
            DistanceAlgorithm::Brightness => "Brightness",
            DistanceAlgorithm::Luminance => "Luminance",
            DistanceAlgorithm::SlowLuminance => "SlowLuminance",
            DistanceAlgorithm::Hue => "Hue",
        }
    }

    /// Brings a closeness threshold given on the linear scale to the scale of
    /// this metric's distances. The result is wide enough for the square of
    /// any threshold.
    pub fn standardise_closeness_threshold(self, n: u32) -> (t: u64)
        ensures
            t == self.spec_threshold(n as nat),
    {
        match self {
            DistanceAlgorithm::Euclidean | DistanceAlgorithm::Product => {
                let wide: u64 = n as u64;
                assert(wide * wide <= 0xffff_ffff * 0xffff_ffff) by (nonlinear_arith)
                    requires
                        wide <= 0xffff_ffff,
                ;
                wide * wide
            },
            _ => n as u64,
        }
    }

    /// The distance between two colours under this metric.
    pub fn distance(self, a: Pixel, b: Pixel) -> (d: u32)
        ensures
            d == self.spec_distance(a, b),
    {
        match self {
            DistanceAlgorithm::Euclidean => {
                let dr: u32 = channel_gap(a.r, b.r);
                let dg: u32 = channel_gap(a.g, b.g);
                let db: u32 = channel_gap(a.b, b.b);
                assert(dr * dr <= 65025 && dg * dg <= 65025 && db * db <= 65025)
                    by (nonlinear_arith)
                    requires
                        dr <= 255,
                        dg <= 255,
                        db <= 255,
                ;
                dr * dr + dg * dg + db * db
            },
            DistanceAlgorithm::Manhattan => {
                channel_gap(a.r, b.r) + channel_gap(a.g, b.g) + channel_gap(a.b, b.b)
            },
            DistanceAlgorithm::Product => measure_gap(product(a), product(b)),
            DistanceAlgorithm::Brightness => measure_gap(average(a), average(b)),
            DistanceAlgorithm::Luminance => measure_gap(luminance(a), luminance(b)),
            DistanceAlgorithm::SlowLuminance => measure_gap(
                better_luminance(a),
                better_luminance(b),
            ),
            DistanceAlgorithm::Hue => measure_gap(hue(a), hue(b)),
        }
    }
}

/// Every metric is symmetric: the distance from `a` to `b` is the distance
/// from `b` to `a`.
pub proof fn lemma_distance_symmetric(algo: DistanceAlgorithm, a: Pixel, b: Pixel)
    ensures
        algo.spec_distance(a, b) == algo.spec_distance(b, a),
{
}

/// Under every metric a colour is at distance zero from itself.
pub proof fn lemma_distance_to_self(algo: DistanceAlgorithm, a: Pixel)
    ensures
        algo.spec_distance(a, a) == 0,
{
}

/// Under the Euclidean and the Manhattan metric two colours are at distance
/// zero exactly if they agree in red, green and blue.
pub proof fn lemma_zero_distance(algo: DistanceAlgorithm, a: Pixel, b: Pixel)
    requires
        algo == DistanceAlgorithm::Euclidean || algo == DistanceAlgorithm::Manhattan,
    ensures
        algo.spec_distance(a, b) == 0 <==> (a.r == b.r && a.g == b.g && a.b == b.b),
{
    let dr = gap(a.r as int, b.r as int);
    let dg = gap(a.g as int, b.g as int);
    let db = gap(a.b as int, b.b as int);
    assert(dr * dr >= 0 && dg * dg >= 0 && db * db >= 0) by (nonlinear_arith);
    assert(dr * dr == 0 ==> dr == 0) by (nonlinear_arith);
    assert(dg * dg == 0 ==> dg == 0) by (nonlinear_arith);
    assert(db * db == 0 ==> db == 0) by (nonlinear_arith);
}

/// Under each of the other metrics two colours are at distance zero exactly
/// if they have the same measure: the same product, mean, luminance or hue.
pub proof fn lemma_zero_distance_of_measures(a: Pixel, b: Pixel)
    ensures
        DistanceAlgorithm::Product.spec_distance(a, b) == 0 <==> spec_product(a) == spec_product(
            b,
        ),
        DistanceAlgorithm::Brightness.spec_distance(a, b) == 0 <==> spec_average(a)
            == spec_average(b),
        DistanceAlgorithm::Luminance.spec_distance(a, b) == 0 <==> spec_luminance(a)
            == spec_luminance(b),
        DistanceAlgorithm::SlowLuminance.spec_distance(a, b) == 0 <==> spec_better_luminance(a)
            == spec_better_luminance(b),
        DistanceAlgorithm::Hue.spec_distance(a, b) == 0 <==> spec_hue(a) == spec_hue(b),
{
}

/// Under the hue metric any two greys are at distance zero, whatever their
/// brightness: distance zero does not mean the same colour.
pub proof fn lemma_hue_of_greys(a: Pixel, b: Pixel)
    requires
        a.r == a.g && a.g == a.b,
        b.r == b.g && b.g == b.b,
    ensures
        DistanceAlgorithm::Hue.spec_distance(a, b) == 0,
{
}

/// Alpha plays no part in any distance.
pub proof fn lemma_distance_ignores_alpha(algo: DistanceAlgorithm, a: Pixel, b: Pixel, alpha: u8)
    ensures
        algo.spec_distance(Pixel { a: alpha, ..a }, b) == algo.spec_distance(a, b),
{
}

} // verus!
