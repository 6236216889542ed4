//! Matching a colour against a palette: the nearest colour, the runner-up,
//! and the decision whether to blend the two.

use crate::distance::DistanceAlgorithm;
use crate::factor::gap;
use crate::pixel::Pixel;
use crate::settings::OutputSettings;
use vstd::prelude::*;

verus! {

/// `i` is the place of the palette colour nearest to `target`; of several
/// equally near, the first.
pub open spec fn is_nearest(
    palette: Seq<Pixel>,
    algo: DistanceAlgorithm,
    target: Pixel,
    i: int,
) -> bool {
    &&& 0 <= i < palette.len()
    &&& forall|j: int|
        0 <= j < palette.len() ==> algo.spec_distance(#[trigger] palette[j], target)
            >= algo.spec_distance(palette[i], target)
    &&& forall|j: int|
        0 <= j < i ==> algo.spec_distance(#[trigger] palette[j], target) > algo.spec_distance(
            palette[i],
            target,
        )
}

/// `k` is the place of the colour nearest to `target` once the colour at
/// place `i` is left out; of several equally near, the first.
pub open spec fn is_runner_up(
    palette: Seq<Pixel>,
    algo: DistanceAlgorithm,
    target: Pixel,
    i: int,
    k: int,
) -> bool {
    &&& 0 <= k < palette.len()
    &&& k != i
    &&& forall|j: int|
        0 <= j < palette.len() && j != i ==> algo.spec_distance(#[trigger] palette[j], target)
            >= algo.spec_distance(palette[k], target)
    &&& forall|j: int|
        0 <= j < k && j != i ==> algo.spec_distance(#[trigger] palette[j], target)
            > algo.spec_distance(palette[k], target)
}

/// The place of the colour of a non-empty palette nearest to `target`.
pub open spec fn nearest(palette: Seq<Pixel>, algo: DistanceAlgorithm, target: Pixel) -> int {
    choose|i: int| is_nearest(palette, algo, target, i)
}

/// The place of the second nearest colour of a palette of two or more.
pub open spec fn runner_up(palette: Seq<Pixel>, algo: DistanceAlgorithm, target: Pixel) -> int {
    choose|k: int| is_runner_up(palette, algo, target, nearest(palette, algo, target), k)
}

/// The two colours that render a block whose mean colour is `target`: the
/// first for the pixels on the checkerboard mask, the second for those off
/// it. Both are the nearest palette colour unless the block is dithered:
/// that takes a dithering scale above one, a second palette colour, and a
/// match that is not decisive. The match is decisive where the distances of
/// the two candidates from the target differ by more than the distance
/// between the candidates divided by the likelihood.
pub open spec fn blend(
    palette: Seq<Pixel>,
    algo: DistanceAlgorithm,
    settings: OutputSettings,
    target: Pixel,
) -> (Pixel, Pixel) {
    let first = palette[nearest(palette, algo, target)];
    if palette.len() == 1 || settings.scale() == 1 {
        (first, first)
    } else {
        let second = palette[runner_up(palette, algo, target)];
        let apart = gap(
            algo.spec_distance(first, target) as int,
            algo.spec_distance(second, target) as int,
        );
        if apart > algo.spec_distance(first, second) / settings.likelihood() {
            (first, first)
        } else {
            (first, second)
        }
    }
}

/// At most one place is the nearest.
pub proof fn lemma_nearest_unique(
    palette: Seq<Pixel>,
    algo: DistanceAlgorithm,
    target: Pixel,
    i: int,
    j: int,
)
    requires
        is_nearest(palette, algo, target, i),
        is_nearest(palette, algo, target, j),
    ensures
        i == j,
{
    if i < j {
        assert(algo.spec_distance(palette[i], target) > algo.spec_distance(palette[j], target));
        assert(algo.spec_distance(palette[j], target) >= algo.spec_distance(palette[i], target));
    } else if j < i {
        assert(algo.spec_distance(palette[j], target) > algo.spec_distance(palette[i], target));
        assert(algo.spec_distance(palette[i], target) >= algo.spec_distance(palette[j], target));
    }
}

/// At most one place is the runner-up.
pub proof fn lemma_runner_up_unique(
    palette: Seq<Pixel>,
    algo: DistanceAlgorithm,
    target: Pixel,
    i: int,
    k: int,
    m: int,
)
    requires
        is_runner_up(palette, algo, target, i, k),
        is_runner_up(palette, algo, target, i, m),
    ensures
        k == m,
{
    if k < m {
        assert(algo.spec_distance(palette[k], target) > algo.spec_distance(palette[m], target));
        assert(algo.spec_distance(palette[m], target) >= algo.spec_distance(palette[k], target));
    } else if m < k {
        assert(algo.spec_distance(palette[m], target) > algo.spec_distance(palette[k], target));
        assert(algo.spec_distance(palette[k], target) >= algo.spec_distance(palette[m], target));
    }
}

/// `i` is the place of the nearest among the first `n` colours.
spec fn is_nearest_among(
    palette: Seq<Pixel>,
    algo: DistanceAlgorithm,
    target: Pixel,
    n: int,
    i: int,
) -> bool {
    &&& 0 <= i < n <= palette.len()
    &&& forall|j: int|
        0 <= j < n ==> algo.spec_distance(#[trigger] palette[j], target) >= algo.spec_distance(
            palette[i],
            target,
        )
    &&& forall|j: int|
        0 <= j < i ==> algo.spec_distance(#[trigger] palette[j], target) > algo.spec_distance(
            palette[i],
            target,
        )
}

/// Among the first `n` colours one is nearest.
proof fn lemma_nearest_among(palette: Seq<Pixel>, algo: DistanceAlgorithm, target: Pixel, n: int) -> (i:
    int)
    requires
        0 < n <= palette.len(),
    ensures
        is_nearest_among(palette, algo, target, n, i),
    decreases n,
{
    if n == 1 {
        0
    } else {
        let before = lemma_nearest_among(palette, algo, target, n - 1);
        if algo.spec_distance(palette[n - 1], target) < algo.spec_distance(
            palette[before],
            target,
        ) {
            n - 1
        } else {
            before
        }
    }
}

/// `k` is the place of the nearest among the first `n` colours but the one
/// at place `i`.
spec fn is_runner_up_among(
    palette: Seq<Pixel>,
    algo: DistanceAlgorithm,
    target: Pixel,
    i: int,
    n: int,
    k: int,
) -> bool {
    &&& 0 <= k < n <= palette.len()
    &&& k != i
    &&& forall|j: int|
        0 <= j < n && j != i ==> algo.spec_distance(#[trigger] palette[j], target)
            >= algo.spec_distance(palette[k], target)
    &&& forall|j: int|
        0 <= j < k && j != i ==> algo.spec_distance(#[trigger] palette[j], target)
            > algo.spec_distance(palette[k], target)
}

/// Among the first `n` colours but the one at place `i`, one is nearest, as
/// long as there is one.
proof fn lemma_runner_up_among(
    palette: Seq<Pixel>,
    algo: DistanceAlgorithm,
    target: Pixel,
    i: int,
    n: int,
) -> (k: int)
    requires
        0 < n <= palette.len(),
        n >= 2 || i != 0,
    ensures
        is_runner_up_among(palette, algo, target, i, n, k),
    decreases n,
{
    if n == 1 {
        0
    } else if n == 2 && i == 0 {
        1
    } else {
        let before = lemma_runner_up_among(palette, algo, target, i, n - 1);
        if n - 1 != i && algo.spec_distance(palette[n - 1], target) < algo.spec_distance(
            palette[before],
            target,
        ) {
            n - 1
        } else {
            before
        }
    }
}

/// A palette that is not empty has a nearest colour, and one of two or more
/// has a second nearest.
pub proof fn lemma_nearest_exists(palette: Seq<Pixel>, algo: DistanceAlgorithm, target: Pixel)
    requires
        palette.len() > 0,
    ensures
        is_nearest(palette, algo, target, nearest(palette, algo, target)),
        palette.len() >= 2 ==> is_runner_up(
            palette,
            algo,
            target,
            nearest(palette, algo, target),
            runner_up(palette, algo, target),
        ),
{
    let i = lemma_nearest_among(palette, algo, target, palette.len() as int);
    assert(is_nearest(palette, algo, target, i));
    if palette.len() >= 2 {
        let first = nearest(palette, algo, target);
        let k = lemma_runner_up_among(palette, algo, target, first, palette.len() as int);
        assert(is_runner_up(palette, algo, target, first, k));
    }
}

/// Without dithering, and with a palette of one colour, a block is painted
/// in the nearest colour alone, whatever the likelihood.
pub proof fn lemma_solid_without_dithering(
    palette: Seq<Pixel>,
    algo: DistanceAlgorithm,
    settings: OutputSettings,
    target: Pixel,
)
    requires
        palette.len() == 1 || settings.scale() == 1,
    ensures
        blend(palette, algo, settings, target) == (
            palette[nearest(palette, algo, target)],
            palette[nearest(palette, algo, target)],
        ),
{
}

/// Both colours of a blend are colours of the palette.
pub proof fn lemma_blend_from_palette(
    palette: Seq<Pixel>,
    algo: DistanceAlgorithm,
    settings: OutputSettings,
    target: Pixel,
)
    requires
        palette.len() > 0,
    ensures
        palette.contains(blend(palette, algo, settings, target).0),
        palette.contains(blend(palette, algo, settings, target).1),
        blend(palette, algo, settings, target).0 == palette[nearest(palette, algo, target)],
{
    lemma_nearest_exists(palette, algo, target);
    let i = nearest(palette, algo, target);
    assert(palette.contains(palette[i]));
    if palette.len() >= 2 {
        let k = runner_up(palette, algo, target);
        assert(palette.contains(palette[k]));
    }
}

/// The places of the nearest and of the second nearest palette colour.
/// `None` for an empty palette; no second place for a palette of one.
pub fn nearest_two(palette: &[Pixel], algo: DistanceAlgorithm, target: Pixel) -> (found: Option<
    (usize, Option<usize>),
>)
    ensures
        found is None <==> palette@.len() == 0,
        found matches Some((i, second)) ==> {
            &&& is_nearest(palette@, algo, target, i as int)
            &&& i == nearest(palette@, algo, target)
            &&& second is None <==> palette@.len() == 1
            &&& second matches Some(k) ==> is_runner_up(palette@, algo, target, i as int, k as int)
                && k == runner_up(palette@, algo, target)
        },
{
    let n: usize = palette.len();
    if n == 0 {
        return None;
    }
    let mut first: usize = 0;
    let mut first_distance: u32 = algo.distance(palette[0], target);
    let mut second: Option<usize> = None;
    let mut second_distance: u32 = 0;
    let mut j: usize = 1;
    while j < n
        invariant
            n == palette@.len(),
            1 <= j <= n,
            first < j,
            first_distance == algo.spec_distance(palette@[first as int], target),
            forall|m: int|
                0 <= m < j ==> algo.spec_distance(#[trigger] palette@[m], target)
                    >= first_distance,
            forall|m: int|
                0 <= m < first ==> algo.spec_distance(#[trigger] palette@[m], target)
                    > first_distance,
            second is None <==> j == 1,
            second matches Some(k) ==> {
                &&& k < j
                &&& k != first
                &&& second_distance == algo.spec_distance(palette@[k as int], target)
                &&& forall|m: int|
                    0 <= m < j && m != first ==> algo.spec_distance(
                        #[trigger] palette@[m],
                        target,
                    ) >= second_distance
                &&& forall|m: int|
                    0 <= m < k && m != first ==> algo.spec_distance(
                        #[trigger] palette@[m],
                        target,
                    ) > second_distance
            },
        decreases n - j,
    {
        let distance: u32 = algo.distance(palette[j], target);
        if distance < first_distance {
            second = Some(first);
            second_distance = first_distance;
            first = j;
            first_distance = distance;
        } else {
            let closer: bool = match second {
                Some(_) => distance < second_distance,
                None => true,
            };
            if closer {
                second = Some(j);
                second_distance = distance;
            }
        }
        j = j + 1;
    }
    proof {
        assert(is_nearest(palette@, algo, target, first as int));
        lemma_nearest_unique(
            palette@,
            algo,
            target,
            first as int,
            nearest(palette@, algo, target),
        );
        if let Some(k) = second {
            assert(is_runner_up(palette@, algo, target, first as int, k as int));
            lemma_runner_up_unique(
                palette@,
                algo,
                target,
                first as int,
                k as int,
                runner_up(palette@, algo, target),
            );
        }
    }
    Some((first, second))
}

/// The two colours that render a block whose mean colour is `target`: the
/// first for the pixels on the checkerboard mask, the second for the others.
/// `None` for an empty palette.
pub fn choose_colours(
    palette: &[Pixel],
    algo: DistanceAlgorithm,
    settings: OutputSettings,
    target: Pixel,
) -> (colours: Option<(Pixel, Pixel)>)
    ensures
        colours is None <==> palette@.len() == 0,
        colours matches Some(pair) ==> pair == blend(palette@, algo, settings, target),
{
    match nearest_two(palette, algo, target) {
        None => None,
        Some((i, second)) => {
            let first: Pixel = palette[i];
            match second {
                None => Some((first, first)),
                Some(k) => {
                    if settings.clamped_scale() == 1 {
                        return Some((first, first));
                    }
                    let other: Pixel = palette[k];
                    let first_distance: u32 = algo.distance(first, target);
                    let other_distance: u32 = algo.distance(other, target);
                    let apart: u32 = if first_distance <= other_distance {
                        other_distance - first_distance
                    } else {
                        first_distance - other_distance
                    };
                    if apart > algo.distance(first, other) / settings.clamped_likelihood() {
                        Some((first, first))
                    } else {
                        Some((first, other))
                    }
                },
            }
        },
    }
}

} // verus!
