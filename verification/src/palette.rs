//! Drawing a palette from the blocks of an image.

use crate::distance::DistanceAlgorithm;
use crate::factor::{closest_factor, get_closest_factor};
use crate::pixel::{lemma_key_identifies, Pixel};
use crate::raster::{lemma_cell_index, Grid, Image};
use crate::settings::PaletteSettings;
use crate::signals::{block_reports, lemma_block_reports_push, stop_requested, ProgressSink};
use crate::tally::{key32, lemma_most_frequent, most_frequent, Tally};
use std::collections::HashMap;
use std::sync::atomic::AtomicBool;
use std::sync::Arc;
use vstd::prelude::*;

verus! {

/// Whether `px` lies nearer than the closeness threshold to one of the
/// colours accepted so far.
pub open spec fn too_close_to_any(
    algo: DistanceAlgorithm,
    threshold: nat,
    accepted: Seq<Pixel>,
    px: Pixel,
) -> bool {
    exists|i: int|
        0 <= i < accepted.len() && #[trigger] algo.spec_too_close(threshold, px, accepted[i])
}

/// The pixels of `s` that keep their distance from every accepted colour, in
/// their order.
pub open spec fn far_pixels(
    s: Seq<Pixel>,
    algo: DistanceAlgorithm,
    threshold: nat,
    accepted: Seq<Pixel>,
) -> Seq<Pixel> {
    s.filter(|p: Pixel| !too_close_to_any(algo, threshold, accepted, p))
}

/// The pixels of the block of `bw` columns and `bh` rows whose first pixel is
/// `(x0, y0)`, in the order of the scan: column after column, each from its
/// top.
pub open spec fn block_pixels(grid: Grid, x0: nat, y0: nat, bw: nat, bh: nat) -> Seq<Pixel> {
    Seq::new(bw * bh, |j: int| grid.at(x0 + j / (bh as int), y0 + j % (bh as int)))
}

/// The colour that a block contributes to the palette: the most frequent of
/// its pixels that keep their distance from the colours accepted so far, and
/// of several equally frequent the one that the scan meets first. `None`
/// where no pixel of the block keeps its distance.
pub open spec fn block_choice(
    grid: Grid,
    x0: nat,
    y0: nat,
    bw: nat,
    bh: nat,
    algo: DistanceAlgorithm,
    threshold: nat,
    accepted: Seq<Pixel>,
) -> Option<Pixel> {
    most_frequent(far_pixels(block_pixels(grid, x0, y0, bw, bh), algo, threshold, accepted))
}

/// The shorter side of the grid.
pub open spec fn shorter_side(grid: Grid) -> nat {
    if grid.width <= grid.height {
        grid.width
    } else {
        grid.height
    }
}

/// The number of blocks along each dimension: the requested number snapped to
/// a divisor of the shorter side. Zero for an image without pixels.
pub open spec fn chunk_count(grid: Grid, settings: PaletteSettings) -> nat {
    closest_factor(settings.chunks_per_dimension as nat, shorter_side(grid))
}

/// The number of blocks of the scan.
pub open spec fn chunk_total(grid: Grid, settings: PaletteSettings) -> nat {
    chunk_count(grid, settings) * chunk_count(grid, settings)
}

/// The palette after the first `k` blocks of the scan. The blocks are taken
/// column of blocks after column of blocks, each from its top; pixels beyond
/// the last whole block of a row or column are not looked at.
pub open spec fn palette_after(
    grid: Grid,
    settings: PaletteSettings,
    algo: DistanceAlgorithm,
    k: nat,
) -> Seq<Pixel>
    decreases k,
{
    let n = chunk_count(grid, settings);
    if k == 0 || n == 0 {
        Seq::empty()
    } else {
        let before = palette_after(grid, settings, algo, (k - 1) as nat);
        let bw = grid.width / n;
        let bh = grid.height / n;
        let cx = ((k - 1) / (n as int)) as nat;
        let cy = ((k - 1) % (n as int)) as nat;
        match block_choice(
            grid,
            cx * bw,
            cy * bh,
            bw,
            bh,
            algo,
            settings.closeness_threshold as nat,
            before,
        ) {
            Some(colour) => before.push(colour),
            None => before,
        }
    }
}

/// How one more pixel extends the pixels that keep their distance.
pub proof fn lemma_far_pixels_push(
    s: Seq<Pixel>,
    x: Pixel,
    algo: DistanceAlgorithm,
    threshold: nat,
    accepted: Seq<Pixel>,
)
    ensures
        far_pixels(s.push(x), algo, threshold, accepted) == if too_close_to_any(
            algo,
            threshold,
            accepted,
            x,
        ) {
            far_pixels(s, algo, threshold, accepted)
        } else {
            far_pixels(s, algo, threshold, accepted).push(x)
        },
        far_pixels(s, algo, threshold, accepted).len() <= s.len(),
{
    reveal(Seq::filter);
    assert(s.push(x).drop_last() =~= s);
    s.lemma_filter_len(|p: Pixel| !too_close_to_any(algo, threshold, accepted, p));
}

/// The colour that a block contributes keeps its distance from every colour
/// accepted before it.
pub proof fn lemma_block_choice_is_far(
    grid: Grid,
    x0: nat,
    y0: nat,
    bw: nat,
    bh: nat,
    algo: DistanceAlgorithm,
    threshold: nat,
    accepted: Seq<Pixel>,
)
    ensures
        block_choice(grid, x0, y0, bw, bh, algo, threshold, accepted) matches Some(colour)
            ==> !too_close_to_any(algo, threshold, accepted, colour),
{
    let block = block_pixels(grid, x0, y0, bw, bh);
    let pred = |p: Pixel| !too_close_to_any(algo, threshold, accepted, p);
    let far = far_pixels(block, algo, threshold, accepted);
    if far.len() > 0 {
        lemma_most_frequent(far);
        let colour = most_frequent(far)->0;
        let i = choose|i: int| 0 <= i < far.len() && far[i] == colour;
        block.lemma_filter_pred(pred, i);
    }
}

/// The palette only grows: after one more block it is the palette before,
/// with at most one colour appended.
pub proof fn lemma_palette_grows(
    grid: Grid,
    settings: PaletteSettings,
    algo: DistanceAlgorithm,
    k: nat,
)
    ensures
        palette_after(grid, settings, algo, k).is_prefix_of(
            palette_after(grid, settings, algo, k + 1),
        ),
        palette_after(grid, settings, algo, k + 1).len() <= palette_after(
            grid,
            settings,
            algo,
            k,
        ).len() + 1,
{
}

/// A palette holds at most one colour for each block that was scanned.
pub proof fn lemma_palette_len(
    grid: Grid,
    settings: PaletteSettings,
    algo: DistanceAlgorithm,
    k: nat,
)
    ensures
        palette_after(grid, settings, algo, k).len() <= k,
    decreases k,
{
    if k > 0 {
        lemma_palette_len(grid, settings, algo, (k - 1) as nat);
    }
}

/// Where the number of blocks along a dimension does not exceed the number
/// that was asked for, the palette holds at most the square of the number
/// asked for.
pub proof fn lemma_palette_size(
    grid: Grid,
    settings: PaletteSettings,
    algo: DistanceAlgorithm,
    k: nat,
)
    requires
        k <= chunk_total(grid, settings),
        chunk_count(grid, settings) <= settings.chunks_per_dimension,
    ensures
        palette_after(grid, settings, algo, k).len() <= settings.chunks_per_dimension
            * settings.chunks_per_dimension,
{
    lemma_palette_len(grid, settings, algo, k);
    let n = chunk_count(grid, settings) as int;
    let asked = settings.chunks_per_dimension as int;
    assert(n * n <= asked * asked) by (nonlinear_arith)
        requires
            0 <= n <= asked,
    ;
}

/// Any two colours of a palette are at least the closeness threshold apart.
pub proof fn lemma_palette_spread(
    grid: Grid,
    settings: PaletteSettings,
    algo: DistanceAlgorithm,
    k: nat,
    i: int,
    j: int,
)
    requires
        0 <= i < palette_after(grid, settings, algo, k).len(),
        0 <= j < palette_after(grid, settings, algo, k).len(),
        i != j,
    ensures
        algo.spec_distance(
            palette_after(grid, settings, algo, k)[i],
            palette_after(grid, settings, algo, k)[j],
        ) >= algo.spec_threshold(settings.closeness_threshold as nat),
    decreases k,
{
    let n = chunk_count(grid, settings);
    let threshold = settings.closeness_threshold as nat;
    let palette = palette_after(grid, settings, algo, k);
    if k > 0 && n > 0 {
        let before = palette_after(grid, settings, algo, (k - 1) as nat);
        let last = before.len() as int;
        if i < last && j < last {
            lemma_palette_spread(grid, settings, algo, (k - 1) as nat, i, j);
        } else {
            let bw = grid.width / n;
            let bh = grid.height / n;
            let cx = ((k - 1) / (n as int)) as nat;
            let cy = ((k - 1) % (n as int)) as nat;
            lemma_block_choice_is_far(grid, cx * bw, cy * bh, bw, bh, algo, threshold, before);
            let early = if i < j {
                i
            } else {
                j
            };
            assert(!algo.spec_too_close(threshold, palette[last], before[early]));
        }
    }
}

/// With a closeness threshold of at least one, no colour is twice in a
/// palette.
pub proof fn lemma_palette_distinct(
    grid: Grid,
    settings: PaletteSettings,
    algo: DistanceAlgorithm,
    k: nat,
    i: int,
    j: int,
)
    requires
        settings.closeness_threshold >= 1,
        0 <= i < palette_after(grid, settings, algo, k).len(),
        0 <= j < palette_after(grid, settings, algo, k).len(),
        i != j,
    ensures
        palette_after(grid, settings, algo, k)[i] != palette_after(grid, settings, algo, k)[j],
{
    lemma_palette_spread(grid, settings, algo, k, i, j);
    let t = settings.closeness_threshold as int;
    assert(t * t >= 1) by (nonlinear_arith)
        requires
            t >= 1,
    ;
}

/// Where every pixel of `s` is far, all of `s` is far; where none is, none
/// is.
proof fn lemma_far_pixels_all_or_none(
    s: Seq<Pixel>,
    algo: DistanceAlgorithm,
    threshold: nat,
    accepted: Seq<Pixel>,
)
    ensures
        (forall|i: int| 0 <= i < s.len() ==> !too_close_to_any(algo, threshold, accepted, s[i]))
            ==> far_pixels(s, algo, threshold, accepted) == s,
        (forall|i: int| 0 <= i < s.len() ==> too_close_to_any(algo, threshold, accepted, s[i]))
            ==> far_pixels(s, algo, threshold, accepted) == Seq::<Pixel>::empty(),
    decreases s.len(),
{
    reveal(Seq::filter);
    if s.len() > 0 {
        let front = s.drop_last();
        lemma_far_pixels_all_or_none(front, algo, threshold, accepted);
        assert(forall|i: int| 0 <= i < front.len() ==> front[i] == s[i]);
        if forall|i: int|
            0 <= i < s.len() ==> !too_close_to_any(algo, threshold, accepted, s[i]) {
            assert(!too_close_to_any(algo, threshold, accepted, s[s.len() - 1]));
            assert(front.push(s.last()) =~= s);
        }
        if forall|i: int| 0 <= i < s.len() ==> too_close_to_any(algo, threshold, accepted, s[i]) {
            assert(too_close_to_any(algo, threshold, accepted, s[s.len() - 1]));
        }
    } else {
        assert(s =~= Seq::<Pixel>::empty());
    }
}

/// The most frequent colour of pixels that are all `colour` is `colour`.
proof fn lemma_most_frequent_of_one_colour(s: Seq<Pixel>, colour: Pixel)
    requires
        s.len() > 0,
        forall|i: int| 0 <= i < s.len() ==> s[i] == colour,
    ensures
        most_frequent(s) == Some(colour),
{
    lemma_most_frequent(s);
    let winner = most_frequent(s)->0;
    let i = choose|i: int| 0 <= i < s.len() && s[i] == winner;
    assert(s[i] == colour);
}

/// The pixels of a block inside a grid of one colour are all of that colour.
proof fn lemma_block_of_one_colour(
    grid: Grid,
    x0: nat,
    y0: nat,
    bw: nat,
    bh: nat,
    colour: Pixel,
)
    requires
        x0 + bw <= grid.width,
        y0 + bh <= grid.height,
        forall|x: int, y: int| grid.has(x, y) ==> grid.at(x, y) == colour,
    ensures
        block_pixels(grid, x0, y0, bw, bh).len() == bw * bh,
        forall|j: int|
            0 <= j < bw * bh ==> #[trigger] block_pixels(grid, x0, y0, bw, bh)[j] == colour,
{
    assert forall|j: int| 0 <= j < bw * bh implies #[trigger] block_pixels(
        grid,
        x0,
        y0,
        bw,
        bh,
    )[j] == colour by {
        crate::raster::lemma_cell_position(bh, bw, j);
        assert(grid.has(x0 + j / (bh as int), y0 + j % (bh as int)));
    }
}

/// An image of one colour gives a palette of that one colour, however many
/// blocks are scanned, as long as the closeness threshold is at least one:
/// the first block contributes the colour, and to every later block it is
/// too close.
pub proof fn lemma_palette_of_one_colour(
    grid: Grid,
    settings: PaletteSettings,
    algo: DistanceAlgorithm,
    colour: Pixel,
    k: nat,
)
    requires
        grid.wf(),
        forall|x: int, y: int| grid.has(x, y) ==> grid.at(x, y) == colour,
        settings.closeness_threshold >= 1,
        1 <= k <= chunk_total(grid, settings),
    ensures
        palette_after(grid, settings, algo, k) == seq![colour],
    decreases k,
{
    let n = chunk_count(grid, settings);
    let threshold = settings.closeness_threshold as nat;
    assert(n > 0) by (nonlinear_arith)
        requires
            1 <= n * n,
    ;
    let side = shorter_side(grid);
    crate::factor::lemma_closest_factor_divides(settings.chunks_per_dimension as nat, side);
    let bw = grid.width / n;
    let bh = grid.height / n;
    let cx = ((k - 1) / (n as int)) as nat;
    let cy = ((k - 1) % (n as int)) as nat;
    crate::raster::lemma_cell_position(n, n, k - 1);
    assert(bw * n <= grid.width && bh * n <= grid.height && bw >= 1 && bh >= 1)
        by (nonlinear_arith)
        requires
            bw == grid.width / n,
            bh == grid.height / n,
            1 <= n <= grid.width,
            n <= grid.height,
    ;
    assert(cx * bw + bw <= grid.width) by (nonlinear_arith)
        requires
            cx < n,
            bw * n <= grid.width,
    ;
    assert(cy * bh + bh <= grid.height) by (nonlinear_arith)
        requires
            cy < n,
            bh * n <= grid.height,
    ;
    let block = block_pixels(grid, cx * bw, cy * bh, bw, bh);
    lemma_block_of_one_colour(grid, cx * bw, cy * bh, bw, bh, colour);
    assert(bw * bh >= 1) by (nonlinear_arith)
        requires
            bw >= 1,
            bh >= 1,
    ;
    let before = palette_after(grid, settings, algo, (k - 1) as nat);
    lemma_far_pixels_all_or_none(block, algo, threshold, before);
    if k == 1 {
        assert(before =~= Seq::<Pixel>::empty());
        lemma_most_frequent_of_one_colour(block, colour);
        assert(Seq::<Pixel>::empty().push(colour) =~= seq![colour]);
    } else {
        lemma_palette_of_one_colour(grid, settings, algo, colour, (k - 1) as nat);
        assert(before[0] == colour);
        assert(threshold * threshold >= 1) by (nonlinear_arith)
            requires
                threshold >= 1,
        ;
        assert(algo.spec_too_close(threshold, colour, before[0]));
        assert(too_close_to_any(algo, threshold, before, colour));
    }
}

/// Whether `px` lies nearer than the closeness threshold to one of the
/// accepted colours.
pub fn too_close(
    px: Pixel,
    accepted: &Vec<Pixel>,
    algo: DistanceAlgorithm,
    closeness_threshold: u32,
) -> (close: bool)
    ensures
        close == too_close_to_any(algo, closeness_threshold as nat, accepted@, px),
{
    let threshold: u64 = algo.standardise_closeness_threshold(closeness_threshold);
    let mut i: usize = 0;
    while i < accepted.len()
        invariant
            i <= accepted.len(),
            threshold == algo.spec_threshold(closeness_threshold as nat),
            forall|j: int|
                0 <= j < i ==> !#[trigger] algo.spec_too_close(
                    closeness_threshold as nat,
                    px,
                    accepted@[j],
                ),
        decreases accepted.len() - i,
    {
        if (algo.distance(px, accepted[i]) as u64) < threshold {
            assert(algo.spec_too_close(closeness_threshold as nat, px, accepted@[i as int]));
            return true;
        }
        i = i + 1;
    }
    false
}

/// What is remembered of the colours already examined in a block.
spec fn memo_holds(
    memo: Map<u32, bool>,
    algo: DistanceAlgorithm,
    threshold: nat,
    accepted: Seq<Pixel>,
) -> bool {
    forall|p: Pixel| #[trigger]
        memo.contains_key(key32(p)) ==> memo[key32(p)] == too_close_to_any(
            algo,
            threshold,
            accepted,
            p,
        )
}

/// The colour that the block of `bw` columns and `bh` rows at `(x0, y0)`
/// contributes to the palette, given the colours accepted so far. Whether a
/// colour is too close to an accepted one is worked out once for the block.
pub fn block_colour(
    image: &Image,
    x0: u32,
    y0: u32,
    bw: u32,
    bh: u32,
    algo: DistanceAlgorithm,
    closeness_threshold: u32,
    accepted: &Vec<Pixel>,
) -> (choice: Option<Pixel>)
    requires
        x0 + bw <= image@.width,
        y0 + bh <= image@.height,
    ensures
        choice == block_choice(
            image@,
            x0 as nat,
            y0 as nat,
            bw as nat,
            bh as nat,
            algo,
            closeness_threshold as nat,
            accepted@,
        ),
{
    broadcast use vstd::std_specs::hash::group_hash_axioms;

    let _ = image.dimensions();
    let ghost block = block_pixels(image@, x0 as nat, y0 as nat, bw as nat, bh as nat);
    let ghost threshold = closeness_threshold as nat;
    let mut tally = Tally::new();
    let mut memo: HashMap<u32, bool> = HashMap::new();
    let mut dx: u32 = 0;
    assert(block.take(0) =~= Seq::<Pixel>::empty());
    assert(far_pixels(Seq::<Pixel>::empty(), algo, threshold, accepted@) =~= Seq::<
        Pixel,
    >::empty()) by {
        reveal(Seq::filter);
    }
    assert(block.len() == bw * bh);
    assert(bw * bh <= 0xffff_ffff * 0xffff_ffff) by (nonlinear_arith)
        requires
            bw <= 0xffff_ffff,
            bh <= 0xffff_ffff,
    ;
    while dx < bw
        invariant
            dx <= bw,
            image.wf(),
            x0 + bw <= image@.width,
            y0 + bh <= image@.height,
            block == block_pixels(image@, x0 as nat, y0 as nat, bw as nat, bh as nat),
            block.len() == bw * bh,
            bw * bh <= 0xffff_ffff * 0xffff_ffff,
            threshold == closeness_threshold as nat,
            tally.wf(),
            0 <= dx * bh <= bw * bh,
            tally@ == far_pixels(block.take(dx * bh), algo, threshold, accepted@),
            memo_holds(memo@, algo, threshold, accepted@),
        decreases bw - dx,
    {
        let mut dy: u32 = 0;
        assert(dx * bh + bh <= bw * bh) by (nonlinear_arith)
            requires
                dx < bw,
                0 <= bh,
        ;
        while dy < bh
            invariant
                dy <= bh,
                dx < bw,
                image.wf(),
                x0 + bw <= image@.width,
                y0 + bh <= image@.height,
                block == block_pixels(image@, x0 as nat, y0 as nat, bw as nat, bh as nat),
                block.len() == bw * bh,
                bw * bh <= 0xffff_ffff * 0xffff_ffff,
                threshold == closeness_threshold as nat,
                tally.wf(),
                0 <= dx * bh,
                dx * bh + bh <= bw * bh,
                tally@ == far_pixels(block.take(dx * bh + dy), algo, threshold, accepted@),
                memo_holds(memo@, algo, threshold, accepted@),
            decreases bh - dy,
        {
            let ghost j: int = dx * bh + dy;
            let px: Pixel = image.get_pixel(x0 + dx, y0 + dy);
            proof {
                lemma_cell_index(bh as nat, bw as nat, dy as int, dx as int);
                assert(block[j] == px);
                assert(block.take(j).push(px) =~= block.take(j + 1));
                lemma_far_pixels_push(block.take(j), px, algo, threshold, accepted@);
            }
            let k: u32 = px.key();
            assert(k == key32(px));
            let known: Option<bool> = match memo.get(&k) {
                Some(close) => Some(*close),
                None => None,
            };
            let close: bool = match known {
                Some(close) => close,
                None => {
                    let close: bool = too_close(px, accepted, algo, closeness_threshold);
                    let ghost old_memo = memo@;
                    memo.insert(k, close);
                    proof {
                        assert forall|p: Pixel| #[trigger]
                            memo@.contains_key(key32(p)) implies memo@[key32(p)]
                            == too_close_to_any(algo, threshold, accepted@, p) by {
                            if key32(p) == k {
                                lemma_key_identifies(p, px);
                            } else {
                                assert(old_memo.contains_key(key32(p)));
                            }
                        }
                    }
                    close
                },
            };
            assert(close == too_close_to_any(algo, threshold, accepted@, px));
            if !close {
                tally.add(px);
            }
            dy = dy + 1;
        }
        assert((dx + 1) * bh == dx * bh + bh) by (nonlinear_arith);
        dx = dx + 1;
    }
    assert(block.take(bw * bh) =~= block);
    tally.most_frequent()
}

/// The least of two numbers of blocks.
pub open spec fn at_most(limit: nat, total: nat) -> nat {
    if limit <= total {
        limit
    } else {
        total
    }
}

/// Scans the blocks in their order until `limit` blocks are done, all are
/// done, or `stop`, where there is one, is seen raised before a block. Gives
/// the palette gathered and the number of blocks done.
fn scan_blocks(
    image: &Image,
    settings: PaletteSettings,
    dist_algo: DistanceAlgorithm,
    limit: u64,
    progress: &mut ProgressSink,
    stop: Option<&Arc<AtomicBool>>,
) -> (scanned: (Vec<Pixel>, u64))
    ensures
        scanned.0@ == palette_after(image@, settings, dist_algo, scanned.1 as nat),
        scanned.1 <= at_most(limit as nat, chunk_total(image@, settings)),
        stop is None ==> scanned.1 == at_most(limit as nat, chunk_total(image@, settings)),
        final(progress)@ == old(progress)@ + block_reports(
            scanned.1 as nat,
            chunk_total(image@, settings),
        ),
{
    let width: u32 = image.width();
    let height: u32 = image.height();
    let shorter: u32 = if width <= height {
        width
    } else {
        height
    };
    let chunks: u32 = get_closest_factor(settings.chunks_per_dimension, shorter);
    let mut palette: Vec<Pixel> = Vec::new();
    if chunks == 0 {
        assert(palette@ == palette_after(image@, settings, dist_algo, 0));
        assert(progress@ + block_reports(0, chunk_total(image@, settings)) =~= progress@);
        return (palette, 0);
    }
    let chunk_width: u32 = width / chunks;
    let chunk_height: u32 = height / chunks;
    assert(chunks * chunks <= 0xffff_ffff * 0xffff_ffff) by (nonlinear_arith)
        requires
            chunks <= 0xffff_ffff,
    ;
    let total: u64 = (chunks as u64) * (chunks as u64);
    let mut done: u64 = 0;
    let mut chunk_x: u32 = 0;
    proof {
        assert(progress@ + block_reports(0, total as nat) =~= progress@);
        assert(chunk_width * chunks <= width) by (nonlinear_arith)
            requires
                chunk_width == width / chunks,
                chunks > 0,
        ;
        assert(chunk_height * chunks <= height) by (nonlinear_arith)
            requires
                chunk_height == height / chunks,
                chunks > 0,
        ;
    }
    while chunk_x < chunks
        invariant
            image.wf(),
            width == image@.width,
            height == image@.height,
            chunks == chunk_count(image@, settings),
            chunks > 0,
            chunk_width == width / chunks,
            chunk_height == height / chunks,
            chunk_width * chunks <= width,
            chunk_height * chunks <= height,
            total == chunks * chunks,
            chunk_x <= chunks,
            done == chunk_x * chunks,
            done <= limit,
            palette@ == palette_after(image@, settings, dist_algo, done as nat),
            progress@ == old(progress)@ + block_reports(done as nat, total as nat),
        decreases chunks - chunk_x,
    {
        let mut chunk_y: u32 = 0;
        assert(chunk_x * chunks + chunks <= chunks * chunks) by (nonlinear_arith)
            requires
                chunk_x < chunks,
        ;
        while chunk_y < chunks
            invariant
                image.wf(),
                width == image@.width,
                height == image@.height,
                chunks == chunk_count(image@, settings),
                chunks > 0,
                chunk_width == width / chunks,
                chunk_height == height / chunks,
                chunk_width * chunks <= width,
                chunk_height * chunks <= height,
                total == chunks * chunks,
                chunk_x < chunks,
                chunk_y <= chunks,
                chunk_x * chunks + chunks <= chunks * chunks,
                done == chunk_x * chunks + chunk_y,
                done <= limit,
                palette@ == palette_after(image@, settings, dist_algo, done as nat),
                progress@ == old(progress)@ + block_reports(done as nat, total as nat),
            decreases chunks - chunk_y,
        {
            if done >= limit {
                return (palette, done);
            }
            let stopping: bool = match stop {
                Some(flag) => stop_requested(flag),
                None => false,
            };
            if stopping {
                return (palette, done);
            }
            proof {
                lemma_cell_index(chunks as nat, chunks as nat, chunk_y as int, chunk_x as int);
                assert(chunk_width * chunk_x + chunk_width <= chunk_width * chunks)
                    by (nonlinear_arith)
                    requires
                        chunk_x < chunks,
                        0 <= chunk_width,
                ;
                assert(chunk_height * chunk_y + chunk_height <= chunk_height * chunks)
                    by (nonlinear_arith)
                    requires
                        chunk_y < chunks,
                        0 <= chunk_height,
                ;
                assert(chunk_width * chunk_x >= 0 && chunk_height * chunk_y >= 0)
                    by (nonlinear_arith);
                assert(chunk_x * chunk_width == chunk_width * chunk_x
                    && chunk_y * chunk_height == chunk_height * chunk_y) by (nonlinear_arith);
            }
            let choice: Option<Pixel> = block_colour(
                image,
                chunk_width * chunk_x,
                chunk_height * chunk_y,
                chunk_width,
                chunk_height,
                dist_algo,
                settings.closeness_threshold,
                &palette,
            );
            match choice {
                Some(colour) => {
                    palette.push(colour);
                },
                None => {},
            }
            done = done + 1;
            chunk_y = chunk_y + 1;
            progress.report(done, total);
            proof {
                lemma_block_reports_push((done - 1) as nat, total as nat);
                assert(progress@ =~= old(progress)@ + block_reports(done as nat, total as nat));
            }
        }
        assert((chunk_x + 1) * chunks == chunk_x * chunks + chunks) by (nonlinear_arith);
        chunk_x = chunk_x + 1;
    }
    (palette, done)
}

/// The palette after the first `blocks` blocks of the scan of `image`, or
/// after all of them where there are fewer. The image is cut into as many
/// blocks along each dimension as `settings` asks for, snapped to a divisor
/// of the shorter side, and every block in turn contributes the most
/// frequent of its colours that keep the closeness threshold from the
/// colours accepted so far.
pub fn palette_of_blocks(
    image: &Image,
    settings: PaletteSettings,
    dist_algo: DistanceAlgorithm,
    blocks: u64,
) -> (palette: Vec<Pixel>)
    ensures
        palette@ == palette_after(
            image@,
            settings,
            dist_algo,
            at_most(blocks as nat, chunk_total(image@, settings)),
        ),
{
    let mut quiet: ProgressSink = ProgressSink::silent();
    scan_blocks(image, settings, dist_algo, blocks, &mut quiet, None).0
}

/// Draws a palette from `image` as `palette_of_blocks` does, for as long as
/// it is not asked to stop. Before each block `stop` is looked at; once it
/// is seen raised the palette gathered so far is returned. After each block
/// the number of blocks done and their total are reported to `progress`.
pub fn get_palette(
    image: &Image,
    settings: PaletteSettings,
    dist_algo: DistanceAlgorithm,
    progress: &mut ProgressSink,
    stop: Arc<AtomicBool>,
) -> (palette: Vec<Pixel>)
    ensures
        exists|k: nat|
            k <= chunk_total(image@, settings) && palette@ == #[trigger] palette_after(
                image@,
                settings,
                dist_algo,
                k,
            ) && final(progress)@ == old(progress)@ + block_reports(
                k,
                chunk_total(image@, settings),
            ),
        palette@.len() <= chunk_total(image@, settings),
        chunk_count(image@, settings) <= settings.chunks_per_dimension ==> palette@.len()
            <= settings.chunks_per_dimension * settings.chunks_per_dimension,
{
    let scanned: (Vec<Pixel>, u64) = scan_blocks(
        image,
        settings,
        dist_algo,
        u64::MAX,
        progress,
        Some(&stop),
    );
    proof {
        lemma_palette_len(image@, settings, dist_algo, scanned.1 as nat);
        if chunk_count(image@, settings) <= settings.chunks_per_dimension {
            lemma_palette_size(image@, settings, dist_algo, scanned.1 as nat);
        }
    }
    scanned.0
}

} // verus!
