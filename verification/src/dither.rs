//! Rendering an image in blocks of palette colours, and scaling the result
//! back up.

use crate::distance::DistanceAlgorithm;
use crate::factor::{closest_factor, get_closest_factor, lemma_closest_factor_of_large_target};
use crate::matching::{blend, choose_colours};
use crate::mosaic::{
    lemma_mosaic_at, lemma_mosaic_blank, lemma_mosaic_step, lemma_tile_of_position, mosaic,
    paint_tile, tile_place,
};
use crate::palette::{at_most, block_pixels};
use crate::pixel::Pixel;
use crate::raster::{
    can_hold, lemma_cell_index, lemma_from_fn_at, lemma_grid_ext, storable, Grid, Image,
};
use crate::settings::OutputSettings;
use crate::signals::{block_reports, lemma_block_reports_push, stop_requested, ProgressSink};
use std::sync::atomic::AtomicBool;
use std::sync::Arc;
use vstd::prelude::*;

verus! {

/// The sums of the red, green and blue channels over `s`.
pub open spec fn colour_sums(s: Seq<Pixel>) -> (nat, nat, nat)
    decreases s.len(),
{
    if s.len() == 0 {
        (0, 0, 0)
    } else {
        let front = colour_sums(s.drop_last());
        (
            front.0 + s.last().r as nat,
            front.1 + s.last().g as nat,
            front.2 + s.last().b as nat,
        )
    }
}

/// The opaque colour whose channels are the means of the channels over `s`,
/// each rounded down.
pub open spec fn mean_colour(s: Seq<Pixel>) -> Pixel {
    let sums = colour_sums(s);
    Pixel {
        r: (sums.0 / s.len()) as u8,
        g: (sums.1 / s.len()) as u8,
        b: (sums.2 / s.len()) as u8,
        a: 255,
    }
}

/// The side of a block in input pixels: the side that is asked for, snapped
/// to a divisor of the width. Zero for an image without columns.
pub open spec fn block_side(grid: Grid, settings: OutputSettings) -> nat {
    closest_factor(settings.block_target(), grid.width)
}

/// The number of blocks in a row of blocks.
pub open spec fn block_columns(grid: Grid, settings: OutputSettings) -> nat {
    if block_side(grid, settings) == 0 {
        0
    } else {
        grid.width / block_side(grid, settings)
    }
}

/// The number of blocks in a column of blocks. Rows of pixels beyond the
/// last whole block are left out.
pub open spec fn block_rows(grid: Grid, settings: OutputSettings) -> nat {
    if block_side(grid, settings) == 0 {
        0
    } else {
        grid.height / block_side(grid, settings)
    }
}

/// The number of blocks.
pub open spec fn block_total(grid: Grid, settings: OutputSettings) -> nat {
    block_columns(grid, settings) * block_rows(grid, settings)
}

/// The two colours of the block in column `cx` and row `cy`: those that the
/// palette gives for the mean colour of the block's pixels. With an empty
/// palette the block stays blank.
pub open spec fn block_pair(
    grid: Grid,
    palette: Seq<Pixel>,
    algo: DistanceAlgorithm,
    settings: OutputSettings,
    cx: int,
    cy: int,
) -> (Pixel, Pixel) {
    let side = block_side(grid, settings);
    if palette.len() == 0 {
        (Pixel::blank(), Pixel::blank())
    } else {
        blend(
            palette,
            algo,
            settings,
            mean_colour(block_pixels(grid, (cx * side) as nat, (cy * side) as nat, side, side)),
        )
    }
}

/// The two colours of every block, by column and row.
pub open spec fn block_pairs(
    grid: Grid,
    palette: Seq<Pixel>,
    algo: DistanceAlgorithm,
    settings: OutputSettings,
) -> spec_fn(int, int) -> (Pixel, Pixel) {
    |cx: int, cy: int| block_pair(grid, palette, algo, settings, cx, cy)
}

/// The coarse output after the first `k` blocks: every block of the input
/// is a tile whose side is the dithering scale, painted with the block's two
/// colours over the checkerboard mask; the tiles not yet reached are blank.
pub open spec fn rendered(
    grid: Grid,
    palette: Seq<Pixel>,
    algo: DistanceAlgorithm,
    settings: OutputSettings,
    k: nat,
) -> Grid {
    mosaic(
        block_columns(grid, settings),
        block_rows(grid, settings),
        settings.scale(),
        k,
        block_pairs(grid, palette, algo, settings),
    )
}

/// For every position the colour of `grid` there, twice.
pub open spec fn own_colours(grid: Grid) -> spec_fn(int, int) -> (Pixel, Pixel) {
    |cx: int, cy: int| (grid.at(cx, cy), grid.at(cx, cy))
}

/// The factor by which a coarse output is scaled up: the block side that is
/// asked for, divided by the dithering scale.
pub open spec fn upscale_factor(settings: OutputSettings) -> nat {
    settings.block_target() / settings.scale()
}

/// `grid` with every pixel repeated, without its transparency, into a
/// square of side `factor`.
pub open spec fn replicated(grid: Grid, factor: nat) -> Grid {
    Grid::from_fn(
        grid.width * factor,
        grid.height * factor,
        |x: int, y: int| grid.at(x / (factor as int), y / (factor as int)).as_opaque(),
    )
}

/// `grid` scaled up as `settings` asks: unchanged where scaling is off.
pub open spec fn scaled_to_original(settings: OutputSettings, grid: Grid) -> Grid {
    if settings.scale_output_to_original {
        replicated(grid, upscale_factor(settings))
    } else {
        grid
    }
}

/// An image of these dimensions can be scaled up as `settings` asks.
pub open spec fn can_scale(settings: OutputSettings, width: nat, height: nat) -> bool {
    settings.scale_output_to_original ==> storable(
        width * upscale_factor(settings),
        height * upscale_factor(settings),
    )
}

/// The image can be rendered as `settings` asks: the coarse output, and the
/// output scaled up where that is asked for, can be held in memory.
pub open spec fn can_render(grid: Grid, settings: OutputSettings) -> bool {
    &&& storable(
        block_columns(grid, settings) * settings.scale(),
        block_rows(grid, settings) * settings.scale(),
    )
    &&& can_scale(
        settings,
        block_columns(grid, settings) * settings.scale(),
        block_rows(grid, settings) * settings.scale(),
    )
}

/// What a rendering gives that stopped after `k` blocks: the coarse output so
/// far, unless every block was done; then the output, scaled up as asked.
pub open spec fn outcome(
    grid: Grid,
    palette: Seq<Pixel>,
    algo: DistanceAlgorithm,
    settings: OutputSettings,
    k: nat,
) -> Grid {
    if k == block_total(grid, settings) {
        scaled_to_original(settings, rendered(grid, palette, algo, settings, k))
    } else {
        rendered(grid, palette, algo, settings, k)
    }
}

/// One more pixel adds its channels to the sums, and no sum exceeds 255 for
/// each pixel.
pub proof fn lemma_colour_sums_push(s: Seq<Pixel>, x: Pixel)
    ensures
        colour_sums(s.push(x)) == (
            colour_sums(s).0 + x.r as nat,
            colour_sums(s).1 + x.g as nat,
            colour_sums(s).2 + x.b as nat,
        ),
{
    assert(s.push(x).drop_last() =~= s);
}

/// No channel sum exceeds 255 for each pixel.
pub proof fn lemma_colour_sums_bound(s: Seq<Pixel>)
    ensures
        colour_sums(s).0 <= 255 * s.len(),
        colour_sums(s).1 <= 255 * s.len(),
        colour_sums(s).2 <= 255 * s.len(),
    decreases s.len(),
{
    if s.len() > 0 {
        lemma_colour_sums_bound(s.drop_last());
    }
}

/// With scaling switched off, scaling up leaves an image as it is.
pub proof fn lemma_unscaled_is_unchanged(settings: OutputSettings, grid: Grid)
    requires
        !settings.scale_output_to_original,
    ensures
        scaled_to_original(settings, grid) == grid,
{
}

/// Rendering has no hidden input: what it gives is settled by the image, the
/// palette, the metric, the settings and the number of blocks that were done
/// before it stopped. Two renderings that agree on these give the same
/// image, pixel for pixel.
pub proof fn lemma_rendering_is_determined(
    first: Grid,
    second: Grid,
    grid: Grid,
    palette: Seq<Pixel>,
    algo: DistanceAlgorithm,
    settings: OutputSettings,
    k: nat,
)
    requires
        first == outcome(grid, palette, algo, settings, k),
        second == outcome(grid, palette, algo, settings, k),
    ensures
        first == second,
{
}

/// A rendering holds no colour but those of the palette, without their
/// transparency, and blank where nothing is painted yet.
pub proof fn lemma_rendered_from_palette(
    grid: Grid,
    palette: Seq<Pixel>,
    algo: DistanceAlgorithm,
    settings: OutputSettings,
    k: nat,
    x: int,
    y: int,
)
    requires
        rendered(grid, palette, algo, settings, k).has(x, y),
    ensures
        rendered(grid, palette, algo, settings, k).at(x, y) == Pixel::blank() || exists|i: int|
            0 <= i < palette.len() && rendered(grid, palette, algo, settings, k).at(x, y)
                == (#[trigger] palette[i]).as_opaque(),
{
    let cols = block_columns(grid, settings);
    let rows = block_rows(grid, settings);
    let scale = settings.scale();
    let out = rendered(grid, palette, algo, settings, k);
    lemma_mosaic_at(cols, rows, scale, k, block_pairs(grid, palette, algo, settings));
    let cx = x / (scale as int);
    let cy = y / (scale as int);
    if palette.len() > 0 && tile_place(rows, cx, cy) < k {
        let side = block_side(grid, settings);
        let target = mean_colour(
            block_pixels(grid, (cx * side) as nat, (cy * side) as nat, side, side),
        );
        crate::matching::lemma_blend_from_palette(palette, algo, settings, target);
        let pair = blend(palette, algo, settings, target);
        let i = choose|i: int| 0 <= i < palette.len() && palette[i] == pair.0;
        let j = choose|j: int| 0 <= j < palette.len() && palette[j] == pair.1;
        assert(out.at(x, y) == palette[i].as_opaque() || out.at(x, y) == palette[j].as_opaque());
    }
}

/// Settings that count as the same render the same: where there is no
/// dithering the likelihood has no say in the output.
pub proof fn lemma_same_settings_render_alike(
    grid: Grid,
    palette: Seq<Pixel>,
    algo: DistanceAlgorithm,
    one: OutputSettings,
    other: OutputSettings,
    k: nat,
)
    requires
        one.same_as(other),
    ensures
        outcome(grid, palette, algo, one, k) == outcome(grid, palette, algo, other, k),
{
    let cols = block_columns(grid, one);
    let rows = block_rows(grid, one);
    let scale = one.scale();
    let a = rendered(grid, palette, algo, one, k);
    let b = rendered(grid, palette, algo, other, k);
    lemma_mosaic_at(cols, rows, scale, k, block_pairs(grid, palette, algo, one));
    lemma_mosaic_at(cols, rows, scale, k, block_pairs(grid, palette, algo, other));
    assert forall|x: int, y: int| a.has(x, y) implies a.at(x, y) == b.at(x, y) by {
        assert(b.has(x, y));
    }
    lemma_grid_ext(a, b);
}

/// The mean colour of the block of `bw` columns and `bh` rows at `(x0, y0)`;
/// `None` for a block without pixels.
pub fn average_colour(image: &Image, x0: u32, y0: u32, bw: u32, bh: u32) -> (mean: Option<Pixel>)
    requires
        x0 + bw <= image@.width,
        y0 + bh <= image@.height,
    ensures
        mean is None <==> (bw == 0 || bh == 0),
        mean matches Some(colour) ==> colour == mean_colour(
            block_pixels(image@, x0 as nat, y0 as nat, bw as nat, bh as nat),
        ),
{
    if bw == 0 || bh == 0 {
        return None;
    }
    let _ = image.dimensions();
    let ghost block = block_pixels(image@, x0 as nat, y0 as nat, bw as nat, bh as nat);
    let mut sum_r: u128 = 0;
    let mut sum_g: u128 = 0;
    let mut sum_b: u128 = 0;
    let mut dx: u32 = 0;
    assert(block.take(0) =~= Seq::<Pixel>::empty());
    assert(block.len() == bw * bh);
    assert(0 < bw * bh <= 0xffff_ffff * 0xffff_ffff) by (nonlinear_arith)
        requires
            0 < bw <= 0xffff_ffff,
            0 < bh <= 0xffff_ffff,
    ;
    while dx < bw
        invariant
            dx <= bw,
            image.wf(),
            x0 + bw <= image@.width,
            y0 + bh <= image@.height,
            block == block_pixels(image@, x0 as nat, y0 as nat, bw as nat, bh as nat),
            block.len() == bw * bh,
            bw * bh <= 0xffff_ffff * 0xffff_ffff,
            0 <= dx * bh <= bw * bh,
            (sum_r as nat, sum_g as nat, sum_b as nat) == colour_sums(block.take(dx * bh)),
        decreases bw - dx,
    {
        let mut dy: u32 = 0;
        assert(dx * bh + bh <= bw * bh) by (nonlinear_arith)
            requires
                dx < bw,
                0 <= bh,
        ;
        while dy < bh
            invariant
                dy <= bh,
                dx < bw,
                image.wf(),
                x0 + bw <= image@.width,
                y0 + bh <= image@.height,
                block == block_pixels(image@, x0 as nat, y0 as nat, bw as nat, bh as nat),
                block.len() == bw * bh,
                bw * bh <= 0xffff_ffff * 0xffff_ffff,
                0 <= dx * bh,
                dx * bh + bh <= bw * bh,
                (sum_r as nat, sum_g as nat, sum_b as nat) == colour_sums(
                    block.take(dx * bh + dy),
                ),
            decreases bh - dy,
        {
            let ghost j: int = dx * bh + dy;
            let px: Pixel = image.get_pixel(x0 + dx, y0 + dy);
            proof {
                lemma_cell_index(bh as nat, bw as nat, dy as int, dx as int);
                assert(block[j] == px);
                assert(block.take(j).push(px) =~= block.take(j + 1));
                lemma_colour_sums_push(block.take(j), px);
                lemma_colour_sums_bound(block.take(j));
            }
            sum_r = sum_r + px.r as u128;
            sum_g = sum_g + px.g as u128;
            sum_b = sum_b + px.b as u128;
            dy = dy + 1;
        }
        assert((dx + 1) * bh == dx * bh + bh) by (nonlinear_arith);
        dx = dx + 1;
    }
    assert(block.take(bw * bh) =~= block);
    let count: u128 = (bw as u128) * (bh as u128);
    proof {
        lemma_colour_sums_bound(block);
        let n = count as int;
        assert(sum_r / count <= 255 && sum_g / count <= 255 && sum_b / count <= 255)
            by (nonlinear_arith)
            requires
                n == count,
                n > 0,
                sum_r <= 255 * n,
                sum_g <= 255 * n,
                sum_b <= 255 * n,
        ;
    }
    Some(
        Pixel {
            r: (sum_r / count) as u8,
            g: (sum_g / count) as u8,
            b: (sum_b / count) as u8,
            a: 255,
        },
    )
}

/// The side of a block for an image of the given width.
pub fn snapped_block_side(width: u32, settings: OutputSettings) -> (side: u32)
    ensures
        side == closest_factor(settings.block_target(), width as nat),
        width > 0 ==> 1 <= side <= width && width % side == 0,
        width == 0 ==> side == 0,
{
    let small: Option<u32> = match settings.checked_block_target() {
        Some(target) => if target <= 0xffff_ffff {
            Some(target as u32)
        } else {
            None
        },
        None => None,
    };
    match small {
        Some(target) => get_closest_factor(target, width),
        None => {
            proof {
                if width > 0 {
                    lemma_closest_factor_of_large_target(settings.block_target(), width as nat);
                }
            }
            width
        },
    }
}

/// The factor by which a coarse output is scaled up; `None` where it is
/// beyond 32 bits.
pub fn checked_upscale_factor(settings: OutputSettings) -> (factor: Option<u32>)
    ensures
        match factor {
            Some(f) => f == upscale_factor(settings),
            None => upscale_factor(settings) > u32::MAX,
        },
{
    let scale: u32 = settings.clamped_scale();
    match settings.checked_block_target() {
        Some(target) => {
            let factor: u64 = target / (scale as u64);
            if factor <= 0xffff_ffff {
                Some(factor as u32)
            } else {
                None
            }
        },
        None => {
            proof {
                let t = settings.block_target() as int;
                let d = scale as int;
                assert(t / d > 0xffff_ffff) by (nonlinear_arith)
                    requires
                        t > 0xffff_ffff_ffff_ffff,
                        0 < d <= 0xffff_ffff,
                ;
            }
            None
        },
    }
}

/// Whether an image of the given dimensions can be scaled up as `settings`
/// asks.
pub fn scaling_fits(settings: OutputSettings, width: u32, height: u32) -> (fits: bool)
    ensures
        fits == can_scale(settings, width as nat, height as nat),
{
    if !settings.scale_output_to_original {
        return true;
    }
    match checked_upscale_factor(settings) {
        Some(factor) => {
            assert(0 <= width * factor <= 0xffff_ffff * 0xffff_ffff && 0 <= height * factor
                <= 0xffff_ffff * 0xffff_ffff) by (nonlinear_arith)
                requires
                    width <= 0xffff_ffff,
                    height <= 0xffff_ffff,
                    factor <= 0xffff_ffff,
            ;
            can_hold((width as u64) * (factor as u64), (height as u64) * (factor as u64))
        },
        None => {
            proof {
                let f = upscale_factor(settings) as int;
                assert(width > 0 ==> width * f > 0xffff_ffff) by (nonlinear_arith)
                    requires
                        f > 0xffff_ffff,
                ;
                assert(height > 0 ==> height * f > 0xffff_ffff) by (nonlinear_arith)
                    requires
                        f > 0xffff_ffff,
                ;
                assert(width == 0 ==> width * f == 0) by (nonlinear_arith);
                assert(height == 0 ==> height * f == 0) by (nonlinear_arith);
                assert(0 * 0 == 0);
            }
            width == 0 && height == 0
        },
    }
}

/// Whether an image of the given dimensions can be rendered as `settings`
/// asks.
pub fn rendering_fits(width: u32, height: u32, settings: OutputSettings) -> (fits: bool)
    ensures
        forall|grid: Grid|
            grid.width == width && grid.height == height ==> fits == #[trigger] can_render(
                grid,
                settings,
            ),
{
    let side: u32 = snapped_block_side(width, settings);
    let columns: u32 = if side == 0 {
        0
    } else {
        width / side
    };
    let rows: u32 = if side == 0 {
        0
    } else {
        height / side
    };
    let scale: u32 = settings.clamped_scale();
    assert(0 <= columns * scale <= 0xffff_ffff * 0xffff_ffff && 0 <= rows * scale <= 0xffff_ffff
        * 0xffff_ffff) by (nonlinear_arith)
        requires
            columns <= 0xffff_ffff,
            rows <= 0xffff_ffff,
            scale <= 0xffff_ffff,
    ;
    let coarse_width: u64 = (columns as u64) * (scale as u64);
    let coarse_height: u64 = (rows as u64) * (scale as u64);
    if !can_hold(coarse_width, coarse_height) {
        return false;
    }
    scaling_fits(settings, coarse_width as u32, coarse_height as u32)
}

/// Scales a coarse output up as `output_settings` asks: where scaling is on,
/// every pixel becomes a square of that colour whose side is the upscale
/// factor; where it is off, the result is a copy of `from`.
pub fn pixel_perfect_scale(output_settings: OutputSettings, from: &Image) -> (scaled: Image)
    requires
        can_scale(output_settings, from@.width, from@.height),
    ensures
        scaled.wf(),
        scaled@ == scaled_to_original(output_settings, from@),
        !output_settings.scale_output_to_original ==> scaled@ == from@,
{
    let (width, height) = from.dimensions();
    if !output_settings.scale_output_to_original {
        return from.clone();
    }
    let ghost target = replicated(from@, upscale_factor(output_settings));
    let ghost colours = own_colours(from@);
    match checked_upscale_factor(output_settings) {
        None => {
            proof {
                let f = upscale_factor(output_settings) as int;
                assert(width > 0 ==> width * f > 0xffff_ffff) by (nonlinear_arith)
                    requires
                        f > 0xffff_ffff,
                ;
                assert(height > 0 ==> height * f > 0xffff_ffff) by (nonlinear_arith)
                    requires
                        f > 0xffff_ffff,
                ;
                assert(width == 0 && height == 0);
                assert(0 * f == 0) by (nonlinear_arith);
            }
            let scaled: Image = Image::new(0, 0);
            proof {
                let f = upscale_factor(output_settings);
                assert(from@.width * f == 0 && from@.height * f == 0) by (nonlinear_arith)
                    requires
                        from@.width == 0,
                        from@.height == 0,
                ;
                assert(target.width == 0 && target.height == 0);
                assert(target.cells.len() == 0);
                lemma_grid_ext(scaled@, target);
            }
            scaled
        },
        Some(factor) => {
            let mut scaled: Image = Image::new(width * factor, height * factor);
            proof {
                lemma_mosaic_blank(
                    scaled@,
                    width as nat,
                    height as nat,
                    factor as nat,
                    colours,
                );
            }
            let mut x: u32 = 0;
            while x < width
                invariant
                    from.wf(),
                    scaled.wf(),
                    scaled.paintable(),
                    width == from@.width,
                    height == from@.height,
                    colours == own_colours(from@),
                    x <= width,
                    0 <= x * height <= width * height,
                    scaled@ == mosaic(
                        width as nat,
                        height as nat,
                        factor as nat,
                        (x * height) as nat,
                        colours,
                    ),
                decreases width - x,
            {
                let mut y: u32 = 0;
                assert(0 <= x * height && x * height + height <= width * height)
                    by (nonlinear_arith)
                    requires
                        0 <= x < width,
                        0 <= height,
                ;
                while y < height
                    invariant
                        from.wf(),
                        scaled.wf(),
                        scaled.paintable(),
                        width == from@.width,
                        height == from@.height,
                        colours == own_colours(from@),
                        x < width,
                        y <= height,
                        0 <= x * height,
                        x * height + height <= width * height,
                        scaled@ == mosaic(
                            width as nat,
                            height as nat,
                            factor as nat,
                            (x * height + y) as nat,
                            colours,
                        ),
                    decreases height - y,
                {
                    let px: Pixel = from.get_pixel(x, y);
                    let ghost before = scaled@;
                    proof {
                        lemma_mosaic_at(
                            width as nat,
                            height as nat,
                            factor as nat,
                            (x * height + y) as nat,
                            colours,
                        );
                        assert(x * factor + factor <= width * factor) by (nonlinear_arith)
                            requires
                                0 <= x < width,
                                0 <= factor,
                        ;
                        assert(y * factor + factor <= height * factor) by (nonlinear_arith)
                            requires
                                0 <= y < height,
                                0 <= factor,
                        ;
                    }
                    paint_tile(&mut scaled, x, y, factor, px, px);
                    proof {
                        lemma_mosaic_step(
                            before,
                            scaled@,
                            width as nat,
                            height as nat,
                            factor as nat,
                            (x * height + y) as nat,
                            colours,
                            x as int,
                            y as int,
                        );
                    }
                    y = y + 1;
                }
                assert((x + 1) * height == x * height + height) by (nonlinear_arith);
                x = x + 1;
            }
            proof {
                let whole = mosaic(
                    width as nat,
                    height as nat,
                    factor as nat,
                    (width * height) as nat,
                    colours,
                );
                lemma_mosaic_at(
                    width as nat,
                    height as nat,
                    factor as nat,
                    (width * height) as nat,
                    colours,
                );
                assert forall|u: int, v: int| whole.has(u, v) implies whole.at(u, v) == target.at(
                    u,
                    v,
                ) by {
                    lemma_tile_of_position(width as nat, height as nat, factor as nat, u, v);
                    lemma_from_fn_at(
                        from@.width * (factor as nat),
                        from@.height * (factor as nat),
                        |x: int, y: int| from@.at(x / (factor as int), y / (factor as int)).as_opaque(),
                        u,
                        v,
                    );
                }
                assert(target.wf()) by {
                    if from@.width * (factor as nat) > 0 && from@.height * (factor as nat) > 0 {
                        lemma_from_fn_at(
                            from@.width * (factor as nat),
                            from@.height * (factor as nat),
                            |x: int, y: int| from@.at(x / (factor as int), y / (factor as int)).as_opaque(),
                            0,
                            0,
                        );
                    } else {
                        assert(from@.width * (factor as nat) * (from@.height * (factor as nat))
                            == 0) by (nonlinear_arith)
                            requires
                                from@.width * (factor as nat) == 0 || from@.height * (
                                factor as nat) == 0,
                        ;
                    }
                }
                lemma_grid_ext(whole, target);
            }
            scaled
        },
    }
}

/// Paints the blocks in their order onto a blank coarse output until `limit`
/// blocks are done, all are done, or `stop`, where there is one, is seen
/// raised before a block. Gives the coarse output, the number of blocks done
/// and their total.
fn paint_blocks(
    input: &Image,
    palette: &[Pixel],
    distance_algorithm: DistanceAlgorithm,
    output_settings: OutputSettings,
    limit: u64,
    progress: &mut ProgressSink,
    stop: Option<&Arc<AtomicBool>>,
) -> (painted: (Image, u64, u64))
    requires
        can_render(input@, output_settings),
    ensures
        painted.0.wf(),
        painted.0@ == rendered(
            input@,
            palette@,
            distance_algorithm,
            output_settings,
            painted.1 as nat,
        ),
        painted.2 == block_total(input@, output_settings),
        painted.1 <= at_most(limit as nat, painted.2 as nat),
        stop is None ==> painted.1 == at_most(limit as nat, painted.2 as nat),
        final(progress)@ == old(progress)@ + block_reports(painted.1 as nat, painted.2 as nat),
{
    let width: u32 = input.width();
    let height: u32 = input.height();
    let side: u32 = snapped_block_side(width, output_settings);
    let columns: u32 = if side == 0 {
        0
    } else {
        width / side
    };
    let rows: u32 = if side == 0 {
        0
    } else {
        height / side
    };
    let scale: u32 = output_settings.clamped_scale();
    let ghost colours = block_pairs(input@, palette@, distance_algorithm, output_settings);
    proof {
        assert(0 <= columns * rows <= 0xffff_ffff * 0xffff_ffff) by (nonlinear_arith)
            requires
                columns <= 0xffff_ffff,
                rows <= 0xffff_ffff,
        ;
        if side > 0 {
            assert(columns * side <= width) by (nonlinear_arith)
                requires
                    columns == width / side,
                    side > 0,
            ;
            assert(rows * side <= height) by (nonlinear_arith)
                requires
                    rows == height / side,
                    side > 0,
            ;
        }
    }
    let mut output: Image = Image::new(columns * scale, rows * scale);
    proof {
        lemma_mosaic_blank(output@, columns as nat, rows as nat, scale as nat, colours);
    }
    let total: u64 = (columns as u64) * (rows as u64);
    let mut done: u64 = 0;
    let mut chunk_x: u32 = 0;
    assert(progress@ + block_reports(0, total as nat) =~= progress@);
    while chunk_x < columns
        invariant
            input.wf(),
            output.wf(),
            output.paintable(),
            can_render(input@, output_settings),
            width == input@.width,
            height == input@.height,
            side == block_side(input@, output_settings),
            columns == block_columns(input@, output_settings),
            rows == block_rows(input@, output_settings),
            scale == output_settings.scale(),
            colours == block_pairs(input@, palette@, distance_algorithm, output_settings),
            side > 0 ==> columns * side <= width && rows * side <= height,
            total == columns * rows,
            chunk_x <= columns,
            done == chunk_x * rows,
            done <= limit,
            progress@ == old(progress)@ + block_reports(done as nat, total as nat),
            output@ == rendered(
                input@,
                palette@,
                distance_algorithm,
                output_settings,
                done as nat,
            ),
        decreases columns - chunk_x,
    {
        let mut chunk_y: u32 = 0;
        assert(0 <= chunk_x * rows && chunk_x * rows + rows <= columns * rows)
            by (nonlinear_arith)
            requires
                0 <= chunk_x < columns,
                0 <= rows,
        ;
        while chunk_y < rows
            invariant
                input.wf(),
                output.wf(),
                output.paintable(),
                can_render(input@, output_settings),
                width == input@.width,
                height == input@.height,
                side == block_side(input@, output_settings),
                columns == block_columns(input@, output_settings),
                rows == block_rows(input@, output_settings),
                scale == output_settings.scale(),
                colours == block_pairs(input@, palette@, distance_algorithm, output_settings),
                side > 0 ==> columns * side <= width && rows * side <= height,
                total == columns * rows,
                chunk_x < columns,
                chunk_y <= rows,
                0 <= chunk_x * rows,
                chunk_x * rows + rows <= columns * rows,
                done == chunk_x * rows + chunk_y,
                done <= limit,
                progress@ == old(progress)@ + block_reports(done as nat, total as nat),
                output@ == rendered(
                    input@,
                    palette@,
                    distance_algorithm,
                    output_settings,
                    done as nat,
                ),
            decreases rows - chunk_y,
        {
            if done >= limit {
                return (output, done, total);
            }
            let stopping: bool = match stop {
                Some(flag) => stop_requested(flag),
                None => false,
            };
            if stopping {
                return (output, done, total);
            }
            proof {
                assert(side * chunk_x + side <= columns * side && side * chunk_x >= 0
                    && side * chunk_x == chunk_x * side) by (nonlinear_arith)
                    requires
                        0 <= chunk_x < columns,
                        0 <= side,
                ;
                assert(side * chunk_y + side <= rows * side && side * chunk_y >= 0 && side
                    * chunk_y == chunk_y * side) by (nonlinear_arith)
                    requires
                        0 <= chunk_y < rows,
                        0 <= side,
                ;
                assert(chunk_x * scale + scale <= columns * scale) by (nonlinear_arith)
                    requires
                        0 <= chunk_x < columns,
                        0 <= scale,
                ;
                assert(chunk_y * scale + scale <= rows * scale) by (nonlinear_arith)
                    requires
                        0 <= chunk_y < rows,
                        0 <= scale,
                ;
            }
            let mean: Option<Pixel> = average_colour(
                input,
                side * chunk_x,
                side * chunk_y,
                side,
                side,
            );
            let pair: (Pixel, Pixel) = match mean {
                Some(target) => match choose_colours(
                    palette,
                    distance_algorithm,
                    output_settings,
                    target,
                ) {
                    Some(pair) => pair,
                    None => (Pixel::blank(), Pixel::blank()),
                },
                None => (Pixel::blank(), Pixel::blank()),
            };
            assert(pair == colours(chunk_x as int, chunk_y as int));
            let ghost before = output@;
            proof {
                lemma_mosaic_at(
                    columns as nat,
                    rows as nat,
                    scale as nat,
                    done as nat,
                    colours,
                );
            }
            paint_tile(&mut output, chunk_x, chunk_y, scale, pair.0, pair.1);
            proof {
                lemma_mosaic_step(
                    before,
                    output@,
                    columns as nat,
                    rows as nat,
                    scale as nat,
                    done as nat,
                    colours,
                    chunk_x as int,
                    chunk_y as int,
                );
            }
            done = done + 1;
            chunk_y = chunk_y + 1;
            progress.report(done, total);
            proof {
                lemma_block_reports_push((done - 1) as nat, total as nat);
                assert(progress@ =~= old(progress)@ + block_reports(done as nat, total as nat));
            }
        }
        assert((chunk_x + 1) * rows == chunk_x * rows + rows) by (nonlinear_arith);
        chunk_x = chunk_x + 1;
    }
    (output, done, total)
}

/// What `input` renders to once the first `blocks` blocks are done, or all of
/// them where there are fewer. The block side that `output_settings` asks
/// for is snapped to a divisor of the width; every block in turn is matched,
/// by its mean colour, against the palette and painted as a tile whose side
/// is the dithering scale: in the nearest colour, or, where the match is not
/// decisive, in the two nearest over the checkerboard mask. While blocks are
/// left the result is the coarse output so far; once all are done it is the
/// output scaled up as `output_settings` asks.
pub fn render_blocks(
    input: &Image,
    palette: &[Pixel],
    distance_algorithm: DistanceAlgorithm,
    output_settings: OutputSettings,
    blocks: u64,
) -> (output: Image)
    requires
        can_render(input@, output_settings),
    ensures
        output.wf(),
        output@ == outcome(
            input@,
            palette@,
            distance_algorithm,
            output_settings,
            at_most(blocks as nat, block_total(input@, output_settings)),
        ),
{
    let mut quiet: ProgressSink = ProgressSink::silent();
    let painted: (Image, u64, u64) = paint_blocks(
        input,
        palette,
        distance_algorithm,
        output_settings,
        blocks,
        &mut quiet,
        None,
    );
    if painted.1 == painted.2 {
        pixel_perfect_scale(output_settings, &painted.0)
    } else {
        painted.0
    }
}

/// Renders `input` as `render_blocks` does, for as long as it is not asked to
/// stop. Before each block `stop` is looked at; once it is seen raised the
/// coarse output painted so far is returned. After each block the number of
/// blocks done and their total are reported to `progress`. When all blocks
/// are done the output is scaled up as `output_settings` asks.
pub fn dither_original_with_palette(
    input: &Image,
    palette: &[Pixel],
    distance_algorithm: DistanceAlgorithm,
    output_settings: OutputSettings,
    progress: &mut ProgressSink,
    stop: Arc<AtomicBool>,
) -> (output: Image)
    requires
        can_render(input@, output_settings),
    ensures
        output.wf(),
        exists|k: nat|
            k <= block_total(input@, output_settings) && output@ == #[trigger] outcome(
                input@,
                palette@,
                distance_algorithm,
                output_settings,
                k,
            ) && final(progress)@ == old(progress)@ + block_reports(
                k,
                block_total(input@, output_settings),
            ),
{
    let painted: (Image, u64, u64) = paint_blocks(
        input,
        palette,
        distance_algorithm,
        output_settings,
        u64::MAX,
        progress,
        Some(&stop),
    );
    let output: Image = if painted.1 == painted.2 {
        pixel_perfect_scale(output_settings, &painted.0)
    } else {
        painted.0
    };
    assert(output@ == outcome(
        input@,
        palette@,
        distance_algorithm,
        output_settings,
        painted.1 as nat,
    ));
    output
}

} // verus!
