//! Images made of square tiles, painted tile by tile.

use crate::pixel::Pixel;
use crate::raster::{lemma_from_fn_at, lemma_grid_ext, Grid, Image};
use vstd::prelude::*;

verus! {

/// The checkerboard mask over the positions of an image: a position is on
/// the mask where exactly one of its column and its row is even.
pub open spec fn on_mask(x: int, y: int) -> bool {
    (x % 2 == 0) != (y % 2 == 0)
}

/// Whether `(x, y)` lies in the tile of side `scale` in column `cx` and row
/// `cy` of the tiling.
pub open spec fn in_tile(x: int, y: int, cx: int, cy: int, scale: int) -> bool {
    cx * scale <= x < cx * scale + scale && cy * scale <= y < cy * scale + scale
}

/// The colour of a position of a tile painted with `on` and `off`: `on` on
/// the mask and `off` elsewhere, either without its transparency.
pub open spec fn tile_colour(x: int, y: int, on: Pixel, off: Pixel) -> Pixel {
    if on_mask(x, y) {
        on.as_opaque()
    } else {
        off.as_opaque()
    }
}

/// The place of the tile in column `cx` and row `cy` in the order of
/// painting: column of tiles after column of tiles, each from its top.
pub open spec fn tile_place(rows: nat, cx: int, cy: int) -> int {
    cx * rows + cy
}

/// The pixel at `(x, y)` of a mosaic of which the first `k` tiles are
/// painted: the colour of its tile if that is painted, else blank.
pub open spec fn mosaic_pixel(
    rows: nat,
    scale: nat,
    k: nat,
    colours: spec_fn(int, int) -> (Pixel, Pixel),
    x: int,
    y: int,
) -> Pixel {
    let cx = x / (scale as int);
    let cy = y / (scale as int);
    if tile_place(rows, cx, cy) < k {
        tile_colour(x, y, colours(cx, cy).0, colours(cx, cy).1)
    } else {
        Pixel::blank()
    }
}

/// The image of `cols` by `rows` tiles of side `scale` of which the first
/// `k` are painted, each with the pair of colours that `colours` gives for
/// its column and row.
pub open spec fn mosaic(
    cols: nat,
    rows: nat,
    scale: nat,
    k: nat,
    colours: spec_fn(int, int) -> (Pixel, Pixel),
) -> Grid {
    Grid::from_fn(
        cols * scale,
        rows * scale,
        |x: int, y: int| mosaic_pixel(rows, scale, k, colours, x, y),
    )
}

/// A position lies in a tile exactly if its column and row, divided by the
/// side, are the tile's.
pub proof fn lemma_in_tile(x: int, y: int, cx: int, cy: int, scale: int)
    requires
        scale > 0,
        0 <= x,
        0 <= y,
        0 <= cx,
        0 <= cy,
    ensures
        in_tile(x, y, cx, cy, scale) <==> (x / scale == cx && y / scale == cy),
{
    vstd::arithmetic::div_mod::lemma_fundamental_div_mod(x, scale);
    vstd::arithmetic::div_mod::lemma_fundamental_div_mod(y, scale);
    vstd::arithmetic::div_mod::lemma_mod_bound(x, scale);
    vstd::arithmetic::div_mod::lemma_mod_bound(y, scale);
    if in_tile(x, y, cx, cy, scale) {
        vstd::arithmetic::div_mod::lemma_fundamental_div_mod_converse(
            x,
            scale,
            cx,
            x - cx * scale,
        );
        vstd::arithmetic::div_mod::lemma_fundamental_div_mod_converse(
            y,
            scale,
            cy,
            y - cy * scale,
        );
    }
    if x / scale == cx && y / scale == cy {
        assert(scale * cx == cx * scale) by (nonlinear_arith);
        assert(scale * cy == cy * scale) by (nonlinear_arith);
    }
}

/// The tile of a position of a mosaic is one of its tiles.
pub proof fn lemma_tile_of_position(cols: nat, rows: nat, scale: nat, x: int, y: int)
    requires
        0 <= x < cols * scale,
        0 <= y < rows * scale,
    ensures
        scale > 0,
        0 <= x / (scale as int) < cols,
        0 <= y / (scale as int) < rows,
        0 <= tile_place(rows, x / (scale as int), y / (scale as int)) < cols * rows,
{
    let s = scale as int;
    assert(s > 0) by (nonlinear_arith)
        requires
            0 <= x < cols * s,
            s >= 0,
    ;
    vstd::arithmetic::div_mod::lemma_fundamental_div_mod(x, s);
    vstd::arithmetic::div_mod::lemma_fundamental_div_mod(y, s);
    vstd::arithmetic::div_mod::lemma_mod_bound(x, s);
    vstd::arithmetic::div_mod::lemma_mod_bound(y, s);
    let cx = x / s;
    let cy = y / s;
    assert(0 <= cx < cols) by (nonlinear_arith)
        requires
            x == s * cx + x % s,
            0 <= x % s < s,
            0 <= x < cols * s,
    ;
    assert(0 <= cy < rows) by (nonlinear_arith)
        requires
            y == s * cy + y % s,
            0 <= y % s < s,
            0 <= y < rows * s,
    ;
    assert(0 <= cx * rows + cy < cols * rows) by (nonlinear_arith)
        requires
            0 <= cx < cols,
            0 <= cy < rows,
    ;
}

/// Two tiles at the same place are the same tile.
pub proof fn lemma_tile_place_identifies(rows: nat, cx: int, cy: int, dx: int, dy: int)
    requires
        0 <= cy < rows,
        0 <= dy < rows,
        tile_place(rows, cx, cy) == tile_place(rows, dx, dy),
    ensures
        cx == dx,
        cy == dy,
{
    let r = rows as int;
    vstd::arithmetic::div_mod::lemma_fundamental_div_mod_converse(cx * r + cy, r, cx, cy);
    vstd::arithmetic::div_mod::lemma_fundamental_div_mod_converse(dx * r + dy, r, dx, dy);
}

/// A mosaic is well formed, and its pixels are those of `mosaic_pixel`.
pub proof fn lemma_mosaic_at(
    cols: nat,
    rows: nat,
    scale: nat,
    k: nat,
    colours: spec_fn(int, int) -> (Pixel, Pixel),
)
    ensures
        mosaic(cols, rows, scale, k, colours).wf(),
        mosaic(cols, rows, scale, k, colours).width == cols * scale,
        mosaic(cols, rows, scale, k, colours).height == rows * scale,
        forall|x: int, y: int| #[trigger]
            mosaic(cols, rows, scale, k, colours).has(x, y) ==> mosaic(
                cols,
                rows,
                scale,
                k,
                colours,
            ).at(x, y) == mosaic_pixel(rows, scale, k, colours, x, y),
{
    let f = |x: int, y: int| mosaic_pixel(rows, scale, k, colours, x, y);
    assert forall|x: int, y: int| #[trigger]
        mosaic(cols, rows, scale, k, colours).has(x, y) implies mosaic(
        cols,
        rows,
        scale,
        k,
        colours,
    ).at(x, y) == mosaic_pixel(rows, scale, k, colours, x, y) by {
        lemma_from_fn_at(cols * scale, rows * scale, f, x, y);
    }
}

/// Painting the tile at place `k` turns the mosaic of `k` painted tiles into
/// the mosaic of `k + 1`.
pub proof fn lemma_mosaic_step(
    before: Grid,
    after: Grid,
    cols: nat,
    rows: nat,
    scale: nat,
    k: nat,
    colours: spec_fn(int, int) -> (Pixel, Pixel),
    cx: int,
    cy: int,
)
    requires
        before == mosaic(cols, rows, scale, k, colours),
        after.wf(),
        after.width == before.width,
        after.height == before.height,
        0 <= cx < cols,
        0 <= cy < rows,
        k == tile_place(rows, cx, cy),
        forall|x: int, y: int|
            before.has(x, y) ==> #[trigger] after.at(x, y) == if in_tile(
                x,
                y,
                cx,
                cy,
                scale as int,
            ) {
                tile_colour(x, y, colours(cx, cy).0, colours(cx, cy).1)
            } else {
                before.at(x, y)
            },
    ensures
        after == mosaic(cols, rows, scale, k + 1, colours),
{
    let next = mosaic(cols, rows, scale, k + 1, colours);
    lemma_mosaic_at(cols, rows, scale, k, colours);
    lemma_mosaic_at(cols, rows, scale, k + 1, colours);
    assert forall|x: int, y: int| after.has(x, y) implies after.at(x, y) == next.at(x, y) by {
        assert(before.has(x, y));
        assert(next.has(x, y));
        lemma_tile_of_position(cols, rows, scale, x, y);
        let s = scale as int;
        lemma_in_tile(x, y, cx, cy, s);
        if !in_tile(x, y, cx, cy, s) {
            if tile_place(rows, x / s, y / s) == k {
                lemma_tile_place_identifies(rows, x / s, y / s, cx, cy);
            }
        }
    }
    lemma_grid_ext(after, next);
}

/// A blank image is the mosaic of which no tile is painted.
pub proof fn lemma_mosaic_blank(
    grid: Grid,
    cols: nat,
    rows: nat,
    scale: nat,
    colours: spec_fn(int, int) -> (Pixel, Pixel),
)
    requires
        grid.wf(),
        grid.width == cols * scale,
        grid.height == rows * scale,
        forall|x: int, y: int| grid.has(x, y) ==> #[trigger] grid.at(x, y) == Pixel::blank(),
    ensures
        grid == mosaic(cols, rows, scale, 0, colours),
{
    let start = mosaic(cols, rows, scale, 0, colours);
    lemma_mosaic_at(cols, rows, scale, 0, colours);
    assert forall|x: int, y: int| grid.has(x, y) implies grid.at(x, y) == start.at(x, y) by {
        assert(start.has(x, y));
        lemma_tile_of_position(cols, rows, scale, x, y);
    }
    lemma_grid_ext(grid, start);
}

/// Paints the tile of side `scale` in column `cx` and row `cy` of the tiling:
/// `on` on the checkerboard mask, `off` elsewhere, either without its
/// transparency. No other pixel changes.
pub fn paint_tile(output: &mut Image, cx: u32, cy: u32, scale: u32, on: Pixel, off: Pixel)
    requires
        old(output).wf(),
        old(output).paintable(),
        cx * scale + scale <= old(output)@.width,
        cy * scale + scale <= old(output)@.height,
    ensures
        final(output).wf(),
        final(output).paintable(),
        final(output)@.width == old(output)@.width,
        final(output)@.height == old(output)@.height,
        forall|x: int, y: int|
            old(output)@.has(x, y) ==> #[trigger] final(output)@.at(x, y) == if in_tile(
                x,
                y,
                cx as int,
                cy as int,
                scale as int,
            ) {
                tile_colour(x, y, on, off)
            } else {
                old(output)@.at(x, y)
            },
{
    assert(cx * scale >= 0 && cy * scale >= 0) by (nonlinear_arith);
    let x0: u32 = cx * scale;
    let y0: u32 = cy * scale;
    let x1: u32 = x0 + scale;
    let y1: u32 = y0 + scale;
    let mut x: u32 = x0;
    while x < x1
        invariant
            output.wf(),
            output.paintable(),
            output@.width == old(output)@.width,
            output@.height == old(output)@.height,
            x0 == cx * scale,
            y0 == cy * scale,
            x1 == x0 + scale,
            y1 == y0 + scale,
            x1 <= output@.width,
            y1 <= output@.height,
            x0 <= x <= x1,
            forall|u: int, v: int|
                old(output)@.has(u, v) ==> #[trigger] output@.at(u, v) == if in_tile(
                    u,
                    v,
                    cx as int,
                    cy as int,
                    scale as int,
                ) && u < x {
                    tile_colour(u, v, on, off)
                } else {
                    old(output)@.at(u, v)
                },
        decreases x1 - x,
    {
        let mut y: u32 = y0;
        while y < y1
            invariant
                output.wf(),
                output.paintable(),
                output@.width == old(output)@.width,
                output@.height == old(output)@.height,
                x0 == cx * scale,
                y0 == cy * scale,
                x1 == x0 + scale,
                y1 == y0 + scale,
                x1 <= output@.width,
                y1 <= output@.height,
                x0 <= x < x1,
                y0 <= y <= y1,
                forall|u: int, v: int|
                    old(output)@.has(u, v) ==> #[trigger] output@.at(u, v) == if in_tile(
                        u,
                        v,
                        cx as int,
                        cy as int,
                        scale as int,
                    ) && (u < x || (u == x && v < y)) {
                        tile_colour(u, v, on, off)
                    } else {
                        old(output)@.at(u, v)
                    },
            decreases y1 - y,
        {
            let on_the_mask: bool = (x % 2 == 0) != (y % 2 == 0);
            let colour: Pixel = if on_the_mask {
                on
            } else {
                off
            };
            output.put_pixel(x, y, colour);
            y = y + 1;
        }
        x = x + 1;
    }
}

} // verus!
