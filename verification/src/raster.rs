//! The pixel grid.

use crate::pixel::Pixel;
use image::ColorType;
use image::DynamicImage;
use image::GenericImage;
use image::GenericImageView;
use image::Rgba;
use vstd::prelude::*;

verus! {

/// What an image is: its two dimensions and its pixels, row after row.
pub struct Grid {
    pub width: nat,
    pub height: nat,
    pub cells: Seq<Pixel>,
}

impl Grid {
    /// There is one cell for every position.
    pub open spec fn wf(self) -> bool {
        self.cells.len() == self.width * self.height
    }

    /// Whether `(x, y)` is a position of the grid.
    pub open spec fn has(self, x: int, y: int) -> bool {
        0 <= x < self.width && 0 <= y < self.height
    }

    /// The pixel in column `x` of row `y`.
    pub open spec fn at(self, x: int, y: int) -> Pixel {
        self.cells[y * self.width + x]
    }

    /// The grid of the given dimensions whose pixel at each position is given
    /// by `f`.
    pub open spec fn from_fn(width: nat, height: nat, f: spec_fn(int, int) -> Pixel) -> Grid {
        Grid {
            width,
            height,
            cells: Seq::new(
                width * height,
                |i: int| f(i % (width as int), i / (width as int)),
            ),
        }
    }
}

/// The position of a cell index: its column is below the width, its row
/// below the height, and the two give the index back.
pub proof fn lemma_cell_position(width: nat, height: nat, i: int)
    requires
        0 <= i < width * height,
    ensures
        0 <= i % (width as int) < width,
        0 <= i / (width as int) < height,
        (i / (width as int)) * width + i % (width as int) == i,
{
    let w = width as int;
    assert(w > 0) by (nonlinear_arith)
        requires
            0 <= i < w * height,
            w >= 0,
    ;
    vstd::arithmetic::div_mod::lemma_fundamental_div_mod(i, w);
    vstd::arithmetic::div_mod::lemma_mod_bound(i, w);
    let q = i / w;
    let r = i % w;
    assert(w * q == q * w) by (nonlinear_arith);
    assert(q < height) by (nonlinear_arith)
        requires
            q * w + r == i,
            0 <= r,
            i < w * height,
            w > 0,
    ;
    assert(q >= 0) by (nonlinear_arith)
        requires
            q * w + r == i,
            r < w,
            0 <= i,
            w > 0,
    ;
}

/// The index of a position lies among the cells, and its column and row are
/// those of the position.
pub proof fn lemma_cell_index(width: nat, height: nat, x: int, y: int)
    requires
        0 <= x < width,
        0 <= y < height,
    ensures
        0 <= y * width + x < width * height,
        (y * width + x) % (width as int) == x,
        (y * width + x) / (width as int) == y,
{
    let w = width as int;
    let h = height as int;
    assert(0 <= y * w + x < w * h) by (nonlinear_arith)
        requires
            0 <= x < w,
            0 <= y < h,
    ;
    vstd::arithmetic::div_mod::lemma_fundamental_div_mod_converse(y * w + x, w, y, x);
}

/// The pixel of `from_fn` at a position is what `f` gives there.
pub proof fn lemma_from_fn_at(
    width: nat,
    height: nat,
    f: spec_fn(int, int) -> Pixel,
    x: int,
    y: int,
)
    requires
        0 <= x < width,
        0 <= y < height,
    ensures
        Grid::from_fn(width, height, f).wf(),
        Grid::from_fn(width, height, f).at(x, y) == f(x, y),
{
    lemma_cell_index(width, height, x, y);
}

/// Two well-formed grids of the same dimensions with the same pixel at every
/// position are the same grid.
pub proof fn lemma_grid_ext(a: Grid, b: Grid)
    requires
        a.wf(),
        b.wf(),
        a.width == b.width,
        a.height == b.height,
        forall|x: int, y: int| a.has(x, y) ==> a.at(x, y) == b.at(x, y),
    ensures
        a == b,
{
    assert forall|i: int| 0 <= i < a.cells.len() implies a.cells[i] == b.cells[i] by {
        lemma_cell_position(a.width, a.height, i);
        let x = i % (a.width as int);
        let y = i / (a.width as int);
        assert(a.has(x, y));
        assert(a.at(x, y) == b.at(x, y));
    }
    assert(a.cells =~= b.cells);
}

/// An image of these dimensions can be held: each dimension fits 32 bits,
/// and the pixels, at four bytes each, fit the largest allocation.
pub open spec fn storable(width: nat, height: nat) -> bool {
    width <= u32::MAX && height <= u32::MAX && 4 * (width * height) <= isize::MAX
}

/// Whether an image of the given dimensions can be held.
pub fn can_hold(width: u64, height: u64) -> (fits: bool)
    ensures
        fits == storable(width as nat, height as nat),
{
    if width > 0xffff_ffff || height > 0xffff_ffff {
        return false;
    }
    assert(0 <= width * height <= 0xffff_ffff * 0xffff_ffff) by (nonlinear_arith)
        requires
            width <= 0xffff_ffff,
            height <= 0xffff_ffff,
    ;
    width * height <= (isize::MAX as u64) / 4
}

/// A decoded image of the `image` crate, `image::DynamicImage`: a buffer of
/// pixels in one of several sample formats. Nothing is known of what is
/// inside but through the four names below.
#[verifier::external_type_specification]
#[verifier::external_body]
pub struct ExDynamicImage(DynamicImage);

/// The number of columns of a decoded image.
pub uninterp spec fn decoded_width(image: DynamicImage) -> nat;

/// The number of rows of a decoded image.
pub uninterp spec fn decoded_height(image: DynamicImage) -> nat;

/// The colours of a decoded image as it gives them out, pixel by pixel, as
/// four 8-bit channels: row after row, the colour of column `x` in row `y`
/// at place `y * width + x`.
pub uninterp spec fn decoded_pixels(image: DynamicImage) -> Seq<Pixel>;

/// Whether a decoded image stores its pixels as three 8-bit channels, red,
/// green and blue, without alpha.
pub uninterp spec fn holds_rgb8(image: DynamicImage) -> bool;

/// The dimensions of a decoded image, from
/// `image::GenericImageView::dimensions`: the width and the height that the
/// buffer was made with. There is one pixel for every position.
#[verifier::external_body]
fn dimensions_of(image: &DynamicImage) -> (size: (u32, u32))
    ensures
        size.0 == decoded_width(*image),
        size.1 == decoded_height(*image),
        decoded_pixels(*image).len() == size.0 * size.1,
{
    image.dimensions()
}

/// The colour at `(x, y)` of a decoded image, from
/// `image::GenericImageView::get_pixel`, which gives the stored pixel
/// brought to four 8-bit channels. The call panics outside the image, so
/// the position must lie inside.
#[verifier::external_body]
fn pixel_of(image: &DynamicImage, x: u32, y: u32) -> (px: Pixel)
    requires
        x < decoded_width(*image),
        y < decoded_height(*image),
    ensures
        px == decoded_pixels(*image)[y * decoded_width(*image) + x],
{
    let Rgba([r, g, b, a]) = image.get_pixel(x, y);
    Pixel { r, g, b, a }
}

/// A new image of three 8-bit channels, from `image::DynamicImage::new` with
/// `ColorType::Rgb8`: every sample is zero, so every pixel is given out as
/// opaque black. The call panics where the buffer is too large to allocate,
/// so the dimensions must be storable.
#[verifier::external_body]
fn blank_rgb8(width: u32, height: u32) -> (image: DynamicImage)
    requires
        storable(width as nat, height as nat),
    ensures
        decoded_width(image) == width,
        decoded_height(image) == height,
        holds_rgb8(image),
        decoded_pixels(image) == Seq::new((width * height) as nat, |i: int| Pixel::blank()),
{
    DynamicImage::new(width, height, ColorType::Rgb8)
}

/// Sets the pixel at `(x, y)` of an image of three 8-bit channels with
/// `image::GenericImage::put_pixel`, which stores the red, green and blue of
/// `px` and lets the alpha go: the pixel is then given out as opaque. No
/// other pixel changes. The call panics outside the image, so the position
/// must lie inside.
#[verifier::external_body]
fn set_pixel(image: &mut DynamicImage, x: u32, y: u32, px: Pixel)
    requires
        holds_rgb8(*old(image)),
        x < decoded_width(*old(image)),
        y < decoded_height(*old(image)),
    ensures
        holds_rgb8(*final(image)),
        decoded_width(*final(image)) == decoded_width(*old(image)),
        decoded_height(*final(image)) == decoded_height(*old(image)),
        decoded_pixels(*final(image)) == decoded_pixels(*old(image)).update(
            y * decoded_width(*old(image)) + x,
            px.as_opaque(),
        ),
{
    image.put_pixel(x, y, Rgba([px.r, px.g, px.b, px.a]));
}

/// A copy of a decoded image, from its `Clone`: the same buffer in the same
/// format.
#[verifier::external_body]
fn copy_of(image: &DynamicImage) -> (copy: DynamicImage)
    ensures
        decoded_width(copy) == decoded_width(*image),
        decoded_height(copy) == decoded_height(*image),
        decoded_pixels(copy) == decoded_pixels(*image),
        holds_rgb8(copy) == holds_rgb8(*image),
{
    image.clone()
}

/// An image: a grid of pixels of fixed width and height, addressed by column
/// and row from zero. It is held as a decoded image of the `image` crate.
#[derive(Debug)]
pub struct Image {
    inner: DynamicImage,
}

impl View for Image {
    type V = Grid;

    closed spec fn view(&self) -> Grid {
        Grid {
            width: decoded_width(self.inner),
            height: decoded_height(self.inner),
            cells: decoded_pixels(self.inner),
        }
    }
}

impl Image {
    /// The image holds one pixel for every position, and its dimensions are
    /// those of a stored image.
    pub open spec fn wf(&self) -> bool {
        self@.wf() && self@.width <= u32::MAX && self@.height <= u32::MAX
    }

    /// Whether pixels of the image can be set: that takes an image of three
    /// 8-bit channels.
    pub closed spec fn paintable(&self) -> bool {
        holds_rgb8(self.inner)
    }

    /// The decoded image that holds the pixels.
    pub closed spec fn decoded(&self) -> DynamicImage {
        self.inner
    }

    /// A blank image of the given dimensions.
    pub fn new(width: u32, height: u32) -> (image: Image)
        requires
            storable(width as nat, height as nat),
        ensures
            image.wf(),
            image.paintable(),
            image@.width == width,
            image@.height == height,
            forall|x: int, y: int| image@.has(x, y) ==> image@.at(x, y) == Pixel::blank(),
    {
        let image = Image { inner: blank_rgb8(width, height) };
        proof {
            assert forall|x: int, y: int| image@.has(x, y) implies image@.at(x, y)
                == Pixel::blank() by {
                lemma_cell_index(width as nat, height as nat, x, y);
            }
        }
        image
    }

    /// The image of the pixels of `decoded`.
    pub fn from_dynamic(decoded: DynamicImage) -> (image: Image)
        ensures
            image.wf(),
            image.decoded() == decoded,
    {
        let _ = dimensions_of(&decoded);
        Image { inner: decoded }
    }

    /// The decoded image that holds the pixels.
    pub fn as_dynamic(&self) -> (decoded: &DynamicImage)
        ensures
            *decoded == self.decoded(),
    {
        &self.inner
    }

    /// Gives up the decoded image that holds the pixels.
    pub fn into_dynamic(self) -> (decoded: DynamicImage)
        ensures
            decoded == self.decoded(),
    {
        self.inner
    }

    /// The number of columns.
    pub fn width(&self) -> (w: u32)
        ensures
            w == self@.width,
            self.wf(),
    {
        dimensions_of(&self.inner).0
    }

    /// The number of rows.
    pub fn height(&self) -> (h: u32)
        ensures
            h == self@.height,
            self.wf(),
    {
        dimensions_of(&self.inner).1
    }

    /// The number of columns and the number of rows.
    pub fn dimensions(&self) -> (d: (u32, u32))
        ensures
            d.0 == self@.width,
            d.1 == self@.height,
            self.wf(),
    {
        dimensions_of(&self.inner)
    }

    /// The pixel in column `x` of row `y`.
    pub fn get_pixel(&self, x: u32, y: u32) -> (px: Pixel)
        requires
            x < self@.width,
            y < self@.height,
        ensures
            px == self@.at(x as int, y as int),
    {
        pixel_of(&self.inner, x, y)
    }

    /// Sets the pixel in column `x` of row `y`, and no other. The image
    /// keeps red, green and blue and lets the alpha go: the pixel is opaque.
    pub fn put_pixel(&mut self, x: u32, y: u32, px: Pixel)
        requires
            old(self).wf(),
            old(self).paintable(),
            x < old(self)@.width,
            y < old(self)@.height,
        ensures
            final(self).wf(),
            final(self).paintable(),
            final(self)@.width == old(self)@.width,
            final(self)@.height == old(self)@.height,
            final(self)@.at(x as int, y as int) == px.as_opaque(),
            forall|u: int, v: int|
                old(self)@.has(u, v) && (u != x || v != y) ==> final(self)@.at(u, v) == old(
                    self,
                )@.at(u, v),
    {
        proof {
            lemma_cell_index(self@.width, self@.height, x as int, y as int);
        }
        set_pixel(&mut self.inner, x, y, px);
        proof {
            assert forall|u: int, v: int| old(self)@.has(u, v) && (u != x || v != y) implies self@.at(
                u,
                v,
            ) == old(self)@.at(u, v) by {
                lemma_cell_index(self@.width, self@.height, u, v);
            }
        }
    }

    /// Whether the two images have the same dimensions and the same pixels.
    pub fn same_as(&self, other: &Image) -> (same: bool)
        ensures
            same == (self@ == other@),
    {
        let (width, height) = self.dimensions();
        let (other_width, other_height) = other.dimensions();
        if width != other_width || height != other_height {
            return false;
        }
        let mut y: u32 = 0;
        while y < height
            invariant
                self.wf(),
                other.wf(),
                width == self@.width,
                height == self@.height,
                width == other@.width,
                height == other@.height,
                y <= height,
                forall|u: int, v: int|
                    0 <= u < width && 0 <= v < y ==> self@.at(u, v) == other@.at(u, v),
            decreases height - y,
        {
            let mut x: u32 = 0;
            while x < width
                invariant
                    self.wf(),
                    other.wf(),
                    width == self@.width,
                    height == self@.height,
                    width == other@.width,
                    height == other@.height,
                    y < height,
                    x <= width,
                    forall|u: int, v: int|
                        0 <= u < width && 0 <= v < y ==> self@.at(u, v) == other@.at(u, v),
                    forall|u: int| 0 <= u < x ==> self@.at(u, y as int) == other@.at(u, y as int),
                decreases width - x,
            {
                if self.get_pixel(x, y) != other.get_pixel(x, y) {
                    return false;
                }
                x = x + 1;
            }
            y = y + 1;
        }
        proof {
            lemma_grid_ext(self@, other@);
        }
        true
    }
}

impl Clone for Image {
    fn clone(&self) -> (copy: Self)
        ensures
            copy@ == self@,
            copy.wf(),
            copy.paintable() == self.paintable(),
    {
        let _ = dimensions_of(&self.inner);
        Image { inner: copy_of(&self.inner) }
    }
}

} // verus!
