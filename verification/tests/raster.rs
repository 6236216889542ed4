use image::{DynamicImage, GrayImage, Luma, Rgba, RgbaImage};
use pxls::raster::can_hold;
use pxls::{Image, Pixel};

fn from_pixels(width: u32, height: u32, pixels: Vec<Pixel>) -> Image {
    let buffer = RgbaImage::from_fn(width, height, |x, y| {
        let p = pixels[(y * width + x) as usize];
        Rgba([p.r, p.g, p.b, p.a])
    });
    Image::from_dynamic(DynamicImage::ImageRgba8(buffer))
}

#[test]
fn new_image_is_blank() {
    let image = Image::new(3, 2);
    assert_eq!(image.width(), 3);
    assert_eq!(image.height(), 2);
    assert_eq!(image.dimensions(), (3, 2));
    for y in 0..2 {
        for x in 0..3 {
            assert_eq!(image.get_pixel(x, y), Pixel::new(0, 0, 0, 255));
        }
    }
}

#[test]
fn empty_images_have_their_dimensions() {
    assert_eq!(Image::new(0, 0).dimensions(), (0, 0));
    assert_eq!(Image::new(0, 5).dimensions(), (0, 5));
    assert_eq!(Image::new(5, 0).dimensions(), (5, 0));
}

#[test]
fn decoded_image_gives_its_pixels_by_column_and_row() {
    let a = Pixel::new(1, 0, 0, 10);
    let b = Pixel::new(2, 0, 0, 20);
    let c = Pixel::new(3, 0, 0, 30);
    let d = Pixel::new(4, 0, 0, 40);
    let e = Pixel::new(5, 0, 0, 50);
    let f = Pixel::new(6, 0, 0, 60);
    let image = from_pixels(3, 2, vec![a, b, c, d, e, f]);
    assert_eq!(image.dimensions(), (3, 2));
    assert_eq!(image.get_pixel(0, 0), a);
    assert_eq!(image.get_pixel(1, 0), b);
    assert_eq!(image.get_pixel(2, 0), c);
    assert_eq!(image.get_pixel(0, 1), d);
    assert_eq!(image.get_pixel(1, 1), e);
    assert_eq!(image.get_pixel(2, 1), f);
}

#[test]
fn grey_image_gives_opaque_greys() {
    let buffer = GrayImage::from_fn(2, 1, |x, _| Luma([(x * 200) as u8]));
    let image = Image::from_dynamic(DynamicImage::ImageLuma8(buffer));
    assert_eq!(image.get_pixel(0, 0), Pixel::new(0, 0, 0, 255));
    assert_eq!(image.get_pixel(1, 0), Pixel::new(200, 200, 200, 255));
}

#[test]
fn put_pixel_changes_one_pixel() {
    let mut image = Image::new(3, 3);
    let red = Pixel::opaque(255, 0, 0);
    image.put_pixel(2, 1, red);
    for y in 0..3 {
        for x in 0..3 {
            let expected = if (x, y) == (2, 1) { red } else { Pixel::blank() };
            assert_eq!(image.get_pixel(x, y), expected);
        }
    }
    assert_eq!(image.dimensions(), (3, 3));
}

#[test]
fn put_pixel_lets_the_alpha_go() {
    let mut image = Image::new(2, 2);
    image.put_pixel(1, 1, Pixel::new(9, 8, 7, 6));
    assert_eq!(image.get_pixel(1, 1), Pixel::new(9, 8, 7, 255));
    image.put_pixel(1, 1, Pixel::new(1, 2, 3, 0));
    assert_eq!(image.get_pixel(1, 1), Pixel::new(1, 2, 3, 255));
}

#[test]
fn clone_has_the_same_pixels() {
    let mut image = Image::new(2, 2);
    image.put_pixel(1, 1, Pixel::new(9, 8, 7, 6));
    let mut copy = image.clone();
    assert!(copy.same_as(&image));
    assert_eq!(copy.as_dynamic(), image.as_dynamic());
    // the copy can be painted on as the image can, and is its own
    copy.put_pixel(0, 0, Pixel::opaque(1, 1, 1));
    assert!(!copy.same_as(&image));
    assert_eq!(image.get_pixel(0, 0), Pixel::blank());
}

#[test]
fn same_as_compares_dimensions_and_pixels() {
    let p = Pixel::opaque(1, 2, 3);
    let wide = from_pixels(4, 1, vec![p; 4]);
    let tall = from_pixels(1, 4, vec![p; 4]);
    let square = from_pixels(2, 2, vec![p; 4]);
    assert!(wide.same_as(&wide));
    assert!(!wide.same_as(&tall));
    assert!(!wide.same_as(&square));
    let mut q = vec![p; 4];
    assert!(square.same_as(&from_pixels(2, 2, q.clone())));
    q[2] = Pixel::opaque(1, 2, 4);
    assert!(!square.same_as(&from_pixels(2, 2, q.clone())));
    q[2] = Pixel::new(1, 2, 3, 254);
    assert!(!square.same_as(&from_pixels(2, 2, q)));
    assert!(Image::new(0, 3).same_as(&Image::new(0, 3)));
    assert!(!Image::new(0, 3).same_as(&Image::new(3, 0)));
}

#[test]
fn same_as_goes_by_the_colours_given_out() {
    let mut painted = Image::new(2, 1);
    painted.put_pixel(0, 0, Pixel::opaque(5, 6, 7));
    let decoded = from_pixels(2, 1, vec![Pixel::opaque(5, 6, 7), Pixel::blank()]);
    assert!(painted.same_as(&decoded));
}

#[test]
fn decoded_image_is_handed_back_unchanged() {
    let buffer = RgbaImage::from_fn(2, 2, |x, y| Rgba([x as u8, y as u8, 3, 4]));
    let decoded = DynamicImage::ImageRgba8(buffer);
    let image = Image::from_dynamic(decoded.clone());
    assert_eq!(image.as_dynamic(), &decoded);
    assert_eq!(image.into_dynamic(), decoded);
}

#[test]
fn new_image_holds_three_channels() {
    let image = Image::new(2, 2).into_dynamic();
    assert!(matches!(image, DynamicImage::ImageRgb8(_)));
}

#[test]
fn can_hold_tells_what_fits() {
    assert!(can_hold(0, 0));
    assert!(can_hold(1000, 1000));
    assert!(can_hold(u32::MAX as u64, 1));
    assert!(!can_hold(1 << 32, 1));
    assert!(!can_hold(1, 1 << 32));
    assert!(!can_hold(u32::MAX as u64, u32::MAX as u64));
}
