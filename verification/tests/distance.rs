use pxls::pixel_operations::{average, better_luminance, hue, luminance, product};
use pxls::{DistanceAlgorithm, Pixel, ALL_ALGOS};

fn samples() -> Vec<Pixel> {
    vec![
        Pixel::opaque(0, 0, 0),
        Pixel::opaque(255, 255, 255),
        Pixel::opaque(255, 0, 0),
        Pixel::opaque(0, 255, 0),
        Pixel::opaque(0, 0, 255),
        Pixel::opaque(10, 20, 30),
        Pixel::opaque(13, 16, 30),
        Pixel::opaque(200, 100, 50),
        Pixel::opaque(128, 128, 128),
        Pixel::opaque(255, 0, 1),
        Pixel::new(7, 99, 250, 3),
    ]
}

#[test]
fn pixel_constructors_set_the_channels() {
    let p = Pixel::new(1, 2, 3, 4);
    assert_eq!((p.r, p.g, p.b, p.a), (1, 2, 3, 4));
    let q = Pixel::opaque(5, 6, 7);
    assert_eq!((q.r, q.g, q.b, q.a), (5, 6, 7, 255));
    assert_eq!(Pixel::blank(), Pixel::new(0, 0, 0, 255));
}

#[test]
fn pixel_key_is_the_base_256_numeral() {
    assert_eq!(Pixel::new(0, 0, 0, 0).key(), 0);
    assert_eq!(Pixel::new(1, 2, 3, 4).key(), 0x0102_0304);
    assert_eq!(Pixel::new(255, 255, 255, 255).key(), u32::MAX);
}

#[test]
fn measures_have_their_exact_values() {
    let a = Pixel::opaque(10, 20, 30);
    assert_eq!(product(a), 6000);
    assert_eq!(average(a), 20);
    assert_eq!(luminance(a), 18);
    assert_eq!(better_luminance(a), 365);
    let b = Pixel::opaque(13, 16, 30);
    assert_eq!(product(b), 6240);
    assert_eq!(average(b), 19);
    assert_eq!(luminance(b), 15);
    assert_eq!(better_luminance(b), 302);
    let white = Pixel::opaque(255, 255, 255);
    assert_eq!(product(white), 16_581_375);
    assert_eq!(average(white), 255);
    assert_eq!(luminance(white), 54 + 182 + 18);
    assert_eq!(better_luminance(white), 19_442 + 38_169 + 7_412);
}

#[test]
fn hue_of_the_primaries_and_their_mixtures() {
    assert_eq!(hue(Pixel::opaque(255, 0, 0)), 0);
    assert_eq!(hue(Pixel::opaque(255, 255, 0)), 60);
    assert_eq!(hue(Pixel::opaque(0, 255, 0)), 120);
    assert_eq!(hue(Pixel::opaque(0, 255, 255)), 180);
    assert_eq!(hue(Pixel::opaque(0, 0, 255)), 240);
    assert_eq!(hue(Pixel::opaque(255, 0, 255)), 300);
    assert_eq!(hue(Pixel::opaque(10, 20, 30)), 210);
}

#[test]
fn hue_of_a_grey_is_zero() {
    assert_eq!(hue(Pixel::opaque(0, 0, 0)), 0);
    assert_eq!(hue(Pixel::opaque(77, 77, 77)), 0);
    assert_eq!(hue(Pixel::opaque(255, 255, 255)), 0);
}

#[test]
fn hue_rounds_to_the_nearest_degree() {
    // 60 / 8 = 7.5 rounds up.
    assert_eq!(hue(Pixel::opaque(8, 1, 0)), 8);
    // 60 * 2 / 9 = 13.33 rounds down.
    assert_eq!(hue(Pixel::opaque(9, 2, 0)), 13);
    // just below a full turn rounds to 360.
    assert_eq!(hue(Pixel::opaque(255, 0, 1)), 360);
    // 360 - 60 * 100 / 255 = 336.47
    assert_eq!(hue(Pixel::opaque(255, 0, 100)), 336);
}

#[test]
fn distances_have_their_exact_values() {
    let a = Pixel::opaque(10, 20, 30);
    let b = Pixel::opaque(13, 16, 30);
    assert_eq!(DistanceAlgorithm::Euclidean.distance(a, b), 25);
    assert_eq!(DistanceAlgorithm::Manhattan.distance(a, b), 7);
    assert_eq!(DistanceAlgorithm::Product.distance(a, b), 240);
    assert_eq!(DistanceAlgorithm::Brightness.distance(a, b), 1);
    assert_eq!(DistanceAlgorithm::Luminance.distance(a, b), 3);
    assert_eq!(DistanceAlgorithm::SlowLuminance.distance(a, b), 63);
    assert_eq!(
        DistanceAlgorithm::Hue.distance(Pixel::opaque(255, 0, 0), Pixel::opaque(0, 255, 0)),
        120
    );
}

#[test]
fn greatest_distances_do_not_overflow() {
    let black = Pixel::opaque(0, 0, 0);
    let white = Pixel::opaque(255, 255, 255);
    assert_eq!(DistanceAlgorithm::Euclidean.distance(black, white), 195_075);
    assert_eq!(DistanceAlgorithm::Manhattan.distance(black, white), 765);
    assert_eq!(DistanceAlgorithm::Product.distance(black, white), 16_581_375);
    assert_eq!(DistanceAlgorithm::Brightness.distance(black, white), 255);
    assert_eq!(DistanceAlgorithm::Luminance.distance(black, white), 254);
    assert_eq!(DistanceAlgorithm::SlowLuminance.distance(black, white), 65_023);
}

#[test]
fn distance_is_symmetric() {
    for algo in ALL_ALGOS {
        for a in samples() {
            for b in samples() {
                assert_eq!(algo.distance(a, b), algo.distance(b, a));
            }
        }
    }
}

#[test]
fn distance_to_self_is_zero() {
    for algo in ALL_ALGOS {
        for a in samples() {
            assert_eq!(algo.distance(a, a), 0);
        }
    }
}

#[test]
fn hue_distance_between_greys_is_zero() {
    let dark = Pixel::opaque(10, 10, 10);
    let light = Pixel::opaque(240, 240, 240);
    assert_eq!(DistanceAlgorithm::Hue.distance(dark, light), 0);
    assert_ne!(dark, light);
}

#[test]
fn alpha_plays_no_part_in_distance() {
    let a = Pixel::new(10, 20, 30, 0);
    let b = Pixel::new(10, 20, 30, 255);
    for algo in ALL_ALGOS {
        assert_eq!(algo.distance(a, b), 0);
    }
}

#[test]
fn threshold_is_squared_for_the_squared_metrics() {
    assert_eq!(DistanceAlgorithm::Euclidean.standardise_closeness_threshold(50), 2500);
    assert_eq!(DistanceAlgorithm::Product.standardise_closeness_threshold(50), 2500);
    assert_eq!(DistanceAlgorithm::Euclidean.standardise_closeness_threshold(0), 0);
    assert_eq!(
        DistanceAlgorithm::Euclidean.standardise_closeness_threshold(u32::MAX),
        18_446_744_065_119_617_025
    );
}

#[test]
fn threshold_is_kept_for_the_linear_metrics() {
    assert_eq!(DistanceAlgorithm::Manhattan.standardise_closeness_threshold(50), 50);
    assert_eq!(DistanceAlgorithm::Brightness.standardise_closeness_threshold(50), 50);
    assert_eq!(DistanceAlgorithm::Luminance.standardise_closeness_threshold(50), 50);
    assert_eq!(DistanceAlgorithm::SlowLuminance.standardise_closeness_threshold(50), 50);
    assert_eq!(DistanceAlgorithm::Hue.standardise_closeness_threshold(u32::MAX), 4_294_967_295);
}

#[test]
fn metrics_have_their_names() {
    assert_eq!(DistanceAlgorithm::Euclidean.to_str(), "Euclidean");
    assert_eq!(DistanceAlgorithm::Manhattan.to_str(), "Manhattan");
    assert_eq!(DistanceAlgorithm::Product.to_str(), "Product");
    assert_eq!(DistanceAlgorithm::Brightness.to_str(), "Brightness");
    assert_eq!(DistanceAlgorithm::Luminance.to_str(), "Luminance");
    assert_eq!(DistanceAlgorithm::SlowLuminance.to_str(), "SlowLuminance");
    assert_eq!(DistanceAlgorithm::Hue.to_str(), "Hue");
}

#[test]
fn all_metrics_are_listed_once() {
    assert_eq!(ALL_ALGOS.len(), 7);
    let mut i = 0;
    while i < ALL_ALGOS.len() {
        let mut j = i + 1;
        while j < ALL_ALGOS.len() {
            assert_ne!(ALL_ALGOS[i], ALL_ALGOS[j]);
            j += 1;
        }
        i += 1;
    }
}
