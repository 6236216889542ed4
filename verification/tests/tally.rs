use pxls::tally::Tally;
use pxls::Pixel;

#[test]
fn empty_tally_has_no_winner() {
    assert_eq!(Tally::new().most_frequent(), None);
}

#[test]
fn most_frequent_colour_wins() {
    let a = Pixel::opaque(1, 1, 1);
    let b = Pixel::opaque(2, 2, 2);
    let mut tally = Tally::new();
    tally.add(a);
    tally.add(b);
    tally.add(b);
    assert_eq!(tally.most_frequent(), Some(b));
    tally.add(a);
    tally.add(a);
    assert_eq!(tally.most_frequent(), Some(a));
}

#[test]
fn first_seen_wins_a_tie() {
    let a = Pixel::opaque(1, 1, 1);
    let b = Pixel::opaque(2, 2, 2);
    let c = Pixel::opaque(3, 3, 3);
    let mut tally = Tally::new();
    tally.add(c);
    tally.add(a);
    tally.add(b);
    assert_eq!(tally.most_frequent(), Some(c));
    tally.add(b);
    tally.add(a);
    assert_eq!(tally.most_frequent(), Some(a));
    tally.add(c);
    assert_eq!(tally.most_frequent(), Some(c));
}

#[test]
fn colours_that_differ_only_in_alpha_are_counted_apart() {
    let clear = Pixel::new(5, 5, 5, 0);
    let solid = Pixel::new(5, 5, 5, 255);
    let mut tally = Tally::new();
    tally.add(clear);
    tally.add(solid);
    tally.add(solid);
    assert_eq!(tally.most_frequent(), Some(solid));
}
