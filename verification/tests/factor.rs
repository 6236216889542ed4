use pxls::get_closest_factor;

#[test]
fn exact_divisor_is_kept() {
    assert_eq!(get_closest_factor(5, 100), 5);
    assert_eq!(get_closest_factor(1, 7), 1);
    assert_eq!(get_closest_factor(7, 7), 7);
}

#[test]
fn nearest_divisor_is_found_in_both_directions() {
    assert_eq!(get_closest_factor(6, 100), 5);
    assert_eq!(get_closest_factor(9, 100), 10);
    assert_eq!(get_closest_factor(3, 7), 1);
    assert_eq!(get_closest_factor(5, 7), 7);
}

#[test]
fn tie_goes_to_the_larger_divisor() {
    assert_eq!(get_closest_factor(3, 4), 4);
    assert_eq!(get_closest_factor(4, 7), 7);
    assert_eq!(get_closest_factor(3, 8), 4);
}

#[test]
fn target_beyond_the_number_gives_the_number() {
    assert_eq!(get_closest_factor(10, 3), 3);
    assert_eq!(get_closest_factor(u32::MAX, 5), 5);
    assert_eq!(get_closest_factor(u32::MAX, u32::MAX), u32::MAX);
}

#[test]
fn zero_target_is_read_as_one() {
    assert_eq!(get_closest_factor(0, 12), 1);
    assert_eq!(get_closest_factor(0, 1), 1);
}

#[test]
fn zero_number_gives_zero() {
    assert_eq!(get_closest_factor(0, 0), 0);
    assert_eq!(get_closest_factor(5, 0), 0);
}

#[test]
fn result_divides_and_lies_in_range() {
    let mut number: u32 = 1;
    while number <= 60 {
        let mut target: u32 = 1;
        while target <= 70 {
            let f = get_closest_factor(target, number);
            assert!(f >= 1 && f <= number);
            assert_eq!(number % f, 0);
            let mut d: u32 = 1;
            while d <= number {
                if number % d == 0 {
                    let gap_f = f.abs_diff(target);
                    let gap_d = d.abs_diff(target);
                    assert!(gap_f < gap_d || (gap_f == gap_d && d <= f));
                }
                d += 1;
            }
            target += 1;
        }
        number += 1;
    }
}
