use midianimator::numbers::remove_duplicates;
use midianimator::padding::pad_nums;

#[test]
fn duplicates_are_removed_and_values_sorted() {
    assert_eq!(remove_duplicates(&[5, 3, 5, 1, 3]), vec![1, 3, 5]);
    assert_eq!(remove_duplicates(&[]), Vec::<i32>::new());
    assert_eq!(remove_duplicates(&[-2, 7, -2]), vec![-2, 7]);
}

#[test]
fn padding_cuts_when_there_are_enough_values() {
    assert_eq!(pad_nums(&vec![64, 60, 62, 60], 2), vec![60, 62]);
    assert_eq!(pad_nums(&vec![64, 60, 62, 60], 3), vec![60, 62, 64]);
    assert_eq!(pad_nums(&vec![1, 2, 3], 0), Vec::<i32>::new());
}

#[test]
fn padding_spreads_inside_a_gap() {
    assert_eq!(pad_nums(&vec![60, 70], 3), vec![60, 65, 70]);
    assert_eq!(pad_nums(&vec![60, 70], 4), vec![60, 63, 66, 70]);
    assert_eq!(pad_nums(&vec![60, 65], 4), vec![60, 61, 63, 65]);
}

#[test]
fn padding_skips_duplicates_and_grows_outside() {
    assert_eq!(pad_nums(&vec![60, 63], 4), vec![59, 60, 61, 63]);
    assert_eq!(pad_nums(&vec![60, 61], 4), vec![59, 60, 61, 62]);
    assert_eq!(pad_nums(&vec![60, 61], 5), vec![58, 59, 60, 61, 62]);
}

#[test]
fn padding_one_value_grows_below_and_above_in_turn() {
    assert_eq!(pad_nums(&vec![60], 1), vec![60]);
    assert_eq!(pad_nums(&vec![60], 2), vec![59, 60]);
    assert_eq!(pad_nums(&vec![60], 3), vec![59, 60, 61]);
    assert_eq!(pad_nums(&vec![60, 60], 4), vec![58, 59, 60, 61]);
}

#[test]
fn padding_nothing_gives_nothing() {
    assert_eq!(pad_nums(&vec![], 3), Vec::<i32>::new());
}

#[test]
fn padding_is_strictly_increasing_and_of_the_wanted_length() {
    let inputs: Vec<Vec<i32>> = vec![vec![60, 72, 61], vec![0, 127], vec![10, 11, 12, 40], vec![5]];
    for nums in inputs {
        for n in 0..12usize {
            let out = pad_nums(&nums, n);
            assert_eq!(out.len(), n);
            assert!(out.windows(2).all(|w| w[0] < w[1]));
        }
    }
}
