use submarine::depth::count_increases;
use submarine::hstr;

#[test]
fn counts_increases_in_prefix() {
    let measurements = vec![182, 188, 204];
    // 188 > 182 and 204 > 188
    assert_eq!(count_increases(&measurements, 1), 2);
}

#[test]
fn counts_three_window_increases_in_prefix() {
    let measurements = vec![182, 188, 204, 210];
    // 182 + 188 + 204 = 574 against 188 + 204 + 210 = 602
    assert_eq!(count_increases(&measurements, 3), 1);
}

#[test]
fn short_sequences_count_zero() {
    let empty: Vec<i32> = vec![];
    assert_eq!(count_increases(&empty, 1), 0);
    assert_eq!(count_increases(&vec![5], 1), 0);
    assert_eq!(count_increases(&vec![182, 188, 204], 3), 0);
    assert_eq!(count_increases(&vec![182, 188], 3), 0);
}

#[test]
fn counting_twice_gives_the_same_result() {
    let measurements = vec![1, 9, 2, 8, 3, 7];
    assert_eq!(
        count_increases(&measurements, 1),
        count_increases(&measurements, 1)
    );
    assert_eq!(
        count_increases(&measurements, 3),
        count_increases(&measurements, 3)
    );
}

#[test]
fn reversal_swaps_increases_and_decreases() {
    // 1 -> 3 increases, 3 -> 2 decreases, 2 -> 2 is equal
    let measurements = vec![1, 3, 2, 2];
    let mut reversed = measurements.clone();
    reversed.reverse();
    assert_eq!(count_increases(&measurements, 1), 1);
    // the one decrease of the original is the one increase of the reversal
    assert_eq!(count_increases(&reversed, 1), 1);
}

#[test]
fn extreme_measurements_do_not_overflow() {
    assert_eq!(count_increases(&vec![i32::MAX, i32::MIN], 1), 0);
    assert_eq!(count_increases(&vec![i32::MIN, i32::MAX], 1), 1);
    assert_eq!(
        count_increases(&vec![i32::MIN, i32::MIN, i32::MIN, i32::MAX], 3),
        1
    );
}

#[test]
fn hstr_copies_the_characters() {
    assert_eq!(hstr("182"), String::from("182"));
    assert_eq!(hstr(""), String::from(""));
}
