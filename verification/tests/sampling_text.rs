use packing_interface::sampling::{draw_unused_pair, insert_sorted, nth_unused};
use packing_interface::text::{chars_of, parse_bounded_chars, parse_i32_chars, split_lines, split_words, trim_chars};

#[test]
fn sorted_insertion() {
    let mut v: Vec<u64> = vec![1, 4, 9];
    insert_sorted(&mut v, 5);
    assert_eq!(v, vec![1, 4, 5, 9]);
    insert_sorted(&mut v, 0);
    insert_sorted(&mut v, 10);
    assert_eq!(v, vec![0, 1, 4, 5, 9, 10]);
}

#[test]
fn unused_numbers() {
    let v: Vec<u64> = vec![0, 1, 3, 4];
    assert_eq!(nth_unused(&v, 0), 2);
    assert_eq!(nth_unused(&v, 1), 5);
    assert_eq!(nth_unused(&Vec::new(), 7), 7);
}

#[test]
fn last_free_pair_is_drawn() {
    let mut rng = rand::rng();
    // The box 1..=2 x 1..=2 numbers its pairs 0..4 row by row; all but 2 are used.
    let used: Vec<u64> = vec![0, 1, 3];
    for _ in 0..20 {
        assert_eq!(draw_unused_pair(&mut rng, &used, 2, 1, 2), (2, 1));
    }
}

#[test]
fn text_helpers() {
    assert_eq!(trim_chars(&chars_of("  a b \t")), chars_of("a b"));
    let words = split_words(&chars_of("  10 20\t30 "));
    assert_eq!(words, vec![chars_of("10"), chars_of("20"), chars_of("30")]);
    let lines = split_lines(&chars_of("a\r\nb\n\nc\n"));
    assert_eq!(lines, vec![chars_of("a"), chars_of("b"), chars_of(""), chars_of("c")]);
    assert_eq!(parse_i32_chars(&chars_of("-2147483648")), Some(i32::MIN));
    assert_eq!(parse_i32_chars(&chars_of("2147483648")), None);
    assert_eq!(parse_i32_chars(&chars_of("+12")), Some(12));
    assert_eq!(parse_i32_chars(&chars_of("-")), None);
    assert_eq!(parse_bounded_chars(&chars_of("255"), 255), Some(255));
    assert_eq!(parse_bounded_chars(&chars_of("256"), 255), None);
}
