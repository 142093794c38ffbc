use packing_interface::config_parser::{create_input, create_input_is_feasible};
use packing_interface::rect_input::{parse_rectangles, rectangle_quantities_fit};
use packing_interface::testcase_gen::{generate_random_test_case, generation_is_feasible, isqrt};
use packing_interface::types::{ParseOutput, Rectangle};
use packing_interface::workspace::rectangles_to_text;
use std::collections::HashSet;

fn r(width: i32, height: i32, quantity: i32) -> Rectangle {
    Rectangle { width, height, quantity }
}

fn errors(w: &str, n: &str, k: &str, autofill: bool, text: &str) -> Vec<String> {
    parse_rectangles(w, n, k, autofill, text).unwrap_err()
}

#[test]
fn parse_accepts_and_merges() {
    let out = parse_rectangles("10", "6", "2", false, "3 4 2\n\n  5 1 3  \n3 4 1").unwrap();
    assert_eq!(out.width, 10);
    assert_eq!(out.quantity, 6);
    assert_eq!(out.types, 2);
    assert!(!out.autofill);
    assert_eq!(out.rects, vec![r(3, 4, 3), r(5, 1, 3)]);
    assert_eq!(out.input_types, 2);
    assert_eq!(out.min_height, 1);
    assert_eq!(out.max_height, 4);
}

#[test]
fn parse_empty_counts_are_minus_one() {
    let out = parse_rectangles("7", "", "", true, "").unwrap();
    assert_eq!((out.width, out.quantity, out.types), (7, -1, -1));
    assert!(out.rects.is_empty());
    assert_eq!(out.min_height, i32::MAX);
    assert_eq!(out.max_height, i32::MIN);
}

#[test]
fn parse_width_errors() {
    assert_eq!(errors("", "", "", false, ""), vec!["Enter a value for the width of the bin"]);
    assert_eq!(errors("-2", "", "", false, ""), vec!["Emter a positive value for the width of the bin"]);
    assert_eq!(errors("x", "", "", false, ""), vec!["Enter an integer value for the width of the bin"]);
}

#[test]
fn parse_count_errors() {
    assert_eq!(errors("5", "-1", "zz", false, ""), vec!["Enter an integer value for the quantity of rectangles"]);
    assert_eq!(
        errors("5", "q", "zz", false, ""),
        vec!["Enter an integer value for the quantity of rectangles", "Enter an integer value for the types of rectangles"]
    );
    assert_eq!(
        errors("5", "q", "-3", false, ""),
        vec!["Enter an integer value for the quantity of rectangles", "Enter an integer value for the types f rectangles"]
    );
}

#[test]
fn parse_line_errors() {
    let text = "1 2\n0 1 1\n9 1 1\na 1 1\n1 b 1\n1 1 c\n2 2 2";
    assert_eq!(
        errors("5", "", "", false, text),
        vec![
            "Line 1: Expected exactly 3 space-separated values (X Y Q), found 2",
            "Line 2: X, Y, and Q must be positive",
            "Line 3: '9' is greater than the width 5",
            "Line 4: 'a' is not a valid integer for X",
            "Line 5: 'b' is not a valid integer for Y",
            "Line 6: 'c' is not a valid integer for Q",
        ]
    );
}

#[test]
fn parse_count_checks() {
    assert_eq!(
        errors("5", "4", "3", false, "1 1 1\n2 2 2"),
        vec![
            "The quantity of rectangles is NOT the same as the input. 3 rectangles found, 4 expected.",
            "The number of types of rectangles is NOT the same as the input. 2 types found, 3 expected.",
        ]
    );
    assert_eq!(
        errors("5", "10", "1", true, "1 1 1\n2 2 2"),
        vec!["The number of types of rectangles is greater than the input. 2 types found, 1 expected."]
    );
    assert_eq!(
        errors("5", "4", "5", true, "1 1 1\n2 2 2"),
        vec!["Autofill impossible: Need to add 1 rectangles but only 3 type slots available. (Input N=4, Actual N=3, Input K=5, Actual K=2)"]
    );
    assert_eq!(
        errors("5", "2", "2", true, "1 1 1\n2 2 2"),
        vec!["Autofill impossible: Already have 3 rectangles but input N=2 (cannot remove rectangles)"]
    );
}

#[test]
fn quantities_fit_check() {
    assert!(rectangle_quantities_fit("1 1 5\n2 2 7"));
    assert!(!rectangle_quantities_fit("1 1 2147483647\n2 2 1"));
}

#[test]
fn editor_text_reads_back() {
    let rects = vec![r(3, 4, 2), r(10, 1, 7), r(1, 1, 1)];
    let text = rectangles_to_text(&rects);
    let out = parse_rectangles("10", "", "", false, &text).unwrap();
    assert_eq!(out.rects, rects);
}

fn form(width: i32, quantity: i32, types: i32, autofill: bool, rects: Vec<Rectangle>) -> ParseOutput {
    let min_height = rects.iter().map(|r| r.height).min().unwrap_or(i32::MAX);
    let max_height = rects.iter().map(|r| r.height).max().unwrap_or(i32::MIN);
    ParseOutput { width, quantity, types, autofill, input_types: rects.len() as i32, rects, min_height, max_height }
}

#[test]
fn create_input_without_autofill_keeps_types() {
    let p = form(10, -1, -1, false, vec![r(3, 4, 2), r(5, 1, 3)]);
    assert!(create_input_is_feasible(&p));
    let c = create_input(&p);
    assert_eq!(c.width_of_bin, 10);
    assert_eq!(c.rectangle_list, vec![r(3, 4, 2), r(5, 1, 3)]);
    assert_eq!(c.number_of_rectangles, 5);
    assert_eq!(c.number_of_types_of_rectangles, 2);
    assert!(!c.autofill_option);
}

#[test]
fn create_input_autofill_reaches_counts() {
    let p = form(6, 20, 5, true, vec![r(3, 4, 2), r(5, 1, 3)]);
    assert!(create_input_is_feasible(&p));
    let c = create_input(&p);
    assert_eq!(c.rectangle_list.len(), 5);
    assert_eq!(c.number_of_rectangles, 20);
    assert_eq!(c.rectangle_list.iter().map(|r| r.quantity).sum::<i32>(), 20);
    assert_eq!(c.number_of_types_of_rectangles, 5);
    let dims: HashSet<(i32, i32)> = c.rectangle_list.iter().map(|r| (r.width, r.height)).collect();
    assert_eq!(dims.len(), 5);
    for extra in &c.rectangle_list[2..] {
        assert!(1 <= extra.width && extra.width <= 6);
        assert!(1 <= extra.height && extra.height <= 4);
    }
}

#[test]
fn create_input_refuses_impossible_autofill() {
    let p = form(1, -1, 3, true, vec![r(1, 1, 1)]);
    assert!(!create_input_is_feasible(&p));
    let overflow = form(10, -1, -1, false, vec![r(1, 1, i32::MAX), r(2, 2, 1)]);
    assert!(!create_input_is_feasible(&overflow));
}

#[test]
fn integer_square_roots() {
    assert_eq!(isqrt(0), 0);
    assert_eq!(isqrt(400), 20);
    assert_eq!(isqrt(399), 19);
    assert_eq!(isqrt(4 * 100), 20);
}

#[test]
fn generated_cases_meet_the_request() {
    let mut rng = rand::rng();
    assert!(generation_is_feasible(Some(250), Some(7)));
    let cases = generate_random_test_case(&mut rng, 3, Some(250), Some(7));
    assert_eq!(cases.len(), 3);
    for c in &cases {
        assert_eq!(c.rectangle_list.len(), 7);
        assert_eq!(c.number_of_types_of_rectangles, 7);
        assert_eq!(c.number_of_rectangles, 250);
        assert_eq!(c.rectangle_list.iter().map(|r| r.quantity).sum::<i32>(), 250);
        assert!(31 <= c.width_of_bin && c.width_of_bin <= 93);
        let dims: HashSet<(i32, i32)> = c.rectangle_list.iter().map(|r| (r.width, r.height)).collect();
        assert_eq!(dims.len(), 7);
        for t in &c.rectangle_list {
            assert!(1 <= t.width && t.width <= c.width_of_bin);
            assert!(1 <= t.height && t.height <= 20);
            assert!(t.quantity >= 1);
        }
        assert!(!c.autofill_option);
    }
}

#[test]
fn generated_defaults() {
    let mut rng = rand::rng();
    let cases = generate_random_test_case(&mut rng, 1, None, None);
    let c = &cases[0];
    assert!((3..=20).contains(&c.rectangle_list.len()));
    assert_eq!(c.number_of_rectangles, 100);
    assert!(20 <= c.width_of_bin && c.width_of_bin <= 60);
    let small = generate_random_test_case(&mut rng, 1, Some(2), Some(12));
    assert_eq!(small[0].number_of_rectangles, 12);
    assert!(6 <= small[0].width_of_bin && small[0].width_of_bin <= 18);
    assert!(generate_random_test_case(&mut rng, 0, None, None).is_empty());
    assert!(generate_random_test_case(&mut rng, -4, None, None).is_empty());
}

#[test]
fn many_types_get_a_wide_enough_bin() {
    let mut rng = rand::rng();
    for c in generate_random_test_case(&mut rng, 5, Some(10), Some(300)) {
        assert!(15 <= c.width_of_bin && c.width_of_bin <= 18);
        assert_eq!(c.rectangle_list.len(), 300);
        assert_eq!(c.number_of_rectangles, 300);
        let dims: HashSet<(i32, i32)> = c.rectangle_list.iter().map(|r| (r.width, r.height)).collect();
        assert_eq!(dims.len(), 300);
    }
}

#[test]
fn generation_feasibility() {
    assert!(generation_is_feasible(None, None));
    assert!(!generation_is_feasible(None, Some(0)));
    assert!(generation_is_feasible(Some(10), Some(360)));
    assert!(!generation_is_feasible(Some(10), Some(361)));
}
