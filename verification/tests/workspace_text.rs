use packing_interface::types::{JsonInput, Rectangle};
use packing_interface::workspace::{
    accepts_count_input, backspace_removes_indent, child_tab_name, display_target, enabled_languages, enter_indent,
    generated_batch_message, generated_message, generation_inputs, imported_message, line_info, loaded_message,
    may_draw_region, rectangles_to_text, root_tab_name, run_mode, run_route, testcase_summary, tick, DisplayTarget,
    RunRoute,
};

fn names(v: &[&str]) -> Vec<String> {
    v.iter().map(|s| s.to_string()).collect()
}

fn case(w: i32, rects: Vec<Rectangle>) -> JsonInput {
    let n: i32 = rects.iter().map(|r| r.quantity).sum();
    JsonInput {
        width_of_bin: w,
        number_of_rectangles: n as usize,
        number_of_types_of_rectangles: rects.len(),
        autofill_option: false,
        rectangle_list: rects,
    }
}

#[test]
fn root_tab_names_count_root_tabs() {
    assert_eq!(root_tab_name(&names(&["Root"])), "Root 2");
    assert_eq!(root_tab_name(&names(&["Root", "Node 1", "Root 2"])), "Root 3");
    assert_eq!(root_tab_name(&Vec::new()), "Root 1");
}

#[test]
fn child_tab_names() {
    let open = names(&["Root", "Node 1", "Node 1-1", "Root 2"]);
    assert_eq!(child_tab_name("Root", &open), "Node 2");
    assert_eq!(child_tab_name("Node 1", &open), "Node 1-2");
    assert_eq!(child_tab_name("Node 1-1", &open), "Node 1-1-1");
    let with_other = names(&["Root 2-", "Root 2-7", "Root 2-x"]);
    assert_eq!(child_tab_name("Root 2", &with_other), "Root 2-3");
}

#[test]
fn tick_steps_and_stops() {
    assert_eq!(tick(2, Some(5), true), (3, true));
    assert_eq!(tick(5, Some(5), true), (5, false));
    assert_eq!(tick(0, None, true), (0, false));
}

#[test]
fn line_counts() {
    assert_eq!(line_info("", 0), (1, 1));
    assert_eq!(line_info("\n", 3), (1, 1));
    assert_eq!(line_info("1 2 3\n4 5 6", 0), (2, 1));
    assert_eq!(line_info("1 2 3\n4 5 6\n", 5), (3, 3));
}

#[test]
fn indentation_after_enter() {
    let text = "def f(x):\n    if x:  \n    return x";
    assert_eq!(enter_indent(text, 0), Some("    ".to_string()));
    assert_eq!(enter_indent(text, 1), Some("        ".to_string()));
    assert_eq!(enter_indent(text, 2), Some("    ".to_string()));
    assert_eq!(enter_indent(text, 3), None);
    assert_eq!(enter_indent("\tx", 0), Some("\t".to_string()));
}

#[test]
fn backspace_soft_tab() {
    let text = "a\n        b";
    assert!(backspace_removes_indent(text, 1, 8));
    assert!(backspace_removes_indent(text, 1, 4));
    assert!(!backspace_removes_indent(text, 1, 3));
    assert!(!backspace_removes_indent(text, 0, 4));
    assert!(!backspace_removes_indent(text, 2, 4));
    assert!(!backspace_removes_indent("   x    ", 0, 5));
    assert!(backspace_removes_indent("x    ", 0, 40));
}

#[test]
fn count_inputs() {
    assert!(accepts_count_input(""));
    assert!(accepts_count_input("42"));
    assert!(accepts_count_input("+7"));
    assert!(accepts_count_input("4294967295"));
    assert!(!accepts_count_input("4294967296"));
    assert!(!accepts_count_input("-1"));
    assert!(!accepts_count_input("1a"));
}

#[test]
fn run_modes() {
    assert_eq!(run_mode(false, false, false), 1);
    assert_eq!(run_mode(true, true, true), 1);
    assert_eq!(run_mode(true, false, true), 2);
    assert_eq!(run_mode(true, false, false), 0);
}

#[test]
fn editor_text_of_rectangles() {
    let rects = vec![
        Rectangle { width: 3, height: 4, quantity: 2 },
        Rectangle { width: 10, height: 1, quantity: 7 },
    ];
    assert_eq!(rectangles_to_text(&rects), "3 4 2\n10 1 7");
    assert_eq!(rectangles_to_text(&Vec::new()), "");
}

#[test]
fn summary_shows_ten_types() {
    let small = case(12, vec![Rectangle { width: 3, height: 4, quantity: 2 }, Rectangle { width: 1, height: 1, quantity: 1 }]);
    assert_eq!(testcase_summary(&small), "Bin Width: 12\nRectangles: 3x4(2), 1x1(1)");
    let rects: Vec<Rectangle> = (1..=12).map(|i| Rectangle { width: i, height: 1, quantity: 1 }).collect();
    let big = case(20, rects);
    assert_eq!(
        testcase_summary(&big),
        "Bin Width: 20\nRectangles: 1x1(1), 2x1(1), 3x1(1), 4x1(1), 5x1(1), 6x1(1), 7x1(1), 8x1(1), 9x1(1), 10x1(1) ... +2 more"
    );
    assert_eq!(testcase_summary(&case(5, Vec::new())), "Bin Width: 5\nRectangles: ");
}

#[test]
fn messages() {
    let c = case(12, vec![Rectangle { width: 3, height: 4, quantity: 2 }, Rectangle { width: 1, height: 1, quantity: 1 }]);
    assert_eq!(generated_message(&c), "Generated: 3 rectangles, 2 types, bin width 12");
    assert_eq!(generated_batch_message(5), "Generated: 5 test cases");
    assert_eq!(loaded_message(&c), "✓ Loaded: 2 rectangles, bin width 12");
    assert_eq!(imported_message(&c), "Imported JSON: 2 rectangle types, bin width 12");
}

#[test]
fn command_line_languages() {
    assert_eq!(enabled_languages(&names(&["app"])), (false, false));
    assert_eq!(enabled_languages(&names(&["app", "Python", "CPP"])), (true, true));
    assert_eq!(enabled_languages(&names(&["app", "cpp", "cpp", "python"])), (false, true));
    assert_eq!(enabled_languages(&names(&["app", "java", "python"])), (false, false));
}

#[test]
fn generation_fields() {
    assert_eq!(generation_inputs("250", "7"), (Some(250), Some(7)));
    assert_eq!(generation_inputs("", "x"), (None, None));
    assert_eq!(generation_inputs("-3", "+4"), (Some(-3), Some(4)));
}

#[test]
fn region_drawing_slots() {
    assert!(may_draw_region(true, true, 0));
    assert!(!may_draw_region(true, true, 1));
    assert!(may_draw_region(false, true, 1));
    assert!(!may_draw_region(false, true, 2));
    assert!(!may_draw_region(false, false, 0));
}

#[test]
fn run_routes() {
    assert_eq!(run_route(1, true, true), RunRoute::RunSingle);
    assert_eq!(run_route(1, true, false), RunRoute::MissingTestCase);
    assert_eq!(run_route(1, false, false), RunRoute::Repack);
    assert_eq!(run_route(2, true, true), RunRoute::RunBatch);
}

#[test]
fn display_targets() {
    assert_eq!(display_target(Some(4), true, true, true), DisplayTarget::Existing(4));
    assert_eq!(display_target(Some(4), false, true, true), DisplayTarget::NewTab);
    assert_eq!(display_target(None, false, true, false), DisplayTarget::ActiveTab);
    assert_eq!(display_target(None, false, false, true), DisplayTarget::Nothing);
}
