use packing_interface::tab_book::TabBook;
use packing_interface::types::RightPanelTab;

fn names(b: &TabBook) -> Vec<String> {
    b.tabs.iter().map(|t| t.name.clone()).collect()
}

#[test]
fn starts_with_root() {
    let b = TabBook::new("root code".to_string());
    assert_eq!(b.tabs.len(), 1);
    assert_eq!(b.tabs[0].id, 0);
    assert_eq!(b.tabs[0].name, "Root");
    assert_eq!(b.tabs[0].code, "root code");
    assert_eq!(b.active_id, 0);
    assert_eq!(b.next_id, 1);
    assert!(b.selected.is_empty());
    assert_eq!(b.active_panel, RightPanelTab::Visualization);
    assert!(b.new_area_select);
}

#[test]
fn switching_tabs_keeps_each_code() {
    let mut b = TabBook::new("A".to_string());
    let id = b.new_root_tab("edited A".to_string());
    assert_eq!(id, 1);
    assert_eq!(names(&b), vec!["Root", "Root 2"]);
    assert_eq!(b.tabs[0].code, "edited A");
    assert_eq!(b.tabs[1].code, "edited A");
    assert_eq!(b.active_id, 1);
    b.show_panel(RightPanelTab::CodeEditor);
    let code = b.select_tab(0, "B".to_string());
    assert_eq!(code, Some("edited A".to_string()));
    assert_eq!(b.tabs[1].code, "B");
    assert_eq!(b.tabs[1].last_right_panel_tab, RightPanelTab::CodeEditor);
    assert_eq!(b.active_panel, RightPanelTab::Visualization);
    assert_eq!(b.select_tab(1, "A again".to_string()), Some("B".to_string()));
    assert_eq!(b.active_panel, RightPanelTab::CodeEditor);
    assert_eq!(b.select_tab(42, "x".to_string()), None);
    assert_eq!(b.active_id, 42);
    assert!(b.selected.is_empty());
}

#[test]
fn child_tabs_are_named_after_parent() {
    let mut b = TabBook::new("root".to_string());
    let first = b.new_child_tab("node".to_string(), "root edited".to_string());
    assert_eq!(first, Some(1));
    assert_eq!(names(&b), vec!["Root", "Node 1"]);
    assert_eq!(b.tabs[0].code, "root edited");
    assert_eq!(b.tabs[1].code, "node");
    let grandchild = b.new_child_tab("node".to_string(), "node edited".to_string());
    assert_eq!(grandchild, Some(2));
    assert_eq!(names(&b), vec!["Root", "Node 1", "Node 1-1"]);
    assert_eq!(b.tabs[1].code, "node edited");
    b.select_tab(0, "n".to_string());
    b.new_child_tab("node".to_string(), "r".to_string());
    assert_eq!(names(&b), vec!["Root", "Node 1", "Node 1-1", "Node 2"]);
    b.select_tab(77, "z".to_string());
    assert_eq!(b.new_child_tab("node".to_string(), "z".to_string()), None);
}

#[test]
fn selection_toggles_and_is_kept_by_child_tabs() {
    let mut b = TabBook::new("root".to_string());
    b.toggle_selection(5);
    b.toggle_selection(2);
    assert_eq!(b.selected, vec![2, 5]);
    assert!(b.tabs[0].selected_indices.is_empty());
    b.new_child_tab("node".to_string(), "root".to_string());
    assert!(b.selected.is_empty());
    b.toggle_selection(3);
    b.toggle_selection(1);
    assert_eq!(b.tabs[1].selected_indices, vec![1, 3]);
    b.toggle_selection(3);
    assert_eq!(b.selected, vec![1]);
    assert_eq!(b.tabs[1].selected_indices, vec![1]);
    b.toggle_selection(3);
    b.toggle_selection(3);
    assert_eq!(b.selected, vec![1]);
    b.select_tab(0, "root".to_string());
    assert!(b.selected.is_empty());
    b.select_tab(1, "root".to_string());
    assert_eq!(b.selected, vec![1]);
}

#[test]
fn closing_tabs() {
    let mut b = TabBook::new("root".to_string());
    b.new_root_tab("root".to_string());
    b.new_root_tab("second".to_string());
    assert_eq!(names(&b), vec!["Root", "Root 2", "Root 3"]);
    assert_eq!(b.remove_tab(0, "x".to_string()), None);
    assert_eq!(b.tabs.len(), 3);
    assert_eq!(b.remove_tab(1, "x".to_string()), None);
    assert_eq!(names(&b), vec!["Root", "Root 3"]);
    assert_eq!(b.active_id, 2);
    assert_eq!(b.remove_tab(2, "x".to_string()), Some("root".to_string()));
    assert_eq!(names(&b), vec!["Root"]);
    assert_eq!(b.active_id, 0);
    assert_eq!(b.next_id, 3);
}

#[test]
fn selection_kept_below_placement_count() {
    let mut b = TabBook::new("root code".to_string());
    b.toggle_selection(7);
    b.toggle_selection(2);
    b.toggle_selection(4);
    assert_eq!(b.selected_below(5), vec![2, 4]);
    assert_eq!(b.selected_below(8), vec![2, 4, 7]);
    assert!(b.selected_below(2).is_empty());
}
