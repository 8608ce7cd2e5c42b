use widget_actions::text_input::apply_text_input_key;
use widget_actions::tree_nodes::tree_parent_index;
use widget_actions::widget::{TextPropertyEntry, TreeNode, WidgetSpec};
use widget_actions::widget_tree::{
    find_widget_by_key, set_list_items_in_spec, set_toggle_checked_in_spec,
    set_tree_nodes_in_spec,
};

fn toggle(k: &str, checked: bool) -> WidgetSpec {
    WidgetSpec::Toggle {
        checked,
        label: "T".into(),
        focused: false,
        key: Some(k.into()),
    }
}

fn button(k: &str) -> WidgetSpec {
    WidgetSpec::Button {
        label: "B".into(),
        focused: false,
        key: Some(k.into()),
    }
}

fn list(k: &str, items: &[&str]) -> WidgetSpec {
    WidgetSpec::List {
        items: items.iter().map(|s| TextPropertyEntry::text(s)).collect(),
        item_keys: items.iter().map(|s| s.to_string()).collect(),
        selected_index: 1,
        visible_rows: 4,
        key: Some(k.into()),
    }
}

fn node(text: &str, depth: u32) -> TreeNode {
    TreeNode {
        text: TextPropertyEntry::text(text),
        depth,
        has_children: false,
    }
}

fn tree(k: &str) -> WidgetSpec {
    WidgetSpec::Tree {
        nodes: vec![node("old", 0)],
        item_keys: vec!["old".into()],
        selected_index: 0,
        visible_rows: 3,
        expanded_keys: vec!["old".into()],
        key: Some(k.into()),
    }
}

fn texts(items: &[TextPropertyEntry]) -> Vec<String> {
    items.iter().map(|e| e.text.clone()).collect()
}

#[test]
fn entry_holds_its_text() {
    assert_eq!(TextPropertyEntry::text("row").text, "row");
}

#[test]
fn contains_key_sees_nested_interactive_widgets_only() {
    let spec = WidgetSpec::Row {
        children: vec![
            WidgetSpec::Raw { lines: vec![TextPropertyEntry::text("x")] },
            WidgetSpec::Col {
                children: vec![WidgetSpec::Spacer { rows: 1 }, button("deep")],
                key: Some("col".into()),
            },
        ],
        key: Some("row".into()),
    };
    assert!(spec.contains_key("deep"));
    assert!(!spec.contains_key("row"));
    assert!(!spec.contains_key("col"));
    assert!(!spec.contains_key("x"));
}

#[test]
fn find_agrees_with_contains_key() {
    let spec = WidgetSpec::Col {
        children: vec![toggle("a", false), WidgetSpec::Row { children: vec![list("b", &[])], key: None }],
        key: None,
    };
    for k in ["a", "b", "c", ""] {
        let found = find_widget_by_key(&spec, k).is_some();
        assert_eq!(found, !k.is_empty() && spec.contains_key(k));
    }
}

#[test]
fn find_returns_first_match_depth_first() {
    let spec = WidgetSpec::Row {
        children: vec![
            WidgetSpec::Col { children: vec![button("x")], key: None },
            toggle("x", true),
        ],
        key: None,
    };
    assert!(matches!(find_widget_by_key(&spec, "x"), Some(WidgetSpec::Button { .. })));
}

#[test]
fn find_skips_container_keys() {
    let spec = WidgetSpec::Row { children: vec![], key: Some("r".into()) };
    assert!(find_widget_by_key(&spec, "r").is_none());
}

#[test]
fn set_toggle_updates_first_toggle_and_read_back() {
    let mut spec = WidgetSpec::Row {
        children: vec![button("y"), toggle("x", false), toggle("x", false)],
        key: None,
    };
    assert!(set_toggle_checked_in_spec(&mut spec, "x", true));
    match &spec {
        WidgetSpec::Row { children, .. } => {
            assert!(matches!(children[1], WidgetSpec::Toggle { checked: true, .. }));
            assert!(matches!(children[2], WidgetSpec::Toggle { checked: false, .. }));
        }
        _ => unreachable!(),
    }
    assert!(matches!(
        find_widget_by_key(&spec, "x"),
        Some(WidgetSpec::Toggle { checked: true, .. })
    ));
}

#[test]
fn set_toggle_skips_other_widgets_with_the_key() {
    let mut spec = WidgetSpec::Row {
        children: vec![button("x"), toggle("x", false)],
        key: None,
    };
    assert!(set_toggle_checked_in_spec(&mut spec, "x", true));
    match &spec {
        WidgetSpec::Row { children, .. } => {
            assert!(matches!(children[1], WidgetSpec::Toggle { checked: true, .. }));
        }
        _ => unreachable!(),
    }
}

#[test]
fn set_toggle_fails_without_toggle_or_with_empty_key() {
    let mut spec = WidgetSpec::Row { children: vec![button("x"), toggle("", false)], key: None };
    assert!(!set_toggle_checked_in_spec(&mut spec, "x", true));
    assert!(!set_toggle_checked_in_spec(&mut spec, "", true));
    match &spec {
        WidgetSpec::Row { children, .. } => {
            assert!(matches!(children[1], WidgetSpec::Toggle { checked: false, .. }));
        }
        _ => unreachable!(),
    }
}

#[test]
fn set_list_items_read_back() {
    let mut spec = WidgetSpec::Col {
        children: vec![toggle("t", false), WidgetSpec::Row { children: vec![list("l", &["a"])], key: None }],
        key: None,
    };
    let ok = set_list_items_in_spec(
        &mut spec,
        "l",
        vec![TextPropertyEntry::text("x"), TextPropertyEntry::text("y")],
        vec!["kx".into(), "ky".into()],
    );
    assert!(ok);
    match find_widget_by_key(&spec, "l") {
        Some(WidgetSpec::List { items, item_keys, selected_index, visible_rows, .. }) => {
            assert_eq!(texts(items), vec!["x".to_string(), "y".to_string()]);
            assert_eq!(item_keys, &vec!["kx".to_string(), "ky".to_string()]);
            assert_eq!(*selected_index, 1);
            assert_eq!(*visible_rows, 4);
        }
        _ => unreachable!(),
    }
}

#[test]
fn set_list_items_follows_only_the_first_child_holding_the_key() {
    let mut spec = WidgetSpec::Row {
        children: vec![
            WidgetSpec::Col { children: vec![button("k")], key: None },
            list("k", &["a"]),
        ],
        key: None,
    };
    assert!(!set_list_items_in_spec(&mut spec, "k", vec![], vec![]));
    match &spec {
        WidgetSpec::Row { children, .. } => match &children[1] {
            WidgetSpec::List { items, .. } => assert_eq!(texts(items), vec!["a".to_string()]),
            _ => unreachable!(),
        },
        _ => unreachable!(),
    }
}

#[test]
fn set_list_items_refuses_empty_key_and_other_kinds() {
    let mut spec = list("", &["a"]);
    assert!(!set_list_items_in_spec(&mut spec, "", vec![], vec![]));
    let mut spec = tree("l");
    assert!(!set_list_items_in_spec(&mut spec, "l", vec![], vec![]));
}

#[test]
fn set_tree_nodes_keeps_instance_state() {
    let mut spec = WidgetSpec::Row { children: vec![button("b"), tree("t")], key: None };
    assert!(set_tree_nodes_in_spec(
        &mut spec,
        "t",
        vec![node("n1", 0), node("n2", 1)],
        vec!["k1".into(), "k2".into()]
    ));
    match find_widget_by_key(&spec, "t") {
        Some(WidgetSpec::Tree { nodes, item_keys, selected_index, visible_rows, expanded_keys, .. }) => {
            assert_eq!(nodes.len(), 2);
            assert_eq!(nodes[1].text.text, "n2");
            assert_eq!(nodes[1].depth, 1);
            assert_eq!(item_keys, &vec!["k1".to_string(), "k2".to_string()]);
            assert_eq!(*selected_index, 0);
            assert_eq!(*visible_rows, 3);
            assert_eq!(expanded_keys, &vec!["old".to_string()]);
        }
        _ => unreachable!(),
    }
    assert!(!set_tree_nodes_in_spec(&mut spec, "b", vec![], vec![]));
}

#[test]
fn cursor_past_end_is_clamped() {
    assert_eq!(apply_text_input_key("abc", 10, "Wat"), ("abc".into(), 3));
    assert_eq!(apply_text_input_key("abc", 10, "Backspace"), ("ab".into(), 2));
    assert_eq!(apply_text_input_key("abc", 10, "Delete"), ("abc".into(), 3));
    assert_eq!(apply_text_input_key("abc", 10, "Left"), ("abc".into(), 2));
}

#[test]
fn empty_text_ignores_every_key() {
    for k in ["Backspace", "Delete", "Left", "Right", "Home", "End", "x"] {
        assert_eq!(apply_text_input_key("", 0, k), ("".into(), 0));
    }
}

#[test]
fn delete_removes_whole_multibyte_char() {
    assert_eq!(apply_text_input_key("héllo", 1, "Delete"), ("hllo".into(), 1));
}

#[test]
fn four_byte_chars_are_stepped_over_whole() {
    let s = "a\u{1F600}b";
    assert_eq!(apply_text_input_key(s, 1, "Right"), (s.into(), 5));
    assert_eq!(apply_text_input_key(s, 5, "Left"), (s.into(), 1));
    assert_eq!(apply_text_input_key(s, 1, "Delete"), ("ab".into(), 1));
    assert_eq!(apply_text_input_key(s, 5, "Backspace"), ("ab".into(), 1));
}

#[test]
fn unknown_key_keeps_caret_inside_char() {
    assert_eq!(apply_text_input_key("héllo", 2, "Wat"), ("héllo".into(), 2));
    assert_eq!(apply_text_input_key("héllo", 2, "Left"), ("héllo".into(), 1));
    assert_eq!(apply_text_input_key("héllo", 2, "Right"), ("héllo".into(), 3));
}

#[test]
fn left_then_right_returns_the_caret() {
    let s = "h\u{e9}llo";
    let (v1, c1) = apply_text_input_key(s, 3, "Left");
    let (v2, c2) = apply_text_input_key(&v1, c1, "Right");
    assert_eq!((v2.as_str(), c2), (s, 3));
    let (v1, c1) = apply_text_input_key(s, 1, "Right");
    let (v2, c2) = apply_text_input_key(&v1, c1, "Left");
    assert_eq!((v2.as_str(), c2), (s, 1));
}

#[test]
fn backspace_is_left_then_delete() {
    let s = "a\u{e9}\u{1F600}z";
    for c in [1, 3, 7, 8] {
        let direct = apply_text_input_key(s, c, "Backspace");
        let (v1, c1) = apply_text_input_key(s, c, "Left");
        let composed = apply_text_input_key(&v1, c1, "Delete");
        assert_eq!(direct, composed);
    }
}

#[test]
fn home_and_end_on_multibyte_text() {
    assert_eq!(apply_text_input_key("\u{e9}\u{e9}", 2, "Home"), ("\u{e9}\u{e9}".into(), 0));
    assert_eq!(apply_text_input_key("\u{e9}\u{e9}", 2, "End"), ("\u{e9}\u{e9}".into(), 4));
}

#[test]
fn tree_parent_index_out_of_range_or_orphan() {
    let nodes = vec![node("a", 1), node("b", 0), node("c", 2)];
    assert_eq!(tree_parent_index(&nodes, 3), None);
    assert_eq!(tree_parent_index(&nodes, 0), None);
    assert_eq!(tree_parent_index(&nodes, 2), Some(0));
    let orphan = vec![node("a", 0), node("b", 2)];
    assert_eq!(tree_parent_index(&orphan, 1), None);
    assert_eq!(tree_parent_index(&[], 0), None);
}
