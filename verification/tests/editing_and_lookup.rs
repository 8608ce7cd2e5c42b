use widget_actions::text_input::apply_text_input_key;
use widget_actions::tree_nodes::tree_parent_index;
use widget_actions::widget::{TextPropertyEntry, TreeNode, WidgetSpec};
use widget_actions::widget_tree::{find_widget_by_key, set_tree_nodes_in_spec};

fn toggle_with_key(k: &str) -> WidgetSpec {
    WidgetSpec::Toggle {
        checked: false,
        label: "T".into(),
        focused: false,
        key: Some(k.into()),
    }
}

#[test]
fn find_widget_by_key_finds_top_level_match() {
    let spec = toggle_with_key("a");
    assert!(find_widget_by_key(&spec, "a").is_some());
    assert!(find_widget_by_key(&spec, "b").is_none());
}

#[test]
fn find_widget_by_key_recurses_into_row() {
    let spec = WidgetSpec::Row {
        children: vec![toggle_with_key("a"), toggle_with_key("b")],
        key: None,
    };
    assert!(find_widget_by_key(&spec, "b").is_some());
}

#[test]
fn find_widget_by_key_returns_none_for_empty_target() {
    let spec = toggle_with_key("a");
    assert!(find_widget_by_key(&spec, "").is_none());
}

#[test]
fn backspace_at_start_is_noop() {
    assert_eq!(
        apply_text_input_key("hello", 0, "Backspace"),
        ("hello".into(), 0)
    );
}

#[test]
fn backspace_in_middle_removes_previous_char() {
    assert_eq!(
        apply_text_input_key("hello", 3, "Backspace"),
        ("helo".into(), 2)
    );
}

#[test]
fn backspace_at_end_removes_last_char() {
    assert_eq!(
        apply_text_input_key("hello", 5, "Backspace"),
        ("hell".into(), 4)
    );
}

#[test]
fn delete_at_end_is_noop() {
    assert_eq!(
        apply_text_input_key("hello", 5, "Delete"),
        ("hello".into(), 5)
    );
}

#[test]
fn delete_in_middle_removes_next_char() {
    assert_eq!(
        apply_text_input_key("hello", 2, "Delete"),
        ("helo".into(), 2)
    );
}

#[test]
fn left_decrements_cursor() {
    assert_eq!(apply_text_input_key("abc", 2, "Left"), ("abc".into(), 1));
}

#[test]
fn right_increments_cursor_until_end() {
    assert_eq!(apply_text_input_key("abc", 1, "Right"), ("abc".into(), 2));
    assert_eq!(apply_text_input_key("abc", 3, "Right"), ("abc".into(), 3));
}

#[test]
fn home_jumps_to_zero() {
    assert_eq!(apply_text_input_key("abc", 2, "Home"), ("abc".into(), 0));
}

#[test]
fn end_jumps_to_value_len() {
    assert_eq!(apply_text_input_key("abc", 1, "End"), ("abc".into(), 3));
}

#[test]
fn unknown_key_is_noop() {
    assert_eq!(apply_text_input_key("abc", 1, "Wat"), ("abc".into(), 1));
}

#[test]
fn backspace_handles_multibyte_chars() {
    // "héllo": 'é' is 2 bytes (0xC3 0xA9).
    let s = "héllo";
    // Cursor after 'é' (byte 3). Backspace removes 'é'.
    let (new_value, new_cursor) = apply_text_input_key(s, 3, "Backspace");
    assert_eq!(new_value, "hllo");
    assert_eq!(new_cursor, 1);
}

#[test]
fn left_handles_multibyte_chars() {
    let s = "héllo";
    // From byte 3 (after 'é'), Left goes to byte 1 (before 'é').
    let (_, cursor) = apply_text_input_key(s, 3, "Left");
    assert_eq!(cursor, 1);
}

#[test]
fn right_handles_multibyte_chars() {
    let s = "héllo";
    // From byte 1 (before 'é'), Right goes to byte 3 (after 'é').
    let (_, cursor) = apply_text_input_key(s, 1, "Right");
    assert_eq!(cursor, 3);
}

fn node(text: &str, depth: u32, has_children: bool) -> TreeNode {
    TreeNode {
        text: TextPropertyEntry::text(text),
        depth,
        has_children,
    }
}

#[test]
fn tree_parent_index_top_level_returns_none() {
    let nodes = vec![node("root", 0, true)];
    assert!(tree_parent_index(&nodes, 0).is_none());
}

#[test]
fn tree_parent_index_finds_immediate_parent() {
    let nodes = vec![
        node("root", 0, true),
        node("child", 1, false),
        node("child2", 1, false),
    ];
    assert_eq!(tree_parent_index(&nodes, 1), Some(0));
    assert_eq!(tree_parent_index(&nodes, 2), Some(0));
}

#[test]
fn tree_parent_index_skips_intermediate_siblings() {
    // root, child, grandchild: grandchild's parent is child (idx 1).
    let nodes = vec![
        node("root", 0, true),
        node("child", 1, true),
        node("grand", 2, false),
    ];
    assert_eq!(tree_parent_index(&nodes, 2), Some(1));
}

#[test]
fn tree_parent_index_finds_parent_across_unrelated_subtree() {
    // root_a, child_a, root_b, child_b: child_b's parent is root_b (idx 2),
    // not root_a.
    let nodes = vec![
        node("a", 0, true),
        node("a.0", 1, false),
        node("b", 0, true),
        node("b.0", 1, false),
    ];
    assert_eq!(tree_parent_index(&nodes, 3), Some(2));
}

#[test]
fn set_tree_nodes_in_spec_replaces_nodes() {
    let mut spec = WidgetSpec::Tree {
        nodes: vec![node("old", 0, false)],
        item_keys: vec!["k0".into()],
        selected_index: -1,
        visible_rows: 5,
        expanded_keys: vec![],
        key: Some("t".into()),
    };
    let new_nodes = vec![node("new1", 0, false), node("new2", 0, false)];
    let new_keys = vec!["a".to_string(), "b".to_string()];
    let ok = set_tree_nodes_in_spec(&mut spec, "t", new_nodes.clone(), new_keys.clone());
    assert!(ok);
    match &spec {
        WidgetSpec::Tree {
            nodes, item_keys, ..
        } => {
            assert_eq!(nodes.len(), 2);
            assert_eq!(item_keys, &new_keys);
        }
        _ => unreachable!(),
    }
}

#[test]
fn set_tree_nodes_in_spec_returns_false_for_unknown_key() {
    let mut spec = WidgetSpec::Tree {
        nodes: vec![node("a", 0, false)],
        item_keys: vec!["k".into()],
        selected_index: -1,
        visible_rows: 5,
        expanded_keys: vec![],
        key: Some("real".into()),
    };
    assert!(!set_tree_nodes_in_spec(&mut spec, "wrong", vec![], vec![]));
}
