use vstd::prelude::*;

use crate::widget::{children_model, key_view, NodeModel, WidgetModel, WidgetSpec};
use crate::widget_tree::{
    children_contain, children_find, children_set_keyed, children_set_toggle, find_widget,
    list_update, model_contains, model_find, model_key, model_set_keyed, model_set_toggle,
    set_list_items, set_toggle_checked, set_tree_nodes, tree_update,
};

verus! {

/// Whether `m` is a container widget.
pub open spec fn is_container(m: WidgetModel) -> bool {
    m is Row || m is Col
}

/// Lookup and containment agree, and what is found is a non-container
/// widget carrying the key (subtree form).
proof fn lemma_find_contains(m: WidgetModel, t: Seq<char>)
    ensures
        (model_find(m, t) is Some) == model_contains(m, t),
        model_find(m, t) matches Some(w) ==> model_key(w) == Some(t) && !is_container(w),
    decreases m,
{
    match m {
        WidgetModel::Row { children, .. } => lemma_children_find_contains(children, t),
        WidgetModel::Col { children, .. } => lemma_children_find_contains(children, t),
        _ => {},
    }
}

/// Lookup and containment agree over a sequence of subtrees.
proof fn lemma_children_find_contains(cs: Seq<WidgetModel>, t: Seq<char>)
    ensures
        (children_find(cs, t) is Some) == children_contain(cs, t),
        children_find(cs, t) matches Some(w) ==> model_key(w) == Some(t) && !is_container(w),
    decreases cs,
{
    if cs.len() > 0 {
        lemma_children_find_contains(cs.drop_last(), t);
        lemma_find_contains(cs.last(), t);
    }
}

/// A key lookup finds something exactly when the key is non-empty and the
/// tree holds an interactive widget with that key (`find_widget_by_key`
/// agrees with `contains_key`); what it finds is an interactive widget
/// carrying that key.
pub proof fn law_find_agrees_with_contains(m: WidgetModel, t: Seq<char>)
    ensures
        (find_widget(m, t) is Some) == (t.len() > 0 && model_contains(m, t)),
        find_widget(m, t) matches Some(w) ==> model_key(w) == Some(t) && !is_container(w),
{
    lemma_find_contains(m, t);
}

/// `f` only ever changes interactive widgets, and keeps their key and
/// their being interactive.
pub open spec fn keeps_keys(f: spec_fn(WidgetModel) -> Option<WidgetModel>) -> bool {
    forall|w: WidgetModel|
        #![trigger f(w)]
        f(w) matches Some(x) ==> model_key(x) == model_key(w) && !is_container(x)
}

/// What a keyed update does to a subtree that holds the key: it succeeds
/// exactly when `f` accepts the widget a lookup finds, a later lookup
/// finds `f` of it, and the keys held are unchanged.
proof fn lemma_set_keyed(
    m: WidgetModel,
    t: Seq<char>,
    f: spec_fn(WidgetModel) -> Option<WidgetModel>,
    t2: Seq<char>,
)
    requires
        keeps_keys(f),
        model_contains(m, t),
    ensures
        model_find(m, t) is Some,
        (model_set_keyed(m, t, f) is Some) == (f(model_find(m, t).unwrap()) is Some),
        model_set_keyed(m, t, f) matches Some(m2) ==> model_find(m2, t) == f(
            model_find(m, t).unwrap(),
        ) && model_contains(m2, t2) == model_contains(m, t2) && (t2 != t ==> model_find(m2, t2)
            == model_find(m, t2)),
    decreases m,
{
    lemma_find_contains(m, t);
    match m {
        WidgetModel::Row { children, .. } => lemma_children_set_keyed(children, t, f, t2),
        WidgetModel::Col { children, .. } => lemma_children_set_keyed(children, t, f, t2),
        _ => {
            let w = model_find(m, t).unwrap();
            assert(w == m);
            if let Some(x) = f(m) {
                assert(model_key(x) == model_key(m));
            }
        },
    }
}

/// `lemma_set_keyed` over a sequence of subtrees.
proof fn lemma_children_set_keyed(
    cs: Seq<WidgetModel>,
    t: Seq<char>,
    f: spec_fn(WidgetModel) -> Option<WidgetModel>,
    t2: Seq<char>,
)
    requires
        keeps_keys(f),
        children_contain(cs, t),
    ensures
        children_find(cs, t) is Some,
        (children_set_keyed(cs, t, f) is Some) == (f(children_find(cs, t).unwrap()) is Some),
        children_set_keyed(cs, t, f) matches Some(n) ==> children_find(n, t) == f(
            children_find(cs, t).unwrap(),
        ) && children_contain(n, t2) == children_contain(cs, t2) && (t2 != t ==> children_find(
            n,
            t2,
        ) == children_find(cs, t2)),
    decreases cs,
{
    lemma_children_find_contains(cs, t);
    let init = cs.drop_last();
    let last = cs.last();
    lemma_children_find_contains(init, t);
    if children_contain(init, t) {
        lemma_children_set_keyed(init, t, f, t2);
        if let Some(n0) = children_set_keyed(init, t, f) {
            let n = n0.push(last);
            assert(n.drop_last() =~= n0);
            assert(n.last() == last);
        }
    } else {
        lemma_set_keyed(last, t, f, t2);
        if let Some(x) = model_set_keyed(last, t, f) {
            let n = init.push(x);
            assert(n.drop_last() =~= init);
            assert(n.last() == x);
        }
    }
}

/// A keyed update that keeps keys (lists and trees) succeeds exactly when
/// a lookup by the same key finds a widget that `f` accepts; afterwards the
/// lookup finds `f` of that widget, and the tree holds the same keys.
pub proof fn law_set_keyed_read_back(
    m: WidgetModel,
    t: Seq<char>,
    f: spec_fn(WidgetModel) -> Option<WidgetModel>,
    t2: Seq<char>,
)
    requires
        keeps_keys(f),
    ensures
        ({
            let r = if t.len() == 0 {
                None
            } else {
                model_set_keyed(m, t, f)
            };
            &&& (r is Some) == (find_widget(m, t) matches Some(w) && f(w) is Some)
            &&& r matches Some(m2) ==> find_widget(m2, t) == f(find_widget(m, t).unwrap())
                && model_contains(m2, t2) == model_contains(m, t2) && (t2 != t ==> find_widget(m2, t2)
                == find_widget(m, t2))
        }),
{
    lemma_find_contains(m, t);
    if t.len() > 0 {
        if model_contains(m, t) {
            lemma_set_keyed(m, t, f, t2);
        } else {
            lemma_set_keyed_absent(m, t, f);
        }
    }
}

/// A keyed update of a subtree that does not hold the key does nothing.
proof fn lemma_set_keyed_absent(m: WidgetModel, t: Seq<char>, f: spec_fn(WidgetModel) -> Option<WidgetModel>)
    requires
        !model_contains(m, t),
    ensures
        model_set_keyed(m, t, f) is None,
{
}

/// Replacing list items and tree nodes keeps keys.
pub proof fn lemma_updates_keep_keys(
    items: Seq<Seq<char>>,
    nodes: Seq<NodeModel>,
    item_keys: Seq<Seq<char>>,
)
    ensures
        keeps_keys(list_update(items, item_keys)),
        keeps_keys(tree_update(nodes, item_keys)),
{
}

/// Reading back a list write: `set_list_items_in_spec` succeeds exactly
/// when `find_widget_by_key` with the same key finds a `List`; afterwards
/// that lookup finds the same list with the new items and item keys (its
/// selection, scroll and key unchanged), and the tree holds the same keys.
pub proof fn law_set_list_items_read_back(
    m: WidgetModel,
    t: Seq<char>,
    items: Seq<Seq<char>>,
    item_keys: Seq<Seq<char>>,
    t2: Seq<char>,
)
    ensures
        (set_list_items(m, t, items, item_keys) is Some) == (find_widget(m, t) matches Some(w)
            && w is List),
        set_list_items(m, t, items, item_keys) matches Some(m2) ==> {
            &&& find_widget(m, t) matches Some(
                WidgetModel::List { selected_index, visible_rows, key, .. },
            )
            &&& find_widget(m2, t) == Some(
                WidgetModel::List { items, item_keys, selected_index, visible_rows, key },
            )
            &&& model_contains(m2, t2) == model_contains(m, t2)
            &&& t2 != t ==> find_widget(m2, t2) == find_widget(m, t2)
        },
{
    lemma_updates_keep_keys(items, Seq::empty(), item_keys);
    law_set_keyed_read_back(m, t, list_update(items, item_keys), t2);
}

/// Reading back a tree write: `set_tree_nodes_in_spec` succeeds exactly
/// when `find_widget_by_key` with the same key finds a `Tree`; afterwards
/// that lookup finds the same tree with the new nodes and item keys, its
/// selection, scroll and expanded keys untouched, and the tree holds the
/// same keys.
pub proof fn law_set_tree_nodes_read_back(
    m: WidgetModel,
    t: Seq<char>,
    nodes: Seq<NodeModel>,
    item_keys: Seq<Seq<char>>,
    t2: Seq<char>,
)
    ensures
        (set_tree_nodes(m, t, nodes, item_keys) is Some) == (find_widget(m, t) matches Some(w)
            && w is Tree),
        set_tree_nodes(m, t, nodes, item_keys) matches Some(m2) ==> {
            &&& find_widget(m, t) matches Some(
                WidgetModel::Tree { selected_index, visible_rows, expanded_keys, key, .. },
            )
            &&& find_widget(m2, t) == Some(
                WidgetModel::Tree {
                    nodes,
                    item_keys,
                    selected_index,
                    visible_rows,
                    expanded_keys,
                    key,
                },
            )
            &&& model_contains(m2, t2) == model_contains(m, t2)
            &&& t2 != t ==> find_widget(m2, t2) == find_widget(m, t2)
        },
{
    lemma_updates_keep_keys(Seq::empty(), nodes, item_keys);
    law_set_keyed_read_back(m, t, tree_update(nodes, item_keys), t2);
}

/// Sets `checked` on a `Toggle`; refuses any other widget.
pub open spec fn toggle_update(b: bool) -> spec_fn(WidgetModel) -> Option<WidgetModel> {
    |w: WidgetModel|
        match w {
            WidgetModel::Toggle { label, focused, key, .. } => Some(
                WidgetModel::Toggle { checked: b, label, focused, key },
            ),
            _ => None,
        }
}

/// A subtree that does not hold the key has no toggle to set.
proof fn lemma_set_toggle_absent(m: WidgetModel, t: Seq<char>, b: bool)
    requires
        !model_contains(m, t),
    ensures
        model_set_toggle(m, t, b) is None,
    decreases m,
{
    match m {
        WidgetModel::Row { children, .. } => lemma_children_set_toggle_absent(children, t, b),
        WidgetModel::Col { children, .. } => lemma_children_set_toggle_absent(children, t, b),
        _ => {},
    }
}

/// `lemma_set_toggle_absent` over a sequence of subtrees.
proof fn lemma_children_set_toggle_absent(cs: Seq<WidgetModel>, t: Seq<char>, b: bool)
    requires
        !children_contain(cs, t),
    ensures
        children_set_toggle(cs, t, b) is None,
    decreases cs,
{
    if cs.len() > 0 {
        lemma_children_set_toggle_absent(cs.drop_last(), t, b);
        lemma_set_toggle_absent(cs.last(), t, b);
    }
}

/// When the first widget keyed `t` is a toggle, setting the first toggle
/// keyed `t` is the keyed update of that widget.
proof fn lemma_set_toggle_first(m: WidgetModel, t: Seq<char>, b: bool)
    requires
        model_find(m, t) matches Some(w) && w is Toggle,
    ensures
        model_set_toggle(m, t, b) == model_set_keyed(m, t, toggle_update(b)),
    decreases m,
{
    lemma_find_contains(m, t);
    match m {
        WidgetModel::Row { children, .. } => lemma_children_set_toggle_first(children, t, b),
        WidgetModel::Col { children, .. } => lemma_children_set_toggle_first(children, t, b),
        _ => {},
    }
}

/// `lemma_set_toggle_first` over a sequence of subtrees.
proof fn lemma_children_set_toggle_first(cs: Seq<WidgetModel>, t: Seq<char>, b: bool)
    requires
        children_find(cs, t) matches Some(w) && w is Toggle,
    ensures
        children_set_toggle(cs, t, b) == children_set_keyed(cs, t, toggle_update(b)),
    decreases cs,
{
    let init = cs.drop_last();
    let last = cs.last();
    lemma_children_find_contains(init, t);
    lemma_children_find_contains(cs, t);
    if children_find(init, t) is Some {
        lemma_children_set_toggle_first(init, t, b);
        assert(keeps_keys(toggle_update(b)));
        lemma_children_set_keyed(init, t, toggle_update(b), t);
    } else {
        lemma_children_set_toggle_absent(init, t, b);
        lemma_find_contains(last, t);
        lemma_set_toggle_first(last, t, b);
    }
}

/// Setting a toggle keeps the keys the tree holds.
proof fn lemma_set_toggle_keeps_keys(m: WidgetModel, t: Seq<char>, b: bool, t2: Seq<char>)
    ensures
        model_set_toggle(m, t, b) matches Some(m2) ==> model_contains(m2, t2) == model_contains(
            m,
            t2,
        ) && (t2 != t ==> model_find(m2, t2) == model_find(m, t2)),
    decreases m,
{
    match m {
        WidgetModel::Row { children, .. } => lemma_children_set_toggle_keeps_keys(children, t, b, t2),
        WidgetModel::Col { children, .. } => lemma_children_set_toggle_keeps_keys(children, t, b, t2),
        _ => {},
    }
}

/// `lemma_set_toggle_keeps_keys` over a sequence of subtrees.
proof fn lemma_children_set_toggle_keeps_keys(
    cs: Seq<WidgetModel>,
    t: Seq<char>,
    b: bool,
    t2: Seq<char>,
)
    ensures
        children_set_toggle(cs, t, b) matches Some(n) ==> children_contain(n, t2)
            == children_contain(cs, t2) && (t2 != t ==> children_find(n, t2) == children_find(
            cs,
            t2,
        )),
    decreases cs,
{
    if cs.len() > 0 {
        let init = cs.drop_last();
        let last = cs.last();
        lemma_children_set_toggle_keeps_keys(init, t, b, t2);
        lemma_set_toggle_keeps_keys(last, t, b, t2);
        if let Some(n0) = children_set_toggle(init, t, b) {
            assert(n0.push(last).drop_last() =~= n0);
        } else if let Some(x) = model_set_toggle(last, t, b) {
            assert(init.push(x).drop_last() =~= init);
        }
    }
}

/// Reading back a toggle write: `set_toggle_checked_in_spec` fails when no
/// widget has the key; when `find_widget_by_key` with that key finds a
/// `Toggle`, the write succeeds and afterwards the lookup finds that toggle
/// with `checked` set (label, focus and key unchanged). A successful write
/// keeps every key the tree holds.
pub proof fn law_set_toggle_read_back(m: WidgetModel, t: Seq<char>, b: bool, t2: Seq<char>)
    ensures
        find_widget(m, t) is None ==> set_toggle_checked(m, t, b) is None,
        find_widget(m, t) matches Some(WidgetModel::Toggle { label, focused, key, .. }) ==> {
            &&& set_toggle_checked(m, t, b) matches Some(m2)
            &&& find_widget(m2, t) == Some(WidgetModel::Toggle { checked: b, label, focused, key })
        },
        set_toggle_checked(m, t, b) matches Some(m2) ==> model_contains(m2, t2) == model_contains(
            m,
            t2,
        ) && (t2 != t ==> find_widget(m2, t2) == find_widget(m, t2)),
{
    lemma_find_contains(m, t);
    lemma_set_toggle_keeps_keys(m, t, b, t2);
    if t.len() > 0 {
        if !model_contains(m, t) {
            lemma_set_toggle_absent(m, t, b);
        } else if model_find(m, t).unwrap() is Toggle {
            lemma_set_toggle_first(m, t, b);
            assert(keeps_keys(toggle_update(b)));
            lemma_set_keyed(m, t, toggle_update(b), t2);
        }
    }
}

/// Whether an optional key is present and equal to `t`.
pub open spec fn has_key(key: Option<String>, t: Seq<char>) -> bool {
    key is Some && key.unwrap()@ == t
}

/// A lookup or a containment test on a single widget: every interactive
/// kind (`Toggle`, `Button`, `TextInput`, `List`, `Tree`) is found by its
/// own non-empty key and by nothing else, and decoration is never found.
pub proof fn law_single_widget_lookup(w: WidgetSpec, t: Seq<char>)
    ensures
        match w {
            WidgetSpec::Toggle { key, .. } => {
                &&& find_widget(w@, t) == (if t.len() > 0 && has_key(key, t) {
                    Some(w@)
                } else {
                    None
                })
                &&& model_contains(w@, t) == has_key(key, t)
            },
            WidgetSpec::Button { key, .. } => {
                &&& find_widget(w@, t) == (if t.len() > 0 && has_key(key, t) {
                    Some(w@)
                } else {
                    None
                })
                &&& model_contains(w@, t) == has_key(key, t)
            },
            WidgetSpec::TextInput { key, .. } => {
                &&& find_widget(w@, t) == (if t.len() > 0 && has_key(key, t) {
                    Some(w@)
                } else {
                    None
                })
                &&& model_contains(w@, t) == has_key(key, t)
            },
            WidgetSpec::List { key, .. } => {
                &&& find_widget(w@, t) == (if t.len() > 0 && has_key(key, t) {
                    Some(w@)
                } else {
                    None
                })
                &&& model_contains(w@, t) == has_key(key, t)
            },
            WidgetSpec::Tree { key, .. } => {
                &&& find_widget(w@, t) == (if t.len() > 0 && has_key(key, t) {
                    Some(w@)
                } else {
                    None
                })
                &&& model_contains(w@, t) == has_key(key, t)
            },
            WidgetSpec::Raw { .. } => find_widget(w@, t) is None && !model_contains(w@, t),
            WidgetSpec::HintBar { .. } => find_widget(w@, t) is None && !model_contains(w@, t),
            WidgetSpec::Spacer { .. } => find_widget(w@, t) is None && !model_contains(w@, t),
            _ => true,
        },
{
}

/// No subtree of `cs` gives a match exactly when the sequence gives none.
proof fn lemma_children_find_none(cs: Seq<WidgetModel>, t: Seq<char>)
    ensures
        (children_find(cs, t) is None) == (forall|i: int|
            0 <= i < cs.len() ==> #[trigger] model_find(cs[i], t) is None),
        children_contain(cs, t) == (exists|i: int|
            0 <= i < cs.len() && #[trigger] model_contains(cs[i], t)),
    decreases cs.len(),
{
    if cs.len() > 0 {
        let init = cs.drop_last();
        lemma_children_find_none(init, t);
        assert forall|i: int| 0 <= i < init.len() implies init[i] == cs[i] by {}
        if children_contain(cs, t) {
            if children_contain(init, t) {
                let i = choose|i: int| 0 <= i < init.len() && #[trigger] model_contains(init[i], t);
                assert(model_contains(cs[i], t));
            } else {
                assert(model_contains(cs[cs.len() - 1], t));
            }
        }
        if children_find(cs, t) is Some && children_find(init, t) is Some {
            let i = choose|i: int| 0 <= i < init.len() && !(#[trigger] model_find(init[i], t) is None);
            assert(!(model_find(cs[i], t) is None));
        }
        if children_find(cs, t) is Some && children_find(init, t) is None {
            assert(!(model_find(cs[cs.len() - 1], t) is None));
        }
    }
}

/// The first subtree of `cs` that gives a match decides the match.
proof fn lemma_children_find_first(cs: Seq<WidgetModel>, t: Seq<char>, i: int)
    requires
        0 <= i < cs.len(),
        model_find(cs[i], t) is Some,
        forall|j: int| 0 <= j < i ==> #[trigger] model_find(cs[j], t) is None,
    ensures
        children_find(cs, t) == model_find(cs[i], t),
    decreases cs.len(),
{
    let init = cs.drop_last();
    if i < cs.len() - 1 {
        assert forall|j: int| 0 <= j < i implies #[trigger] model_find(init[j], t) is None by {
            assert(init[j] == cs[j]);
        }
        lemma_children_find_first(init, t, i);
    } else {
        lemma_children_find_none(init, t);
        assert forall|j: int| 0 <= j < init.len() implies #[trigger] model_find(init[j], t) is None by {
            assert(init[j] == cs[j]);
        }
    }
}

/// Containment over the models of some child widgets.
proof fn lemma_children_model_contain(cs: Seq<WidgetSpec>, t: Seq<char>)
    ensures
        children_contain(children_model(cs), t) == (exists|i: int|
            0 <= i < cs.len() && model_contains(#[trigger] cs[i]@, t)),
{
    let cm = children_model(cs);
    assert forall|i: int| 0 <= i < cs.len() implies #[trigger] cm[i] == cs[i]@ by {}
    lemma_children_find_none(cm, t);
    if children_contain(cm, t) {
        let i = choose|i: int| 0 <= i < cm.len() && #[trigger] model_contains(cm[i], t);
        assert(model_contains(cs[i]@, t));
    }
    if exists|i: int| 0 <= i < cs.len() && model_contains(#[trigger] cs[i]@, t) {
        let i = choose|i: int| 0 <= i < cs.len() && model_contains(#[trigger] cs[i]@, t);
        assert(model_contains(cm[i], t));
    }
}

/// A lookup over the models of some child widgets finds nothing exactly
/// when each child's lookup finds nothing.
proof fn lemma_children_model_find_none(cs: Seq<WidgetSpec>, t: Seq<char>)
    ensures
        (children_find(children_model(cs), t) is None) == (forall|i: int|
            0 <= i < cs.len() ==> model_find(#[trigger] cs[i]@, t) is None),
{
    let cm = children_model(cs);
    assert forall|i: int| 0 <= i < cs.len() implies #[trigger] cm[i] == cs[i]@ by {}
    lemma_children_find_none(cm, t);
    if forall|i: int| 0 <= i < cs.len() ==> model_find(#[trigger] cs[i]@, t) is None {
        assert forall|i: int| 0 <= i < cm.len() implies #[trigger] model_find(cm[i], t) is None by {
            assert(model_find(cs[i]@, t) is None);
        }
    }
    if children_find(cm, t) is None {
        assert forall|i: int| 0 <= i < cs.len() implies model_find(#[trigger] cs[i]@, t) is None by {
            assert(model_find(cm[i], t) is None);
        }
    }
}

/// A lookup over the models of some child widgets gives the lookup of the
/// first child in which it succeeds.
proof fn lemma_children_model_find_first(cs: Seq<WidgetSpec>, t: Seq<char>, i: int)
    requires
        0 <= i < cs.len(),
        model_find(cs[i]@, t) is Some,
        forall|j: int| 0 <= j < i ==> model_find(#[trigger] cs[j]@, t) is None,
    ensures
        children_find(children_model(cs), t) == model_find(cs[i]@, t),
{
    let cm = children_model(cs);
    assert forall|j: int| 0 <= j < cs.len() implies #[trigger] cm[j] == cs[j]@ by {}
    assert forall|j: int| 0 <= j < i implies #[trigger] model_find(cm[j], t) is None by {
        assert(model_find(cs[j]@, t) is None);
    }
    lemma_children_find_first(cm, t, i);
}

/// The children of a container, as widgets.
pub open spec fn container_children(w: WidgetSpec) -> Seq<WidgetSpec> {
    match w {
        WidgetSpec::Row { children, .. } => children@,
        WidgetSpec::Col { children, .. } => children@,
        _ => Seq::empty(),
    }
}

/// A lookup or a containment test on a container (`Row` or `Col`, whose
/// own key plays no part): it contains the key exactly when some child
/// does, and a lookup gives the lookup of the first child in which it
/// succeeds, or nothing when it succeeds in none.
pub proof fn law_container_lookup(w: WidgetSpec, t: Seq<char>)
    requires
        w is Row || w is Col,
    ensures
        model_contains(w@, t) == (exists|i: int|
            0 <= i < container_children(w).len() && model_contains(
                #[trigger] container_children(w)[i]@,
                t,
            )),
        (find_widget(w@, t) is None) == (forall|i: int|
            0 <= i < container_children(w).len() ==> find_widget(
                #[trigger] container_children(w)[i]@,
                t,
            ) is None),
        forall|i: int|
            0 <= i < container_children(w).len() && find_widget(
                #[trigger] container_children(w)[i]@,
                t,
            ) is Some && (forall|j: int|
                0 <= j < i ==> find_widget(container_children(w)[j]@, t) is None) ==> find_widget(
                w@,
                t,
            ) == find_widget(container_children(w)[i]@, t),
{
    let cs = container_children(w);
    assert(w@ == (match w {
        WidgetSpec::Row { key, .. } => WidgetModel::Row {
            children: children_model(cs),
            key: key_view(key),
        },
        WidgetSpec::Col { key, .. } => WidgetModel::Col {
            children: children_model(cs),
            key: key_view(key),
        },
        _ => w@,
    }));
    lemma_children_model_contain(cs, t);
    lemma_children_model_find_none(cs, t);
    assert forall|i: int|
        0 <= i < cs.len() && find_widget(#[trigger] cs[i]@, t) is Some && (forall|j: int|
            0 <= j < i ==> find_widget(cs[j]@, t) is None) implies find_widget(w@, t)
        == find_widget(cs[i]@, t) by {
        assert forall|j: int| 0 <= j < i implies model_find(#[trigger] cs[j]@, t) is None by {
            assert(find_widget(cs[j]@, t) is None);
        }
        lemma_children_model_find_first(cs, t, i);
    }
}
/// The first `Toggle` keyed `t`, in depth-first order through `Row` and
/// `Col` children (other widgets with that key are passed over).
pub open spec fn first_toggle(m: WidgetModel, t: Seq<char>) -> Option<WidgetModel>
    decreases m,
{
    match m {
        WidgetModel::Row { children, .. } => children_first_toggle(children, t),
        WidgetModel::Col { children, .. } => children_first_toggle(children, t),
        WidgetModel::Toggle { key, .. } => if key == Some(t) {
            Some(m)
        } else {
            None
        },
        _ => None,
    }
}

/// The first `Toggle` keyed `t` among the subtrees `cs`.
pub open spec fn children_first_toggle(cs: Seq<WidgetModel>, t: Seq<char>) -> Option<WidgetModel>
    decreases cs,
{
    if cs.len() == 0 {
        None
    } else {
        let r = children_first_toggle(cs.drop_last(), t);
        if r is Some {
            r
        } else {
            first_toggle(cs.last(), t)
        }
    }
}

/// Setting a toggle acts on the first toggle with the key.
proof fn lemma_set_toggle_first_toggle(m: WidgetModel, t: Seq<char>, b: bool)
    ensures
        (model_set_toggle(m, t, b) is Some) == (first_toggle(m, t) is Some),
        model_set_toggle(m, t, b) matches Some(m2) ==> first_toggle(m2, t) == toggle_update(b)(
            first_toggle(m, t).unwrap(),
        ),
    decreases m,
{
    match m {
        WidgetModel::Row { children, .. } => lemma_children_set_toggle_first_toggle(children, t, b),
        WidgetModel::Col { children, .. } => lemma_children_set_toggle_first_toggle(children, t, b),
        _ => {},
    }
}

/// `lemma_set_toggle_first_toggle` over a sequence of subtrees.
proof fn lemma_children_set_toggle_first_toggle(cs: Seq<WidgetModel>, t: Seq<char>, b: bool)
    ensures
        (children_set_toggle(cs, t, b) is Some) == (children_first_toggle(cs, t) is Some),
        children_set_toggle(cs, t, b) matches Some(n) ==> children_first_toggle(n, t)
            == toggle_update(b)(children_first_toggle(cs, t).unwrap()),
    decreases cs,
{
    if cs.len() > 0 {
        let init = cs.drop_last();
        let last = cs.last();
        lemma_children_set_toggle_first_toggle(init, t, b);
        lemma_set_toggle_first_toggle(last, t, b);
        lemma_children_first_toggle_is_toggle(init, t);
        lemma_first_toggle_is_toggle(last, t);
        if let Some(n0) = children_set_toggle(init, t, b) {
            assert(n0.push(last).drop_last() =~= n0);
        } else if let Some(x) = model_set_toggle(last, t, b) {
            assert(init.push(x).drop_last() =~= init);
        }
    }
}

/// Setting a toggle by key succeeds exactly when the key is non-empty and
/// the tree holds a `Toggle` with that key (even behind other widgets with
/// the same key); afterwards the first such toggle has `checked` set, its
/// label, focus and key unchanged.
pub proof fn law_set_toggle_acts_on_first_toggle(m: WidgetModel, t: Seq<char>, b: bool)
    ensures
        (set_toggle_checked(m, t, b) is Some) == (t.len() > 0 && first_toggle(m, t) is Some),
        set_toggle_checked(m, t, b) matches Some(m2) ==> {
            &&& first_toggle(m, t) matches Some(WidgetModel::Toggle { label, focused, key, .. })
            &&& first_toggle(m2, t) == Some(WidgetModel::Toggle { checked: b, label, focused, key })
        },
{
    lemma_set_toggle_first_toggle(m, t, b);
    lemma_first_toggle_is_toggle(m, t);
}

/// What `first_toggle` gives is a toggle.
proof fn lemma_first_toggle_is_toggle(m: WidgetModel, t: Seq<char>)
    ensures
        first_toggle(m, t) matches Some(w) ==> w is Toggle,
    decreases m,
{
    match m {
        WidgetModel::Row { children, .. } => lemma_children_first_toggle_is_toggle(children, t),
        WidgetModel::Col { children, .. } => lemma_children_first_toggle_is_toggle(children, t),
        _ => {},
    }
}

/// `lemma_first_toggle_is_toggle` over a sequence of subtrees.
proof fn lemma_children_first_toggle_is_toggle(cs: Seq<WidgetModel>, t: Seq<char>)
    ensures
        children_first_toggle(cs, t) matches Some(w) ==> w is Toggle,
    decreases cs,
{
    if cs.len() > 0 {
        lemma_children_first_toggle_is_toggle(cs.drop_last(), t);
        lemma_first_toggle_is_toggle(cs.last(), t);
    }
}

} // verus!
