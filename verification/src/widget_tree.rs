use vstd::prelude::*;

use crate::text::str_equal;
use crate::widget::{
    children_model, entries_view, key_view, nodes_view, strings_view, widget_model, NodeModel,
    TextPropertyEntry, TreeNode, WidgetModel, WidgetSpec,
};

verus! {

/// The key by which an interactive widget is addressed; containers and
/// decoration have none.
pub open spec fn model_key(m: WidgetModel) -> Option<Seq<char>> {
    match m {
        WidgetModel::Toggle { key, .. } => key,
        WidgetModel::Button { key, .. } => key,
        WidgetModel::TextInput { key, .. } => key,
        WidgetModel::List { key, .. } => key,
        WidgetModel::Tree { key, .. } => key,
        _ => None,
    }
}

/// Whether the subtree holds an interactive widget keyed `t`.
pub open spec fn model_contains(m: WidgetModel, t: Seq<char>) -> bool
    decreases m,
{
    match m {
        WidgetModel::Row { children, .. } => children_contain(children, t),
        WidgetModel::Col { children, .. } => children_contain(children, t),
        _ => model_key(m) == Some(t),
    }
}

/// Whether some widget of `cs` holds an interactive widget keyed `t`.
pub open spec fn children_contain(cs: Seq<WidgetModel>, t: Seq<char>) -> bool
    decreases cs,
{
    if cs.len() == 0 {
        false
    } else {
        children_contain(cs.drop_last(), t) || model_contains(cs.last(), t)
    }
}

/// The first interactive widget keyed `t`, in depth-first order.
pub open spec fn model_find(m: WidgetModel, t: Seq<char>) -> Option<WidgetModel>
    decreases m,
{
    match m {
        WidgetModel::Row { children, .. } => children_find(children, t),
        WidgetModel::Col { children, .. } => children_find(children, t),
        _ => if model_key(m) == Some(t) {
            Some(m)
        } else {
            None
        },
    }
}

/// The first interactive widget keyed `t` among the subtrees `cs`.
pub open spec fn children_find(cs: Seq<WidgetModel>, t: Seq<char>) -> Option<WidgetModel>
    decreases cs,
{
    if cs.len() == 0 {
        None
    } else {
        let r = children_find(cs.drop_last(), t);
        if r is Some {
            r
        } else {
            model_find(cs.last(), t)
        }
    }
}

/// What a lookup by key gives: nothing for the empty key, else the first
/// interactive widget keyed `t` in depth-first order.
pub open spec fn find_widget(m: WidgetModel, t: Seq<char>) -> Option<WidgetModel> {
    if t.len() == 0 {
        None
    } else {
        model_find(m, t)
    }
}

/// `children_model` at one index.
proof fn lemma_children_model_index(cs: Seq<WidgetSpec>, i: int)
    requires
        0 <= i < cs.len(),
    ensures
        children_model(cs).len() == cs.len(),
        children_model(cs)[i] == widget_model(cs[i]),
{
}

/// Whether `key` is present and equal to `t`.
fn key_matches(key: &Option<String>, t: &str) -> (r: bool)
    ensures
        r == (key_view(*key) == Some(t@)),
{
    match key {
        Some(k) => str_equal(k.as_str(), t),
        None => false,
    }
}

/// The key of an interactive widget.
fn interactive_key_of(w: &WidgetSpec) -> (r: &Option<String>)
    ensures
        model_key(w@) == key_view(*r),
{
    match w {
        WidgetSpec::Toggle { key, .. } => key,
        WidgetSpec::Button { key, .. } => key,
        WidgetSpec::TextInput { key, .. } => key,
        WidgetSpec::List { key, .. } => key,
        WidgetSpec::Tree { key, .. } => key,
        _ => &None,
    }
}

impl WidgetSpec {
    /// Whether this subtree holds an interactive widget (of any kind) whose
    /// key is `widget_key`.
    #[verifier::loop_isolation(false)]
    pub fn contains_key(&self, widget_key: &str) -> (r: bool)
        ensures
            r == model_contains(self@, widget_key@),
        decreases self,
    {
        match self {
            WidgetSpec::Row { children, .. } | WidgetSpec::Col { children, .. } => {
                let ghost cm = children_model(children@);
                let mut i: usize = 0;
                while i < children.len()
                    invariant
                        i <= children@.len(),
                        cm == children_model(children@),
                        !children_contain(cm.take(i as int), widget_key@),
                    decreases children@.len() - i,
                {
                    proof {
                        lemma_children_model_index(children@, i as int);
                        assert(cm.take(i + 1).drop_last() =~= cm.take(i as int));
                    }
                    if children[i].contains_key(widget_key) {
                        proof {
                            lemma_children_contain_prefix(cm, i as int + 1, widget_key@);
                        }
                        return true;
                    }
                    i = i + 1;
                }
                proof {
                    assert(cm.take(i as int) =~= cm);
                }
                false
            },
            _ => {
                let k = interactive_key_of(self);
                key_matches(k, widget_key)
            },
        }
    }
}

/// A prefix that contains `t` makes the whole sequence contain it.
proof fn lemma_children_contain_prefix(cs: Seq<WidgetModel>, k: int, t: Seq<char>)
    requires
        0 <= k <= cs.len(),
        children_contain(cs.take(k), t),
    ensures
        children_contain(cs, t),
    decreases cs.len() - k,
{
    if k == cs.len() {
        assert(cs.take(k) =~= cs);
    } else {
        assert(cs.take(k + 1).drop_last() =~= cs.take(k));
        lemma_children_contain_prefix(cs, k + 1, t);
    }
}

/// A prefix in which `t` is found fixes what is found in the whole sequence.
proof fn lemma_children_find_prefix(cs: Seq<WidgetModel>, k: int, t: Seq<char>)
    requires
        0 <= k <= cs.len(),
        children_find(cs.take(k), t) is Some,
    ensures
        children_find(cs, t) == children_find(cs.take(k), t),
    decreases cs.len() - k,
{
    if k == cs.len() {
        assert(cs.take(k) =~= cs);
    } else {
        assert(cs.take(k + 1).drop_last() =~= cs.take(k));
        lemma_children_find_prefix(cs, k + 1, t);
    }
}

/// Locates a widget node in a spec tree by its stable `key`: the first
/// interactive widget (in depth-first order, through `Row` and `Col`
/// children) whose key is `target`, or `None` when there is none or
/// `target` is empty.
#[verifier::loop_isolation(false)]
pub fn find_widget_by_key<'a>(spec: &'a WidgetSpec, target: &str) -> (r: Option<&'a WidgetSpec>)
    ensures
        match r {
            Some(w) => find_widget(spec@, target@) == Some(w@),
            None => find_widget(spec@, target@) is None,
        },
    decreases spec,
{
    if target.is_empty() {
        return None;
    }
    match spec {
        WidgetSpec::Row { children, .. } | WidgetSpec::Col { children, .. } => {
            let ghost cm = children_model(children@);
            let mut i: usize = 0;
            while i < children.len()
                invariant
                    i <= children@.len(),
                    cm == children_model(children@),
                    children_find(cm.take(i as int), target@) is None,
                decreases children@.len() - i,
            {
                proof {
                    lemma_children_model_index(children@, i as int);
                    assert(cm.take(i + 1).drop_last() =~= cm.take(i as int));
                }
                if let Some(found) = find_widget_by_key(&children[i], target) {
                    proof {
                        lemma_children_find_prefix(cm, i as int + 1, target@);
                    }
                    return Some(found);
                }
                i = i + 1;
            }
            proof {
                assert(cm.take(i as int) =~= cm);
            }
            None
        },
        _ => {
            if key_matches(interactive_key_of(spec), target) {
                Some(spec)
            } else {
                None
            }
        },
    }
}

/// The tree after setting `checked` to `b` on the first `Toggle` keyed `t`
/// (depth-first), or `None` when there is no such toggle.
pub open spec fn model_set_toggle(m: WidgetModel, t: Seq<char>, b: bool) -> Option<WidgetModel>
    decreases m,
{
    match m {
        WidgetModel::Row { children, key } => match children_set_toggle(children, t, b) {
            Some(n) => Some(WidgetModel::Row { children: n, key }),
            None => None,
        },
        WidgetModel::Col { children, key } => match children_set_toggle(children, t, b) {
            Some(n) => Some(WidgetModel::Col { children: n, key }),
            None => None,
        },
        WidgetModel::Toggle { checked, label, focused, key } => if key == Some(t) {
            Some(WidgetModel::Toggle { checked: b, label, focused, key })
        } else {
            None
        },
        _ => None,
    }
}

/// `model_set_toggle` applied to the first subtree of `cs` that holds a
/// `Toggle` keyed `t`.
pub open spec fn children_set_toggle(cs: Seq<WidgetModel>, t: Seq<char>, b: bool) -> Option<
    Seq<WidgetModel>,
>
    decreases cs,
{
    if cs.len() == 0 {
        None
    } else {
        match children_set_toggle(cs.drop_last(), t, b) {
            Some(n) => Some(n.push(cs.last())),
            None => match model_set_toggle(cs.last(), t, b) {
                Some(x) => Some(cs.drop_last().push(x)),
                None => None,
            },
        }
    }
}

/// What setting a toggle by key gives: nothing for the empty key, else
/// `model_set_toggle`.
pub open spec fn set_toggle_checked(m: WidgetModel, t: Seq<char>, b: bool) -> Option<WidgetModel> {
    if t.len() == 0 {
        None
    } else {
        model_set_toggle(m, t, b)
    }
}

/// The new tree when an update happened, else the old one.
pub open spec fn updated_or(r: Option<WidgetModel>, old: WidgetModel) -> WidgetModel {
    match r {
        Some(n) => n,
        None => old,
    }
}

/// A prefix in which the toggle is set fixes the result for the whole sequence.
proof fn lemma_children_set_toggle_prefix(cs: Seq<WidgetModel>, k: int, t: Seq<char>, b: bool)
    requires
        0 <= k <= cs.len(),
        children_set_toggle(cs.take(k), t, b) is Some,
    ensures
        children_set_toggle(cs, t, b) == Some(
            children_set_toggle(cs.take(k), t, b).unwrap() + cs.skip(k),
        ),
    decreases cs.len() - k,
{
    if k == cs.len() {
        assert(cs.take(k) =~= cs);
        assert(children_set_toggle(cs.take(k), t, b).unwrap() + cs.skip(k)
            =~= children_set_toggle(cs.take(k), t, b).unwrap());
    } else {
        assert(cs.take(k + 1).drop_last() =~= cs.take(k));
        assert(cs.take(k + 1).last() == cs[k]);
        lemma_children_set_toggle_prefix(cs, k + 1, t, b);
        assert(children_set_toggle(cs.take(k), t, b).unwrap().push(cs[k]) + cs.skip(k + 1)
            =~= children_set_toggle(cs.take(k), t, b).unwrap() + cs.skip(k));
    }
}

/// `set_toggle_checked_in_spec` over the children of a container.
#[verifier::loop_isolation(false)]
fn set_toggle_in_children(children: &mut Vec<WidgetSpec>, widget_key: &str, new_checked: bool) -> (r:
    bool)
    requires
        widget_key@.len() > 0,
    ensures
        r == (children_set_toggle(children_model(old(children)@), widget_key@, new_checked) is Some),
        children_model(final(children)@) == match children_set_toggle(
            children_model(old(children)@),
            widget_key@,
            new_checked,
        ) {
            Some(n) => n,
            None => children_model(old(children)@),
        },
    decreases *old(children),
{
    let ghost om = children_model(children@);
    let ghost ov = children@;
    let n = children.len();
    let mut i: usize = 0;
    while i < n
        invariant
            n == children@.len(),
            n == ov.len(),
            i <= n,
            om == children_model(ov),
            ov == old(children)@,
            forall|j: int| i <= j < n ==> children@[j] == ov[j],
            forall|j: int| 0 <= j < i ==> widget_model(children@[j]) == widget_model(ov[j]),
            children_set_toggle(om.take(i as int), widget_key@, new_checked) is None,
        decreases n - i,
    {
        proof {
            lemma_children_model_index(ov, i as int);
            assert(om.take(i + 1).drop_last() =~= om.take(i as int));
            assert(om.take(i + 1).last() == om[i as int]);
        }
        let ghost before = children@;
        let found = set_toggle_checked_in_spec(&mut children[i], widget_key, new_checked);
        if found {
            proof {
                lemma_children_set_toggle_prefix(om, i as int + 1, widget_key@, new_checked);
                let x = model_set_toggle(om[i as int], widget_key@, new_checked).unwrap();
                assert(children_set_toggle(om.take(i + 1), widget_key@, new_checked).unwrap()
                    =~= om.take(i as int).push(x));
                assert forall|j: int| 0 <= j < n implies #[trigger] children_model(children@)[j]
                    == (om.take(i as int).push(x) + om.skip(i + 1))[j] by {
                    lemma_children_model_index(children@, j);
                    lemma_children_model_index(ov, j);
                }
                assert(children_model(children@) =~= om.take(i as int).push(x) + om.skip(i + 1));
            }
            return true;
        }
        i = i + 1;
    }
    proof {
        assert(om.take(i as int) =~= om);
        assert forall|j: int| 0 <= j < n implies #[trigger] children_model(children@)[j] == om[j] by {
            lemma_children_model_index(children@, j);
            lemma_children_model_index(ov, j);
        }
        assert(children_model(children@) =~= om);
    }
    false
}

/// In-place sets the `checked` field of the first `Toggle` (depth-first,
/// through `Row` and `Col` children) whose key is `widget_key`. Returns
/// true when such a toggle was found and updated; the empty key matches
/// nothing.
pub fn set_toggle_checked_in_spec(spec: &mut WidgetSpec, widget_key: &str, new_checked: bool) -> (r:
    bool)
    ensures
        r == (set_toggle_checked(old(spec)@, widget_key@, new_checked) is Some),
        final(spec)@ == updated_or(
            set_toggle_checked(old(spec)@, widget_key@, new_checked),
            old(spec)@,
        ),
    decreases *old(spec),
{
    if widget_key.is_empty() {
        return false;
    }
    match spec {
        WidgetSpec::Row { children, .. } => set_toggle_in_children(children, widget_key, new_checked),
        WidgetSpec::Col { children, .. } => set_toggle_in_children(children, widget_key, new_checked),
        WidgetSpec::Toggle { checked, key, .. } => {
            if key_matches(key, widget_key) {
                *checked = new_checked;
                true
            } else {
                false
            }
        },
        _ => false,
    }
}

/// The tree after applying `f` to the widget reached by following, at each
/// container, the first child that holds an interactive widget keyed `t`;
/// `None` when that path ends in no widget keyed `t` or `f` refuses it.
pub open spec fn model_set_keyed(
    m: WidgetModel,
    t: Seq<char>,
    f: spec_fn(WidgetModel) -> Option<WidgetModel>,
) -> Option<WidgetModel>
    decreases m,
{
    match m {
        WidgetModel::Row { children, key } => match children_set_keyed(children, t, f) {
            Some(n) => Some(WidgetModel::Row { children: n, key }),
            None => None,
        },
        WidgetModel::Col { children, key } => match children_set_keyed(children, t, f) {
            Some(n) => Some(WidgetModel::Col { children: n, key }),
            None => None,
        },
        _ => if model_key(m) == Some(t) {
            f(m)
        } else {
            None
        },
    }
}

/// `model_set_keyed` applied to the first subtree of `cs` that holds an
/// interactive widget keyed `t`.
pub open spec fn children_set_keyed(
    cs: Seq<WidgetModel>,
    t: Seq<char>,
    f: spec_fn(WidgetModel) -> Option<WidgetModel>,
) -> Option<Seq<WidgetModel>>
    decreases cs,
{
    if cs.len() == 0 {
        None
    } else if children_contain(cs.drop_last(), t) {
        match children_set_keyed(cs.drop_last(), t, f) {
            Some(n) => Some(n.push(cs.last())),
            None => None,
        }
    } else if model_contains(cs.last(), t) {
        match model_set_keyed(cs.last(), t, f) {
            Some(x) => Some(cs.drop_last().push(x)),
            None => None,
        }
    } else {
        None
    }
}

/// Replaces the items and item keys of a `List`; refuses any other widget.
pub open spec fn list_update(items: Seq<Seq<char>>, item_keys: Seq<Seq<char>>) -> spec_fn(
    WidgetModel,
) -> Option<WidgetModel> {
    |w: WidgetModel|
        match w {
            WidgetModel::List { selected_index, visible_rows, key, .. } => Some(
                WidgetModel::List { items, item_keys, selected_index, visible_rows, key },
            ),
            _ => None,
        }
}

/// Replaces the nodes and item keys of a `Tree`, keeping its selection,
/// scroll and expanded keys; refuses any other widget.
pub open spec fn tree_update(nodes: Seq<NodeModel>, item_keys: Seq<Seq<char>>) -> spec_fn(
    WidgetModel,
) -> Option<WidgetModel> {
    |w: WidgetModel|
        match w {
            WidgetModel::Tree { selected_index, visible_rows, expanded_keys, key, .. } => Some(
                WidgetModel::Tree {
                    nodes,
                    item_keys,
                    selected_index,
                    visible_rows,
                    expanded_keys,
                    key,
                },
            ),
            _ => None,
        }
}

/// What replacing a list's items by key gives: nothing for the empty key.
pub open spec fn set_list_items(
    m: WidgetModel,
    t: Seq<char>,
    items: Seq<Seq<char>>,
    item_keys: Seq<Seq<char>>,
) -> Option<WidgetModel> {
    if t.len() == 0 {
        None
    } else {
        model_set_keyed(m, t, list_update(items, item_keys))
    }
}

/// What replacing a tree's nodes by key gives: nothing for the empty key.
pub open spec fn set_tree_nodes(
    m: WidgetModel,
    t: Seq<char>,
    nodes: Seq<NodeModel>,
    item_keys: Seq<Seq<char>>,
) -> Option<WidgetModel> {
    if t.len() == 0 {
        None
    } else {
        model_set_keyed(m, t, tree_update(nodes, item_keys))
    }
}

/// Once a prefix holds the key, the result for the whole sequence is that
/// of the prefix, followed by the rest unchanged.
proof fn lemma_children_set_keyed_prefix(
    cs: Seq<WidgetModel>,
    k: int,
    t: Seq<char>,
    f: spec_fn(WidgetModel) -> Option<WidgetModel>,
)
    requires
        0 <= k <= cs.len(),
        children_contain(cs.take(k), t),
    ensures
        children_set_keyed(cs, t, f) == match children_set_keyed(cs.take(k), t, f) {
            Some(n) => Some(n + cs.skip(k)),
            None => None,
        },
    decreases cs.len() - k,
{
    if k == cs.len() {
        assert(cs.take(k) =~= cs);
        if let Some(n) = children_set_keyed(cs.take(k), t, f) {
            assert(n + cs.skip(k) =~= n);
        }
    } else {
        assert(cs.take(k + 1).drop_last() =~= cs.take(k));
        assert(cs.take(k + 1).last() == cs[k]);
        lemma_children_set_keyed_prefix(cs, k + 1, t, f);
        if let Some(n) = children_set_keyed(cs.take(k), t, f) {
            assert(n.push(cs[k]) + cs.skip(k + 1) =~= n + cs.skip(k));
        }
    }
}

/// The first child that holds the key decides the result for the sequence.
proof fn lemma_children_set_keyed_at(
    cs: Seq<WidgetModel>,
    i: int,
    t: Seq<char>,
    f: spec_fn(WidgetModel) -> Option<WidgetModel>,
)
    requires
        0 <= i < cs.len(),
        !children_contain(cs.take(i), t),
        model_contains(cs[i], t),
    ensures
        children_set_keyed(cs, t, f) == match model_set_keyed(cs[i], t, f) {
            Some(x) => Some(cs.update(i, x)),
            None => None,
        },
{
    assert(cs.take(i + 1).drop_last() =~= cs.take(i));
    assert(cs.take(i + 1).last() == cs[i]);
    assert(children_contain(cs.take(i + 1), t));
    lemma_children_set_keyed_prefix(cs, i + 1, t, f);
    if let Some(x) = model_set_keyed(cs[i], t, f) {
        assert(cs.take(i).push(x) + cs.skip(i + 1) =~= cs.update(i, x));
    }
}

/// `set_list_items_in_spec` over the children of a container.
#[verifier::loop_isolation(false)]
fn set_list_in_children(
    children: &mut Vec<WidgetSpec>,
    widget_key: &str,
    new_items: Vec<TextPropertyEntry>,
    new_item_keys: Vec<String>,
) -> (r: bool)
    requires
        widget_key@.len() > 0,
    ensures
        ({
            let res = children_set_keyed(
                children_model(old(children)@),
                widget_key@,
                list_update(entries_view(new_items@), strings_view(new_item_keys@)),
            );
            &&& r == res is Some
            &&& children_model(final(children)@) == match res {
                Some(n) => n,
                None => children_model(old(children)@),
            }
        }),
    decreases *old(children),
{
    let ghost om = children_model(children@);
    let ghost f = list_update(entries_view(new_items@), strings_view(new_item_keys@));
    let n = children.len();
    let mut i: usize = 0;
    while i < n
        invariant
            n == children@.len(),
            i <= n,
            om == children_model(children@),
            children@ == old(children)@,
            !children_contain(om.take(i as int), widget_key@),
        decreases n - i,
    {
        proof {
            lemma_children_model_index(children@, i as int);
            assert(om.take(i + 1).drop_last() =~= om.take(i as int));
            assert(om.take(i + 1).last() == om[i as int]);
        }
        if children[i].contains_key(widget_key) {
            let ghost ov = children@;
            let found = set_list_items_in_spec(&mut children[i], widget_key, new_items, new_item_keys);
            proof {
                lemma_children_set_keyed_at(om, i as int, widget_key@, f);
                assert forall|j: int| 0 <= j < n implies #[trigger] children_model(children@)[j]
                    == (if found {
                    om.update(i as int, model_set_keyed(om[i as int], widget_key@, f).unwrap())
                } else {
                    om
                })[j] by {
                    lemma_children_model_index(children@, j);
                    lemma_children_model_index(ov, j);
                }
                if found {
                    assert(children_model(children@) =~= om.update(
                        i as int,
                        model_set_keyed(om[i as int], widget_key@, f).unwrap(),
                    ));
                } else {
                    assert(children_model(children@) =~= om);
                }
            }
            return found;
        }
        i = i + 1;
    }
    proof {
        assert(om.take(i as int) =~= om);
    }
    false
}

/// In-place replaces the `items` and `item_keys` of a `List`. At each
/// container the search follows only the first child that holds any
/// interactive widget keyed `widget_key`. Returns true when a matching
/// `List` was found and updated; the empty key matches nothing.
pub fn set_list_items_in_spec(
    spec: &mut WidgetSpec,
    widget_key: &str,
    new_items: Vec<TextPropertyEntry>,
    new_item_keys: Vec<String>,
) -> (r: bool)
    ensures
        ({
            let res = set_list_items(
                old(spec)@,
                widget_key@,
                entries_view(new_items@),
                strings_view(new_item_keys@),
            );
            &&& r == res is Some
            &&& final(spec)@ == updated_or(res, old(spec)@)
        }),
    decreases *old(spec),
{
    if widget_key.is_empty() {
        return false;
    }
    match spec {
        WidgetSpec::Row { children, .. } => set_list_in_children(
            children,
            widget_key,
            new_items,
            new_item_keys,
        ),
        WidgetSpec::Col { children, .. } => set_list_in_children(
            children,
            widget_key,
            new_items,
            new_item_keys,
        ),
        WidgetSpec::List { items, item_keys, key, .. } => {
            if key_matches(key, widget_key) {
                *items = new_items;
                *item_keys = new_item_keys;
                true
            } else {
                false
            }
        },
        _ => false,
    }
}

/// `set_tree_nodes_in_spec` over the children of a container.
#[verifier::loop_isolation(false)]
fn set_tree_in_children(
    children: &mut Vec<WidgetSpec>,
    widget_key: &str,
    new_nodes: Vec<TreeNode>,
    new_item_keys: Vec<String>,
) -> (r: bool)
    requires
        widget_key@.len() > 0,
    ensures
        ({
            let res = children_set_keyed(
                children_model(old(children)@),
                widget_key@,
                tree_update(nodes_view(new_nodes@), strings_view(new_item_keys@)),
            );
            &&& r == res is Some
            &&& children_model(final(children)@) == match res {
                Some(n) => n,
                None => children_model(old(children)@),
            }
        }),
    decreases *old(children),
{
    let ghost om = children_model(children@);
    let ghost f = tree_update(nodes_view(new_nodes@), strings_view(new_item_keys@));
    let n = children.len();
    let mut i: usize = 0;
    while i < n
        invariant
            n == children@.len(),
            i <= n,
            om == children_model(children@),
            children@ == old(children)@,
            !children_contain(om.take(i as int), widget_key@),
        decreases n - i,
    {
        proof {
            lemma_children_model_index(children@, i as int);
            assert(om.take(i + 1).drop_last() =~= om.take(i as int));
            assert(om.take(i + 1).last() == om[i as int]);
        }
        if children[i].contains_key(widget_key) {
            let ghost ov = children@;
            let found = set_tree_nodes_in_spec(&mut children[i], widget_key, new_nodes, new_item_keys);
            proof {
                lemma_children_set_keyed_at(om, i as int, widget_key@, f);
                assert forall|j: int| 0 <= j < n implies #[trigger] children_model(children@)[j]
                    == (if found {
                    om.update(i as int, model_set_keyed(om[i as int], widget_key@, f).unwrap())
                } else {
                    om
                })[j] by {
                    lemma_children_model_index(children@, j);
                    lemma_children_model_index(ov, j);
                }
                if found {
                    assert(children_model(children@) =~= om.update(
                        i as int,
                        model_set_keyed(om[i as int], widget_key@, f).unwrap(),
                    ));
                } else {
                    assert(children_model(children@) =~= om);
                }
            }
            return found;
        }
        i = i + 1;
    }
    proof {
        assert(om.take(i as int) =~= om);
    }
    false
}

/// In-place replaces the `nodes` and `item_keys` of a `Tree`, leaving its
/// selection, scroll and expanded keys alone. At each container the search
/// follows only the first child that holds any interactive widget keyed
/// `widget_key`. Returns true when a matching `Tree` was found and
/// updated; the empty key matches nothing.
pub fn set_tree_nodes_in_spec(
    spec: &mut WidgetSpec,
    widget_key: &str,
    new_nodes: Vec<TreeNode>,
    new_item_keys: Vec<String>,
) -> (r: bool)
    ensures
        ({
            let res = set_tree_nodes(
                old(spec)@,
                widget_key@,
                nodes_view(new_nodes@),
                strings_view(new_item_keys@),
            );
            &&& r == res is Some
            &&& final(spec)@ == updated_or(res, old(spec)@)
        }),
    decreases *old(spec),
{
    if widget_key.is_empty() {
        return false;
    }
    match spec {
        WidgetSpec::Row { children, .. } => set_tree_in_children(
            children,
            widget_key,
            new_nodes,
            new_item_keys,
        ),
        WidgetSpec::Col { children, .. } => set_tree_in_children(
            children,
            widget_key,
            new_nodes,
            new_item_keys,
        ),
        WidgetSpec::Tree { nodes, item_keys, key, .. } => {
            if key_matches(key, widget_key) {
                *nodes = new_nodes;
                *item_keys = new_item_keys;
                true
            } else {
                false
            }
        },
        _ => false,
    }
}

} // verus!
