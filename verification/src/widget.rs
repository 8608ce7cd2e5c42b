use vstd::prelude::*;

verus! {

/// One styled line of text shown by a list row or a tree node.
#[derive(Clone, Debug)]
pub struct TextPropertyEntry {
    pub text: String,
}

impl TextPropertyEntry {
    /// A plain entry holding `text`.
    pub fn text(text: &str) -> (e: TextPropertyEntry)
        ensures
            e@ == text@,
    {
        TextPropertyEntry { text: text.to_owned() }
    }
}

impl View for TextPropertyEntry {
    type V = Seq<char>;

    open spec fn view(&self) -> Seq<char> {
        self.text@
    }
}

/// One row of a flattened tree: its text, its nesting depth (0 for a
/// top-level node) and whether it has children of its own.
#[derive(Clone, Debug)]
pub struct TreeNode {
    pub text: TextPropertyEntry,
    pub depth: u32,
    pub has_children: bool,
}

/// The abstract content of a [`TreeNode`].
pub struct NodeModel {
    pub text: Seq<char>,
    pub depth: u32,
    pub has_children: bool,
}

impl View for TreeNode {
    type V = NodeModel;

    open spec fn view(&self) -> NodeModel {
        NodeModel { text: self.text@, depth: self.depth, has_children: self.has_children }
    }
}

/// A declarative widget tree. `Row` and `Col` are containers; `Toggle`,
/// `Button`, `TextInput`, `List` and `Tree` are interactive and can be
/// addressed by their stable `key`; `Raw`, `HintBar` and `Spacer` are
/// decoration only.
#[derive(Debug)]
pub enum WidgetSpec {
    Row { children: Vec<WidgetSpec>, key: Option<String> },
    Col { children: Vec<WidgetSpec>, key: Option<String> },
    Toggle { checked: bool, label: String, focused: bool, key: Option<String> },
    Button { label: String, focused: bool, key: Option<String> },
    TextInput { value: String, cursor: usize, label: String, focused: bool, key: Option<String> },
    List {
        items: Vec<TextPropertyEntry>,
        item_keys: Vec<String>,
        selected_index: i64,
        visible_rows: u32,
        key: Option<String>,
    },
    Tree {
        nodes: Vec<TreeNode>,
        item_keys: Vec<String>,
        selected_index: i64,
        visible_rows: u32,
        expanded_keys: Vec<String>,
        key: Option<String>,
    },
    Raw { lines: Vec<TextPropertyEntry> },
    HintBar { hints: Vec<TextPropertyEntry> },
    Spacer { rows: u32 },
}

/// The abstract content of a [`WidgetSpec`]: the same shape, with every
/// string taken as its characters and every vector as a sequence.
pub enum WidgetModel {
    Row { children: Seq<WidgetModel>, key: Option<Seq<char>> },
    Col { children: Seq<WidgetModel>, key: Option<Seq<char>> },
    Toggle { checked: bool, label: Seq<char>, focused: bool, key: Option<Seq<char>> },
    Button { label: Seq<char>, focused: bool, key: Option<Seq<char>> },
    TextInput {
        value: Seq<char>,
        cursor: usize,
        label: Seq<char>,
        focused: bool,
        key: Option<Seq<char>>,
    },
    List {
        items: Seq<Seq<char>>,
        item_keys: Seq<Seq<char>>,
        selected_index: i64,
        visible_rows: u32,
        key: Option<Seq<char>>,
    },
    Tree {
        nodes: Seq<NodeModel>,
        item_keys: Seq<Seq<char>>,
        selected_index: i64,
        visible_rows: u32,
        expanded_keys: Seq<Seq<char>>,
        key: Option<Seq<char>>,
    },
    Raw { lines: Seq<Seq<char>> },
    HintBar { hints: Seq<Seq<char>> },
    Spacer { rows: u32 },
}

/// An optional key, as characters.
pub open spec fn key_view(key: Option<String>) -> Option<Seq<char>> {
    match key {
        Some(k) => Some(k@),
        None => None,
    }
}

/// The characters of each string.
pub open spec fn strings_view(v: Seq<String>) -> Seq<Seq<char>> {
    v.map_values(|s: String| s@)
}

/// The text of each entry.
pub open spec fn entries_view(v: Seq<TextPropertyEntry>) -> Seq<Seq<char>> {
    v.map_values(|e: TextPropertyEntry| e@)
}

/// The content of each tree node.
pub open spec fn nodes_view(v: Seq<TreeNode>) -> Seq<NodeModel> {
    v.map_values(|n: TreeNode| n@)
}

/// The model of each child widget.
pub open spec fn children_model(cs: Seq<WidgetSpec>) -> Seq<WidgetModel>
    decreases cs,
{
    Seq::new(
        cs.len(),
        |i: int|
            if 0 <= i < cs.len() {
                widget_model(cs[i])
            } else {
                WidgetModel::Spacer { rows: 0 }
            },
    )
}

/// The abstract content of a widget tree.
pub open spec fn widget_model(w: WidgetSpec) -> WidgetModel
    decreases w,
{
    match w {
        WidgetSpec::Row { children, key } => WidgetModel::Row {
            children: children_model(children@),
            key: key_view(key),
        },
        WidgetSpec::Col { children, key } => WidgetModel::Col {
            children: children_model(children@),
            key: key_view(key),
        },
        WidgetSpec::Toggle { checked, label, focused, key } => WidgetModel::Toggle {
            checked,
            label: label@,
            focused,
            key: key_view(key),
        },
        WidgetSpec::Button { label, focused, key } => WidgetModel::Button {
            label: label@,
            focused,
            key: key_view(key),
        },
        WidgetSpec::TextInput { value, cursor, label, focused, key } => WidgetModel::TextInput {
            value: value@,
            cursor,
            label: label@,
            focused,
            key: key_view(key),
        },
        WidgetSpec::List { items, item_keys, selected_index, visible_rows, key } => WidgetModel::List {
            items: entries_view(items@),
            item_keys: strings_view(item_keys@),
            selected_index,
            visible_rows,
            key: key_view(key),
        },
        WidgetSpec::Tree { nodes, item_keys, selected_index, visible_rows, expanded_keys, key } =>
            WidgetModel::Tree {
            nodes: nodes_view(nodes@),
            item_keys: strings_view(item_keys@),
            selected_index,
            visible_rows,
            expanded_keys: strings_view(expanded_keys@),
            key: key_view(key),
        },
        WidgetSpec::Raw { lines } => WidgetModel::Raw { lines: entries_view(lines@) },
        WidgetSpec::HintBar { hints } => WidgetModel::HintBar { hints: entries_view(hints@) },
        WidgetSpec::Spacer { rows } => WidgetModel::Spacer { rows },
    }
}

impl View for WidgetSpec {
    type V = WidgetModel;

    open spec fn view(&self) -> WidgetModel {
        widget_model(*self)
    }
}

} // verus!

verus! {

/// The model keeps every field of a widget: each flag and number as it is,
/// each string as its characters, each key as its characters (or none),
/// each list of entries as their texts, each list of nodes as their
/// contents, and each child as its own model, in order.
pub proof fn law_model_keeps_fields(w: WidgetSpec)
    ensures
        match w {
            WidgetSpec::Row { children, key } => w@ matches WidgetModel::Row { children: c, key: k }
                && c.len() == children@.len() && (forall|i: int|
                0 <= i < c.len() ==> #[trigger] c[i] == children@[i]@) && k == (if key is Some {
                Some(key.unwrap()@)
            } else {
                None
            }),
            WidgetSpec::Col { children, key } => w@ matches WidgetModel::Col { children: c, key: k }
                && c.len() == children@.len() && (forall|i: int|
                0 <= i < c.len() ==> #[trigger] c[i] == children@[i]@) && k == (if key is Some {
                Some(key.unwrap()@)
            } else {
                None
            }),
            WidgetSpec::Toggle { checked, label, focused, key } => w@ matches WidgetModel::Toggle {
                checked: c,
                label: l,
                focused: f,
                key: k,
            } && c == checked && l == label@ && f == focused && k == (if key is Some {
                Some(key.unwrap()@)
            } else {
                None
            }),
            WidgetSpec::Button { label, focused, key } => w@ matches WidgetModel::Button {
                label: l,
                focused: f,
                key: k,
            } && l == label@ && f == focused && k == (if key is Some {
                Some(key.unwrap()@)
            } else {
                None
            }),
            WidgetSpec::TextInput { value, cursor, label, focused, key } => w@ matches WidgetModel::TextInput {
                value: v,
                cursor: c,
                label: l,
                focused: f,
                key: k,
            } && v == value@ && c == cursor && l == label@ && f == focused && k == (if key is Some {
                Some(key.unwrap()@)
            } else {
                None
            }),
            WidgetSpec::List { items, item_keys, selected_index, visible_rows, key } => w@ matches WidgetModel::List {
                items: it,
                item_keys: ik,
                selected_index: s,
                visible_rows: r,
                key: k,
            } && it.len() == items@.len() && (forall|i: int|
                0 <= i < it.len() ==> #[trigger] it[i] == items@[i].text@) && ik.len()
                == item_keys@.len() && (forall|i: int|
                0 <= i < ik.len() ==> #[trigger] ik[i] == item_keys@[i]@) && s == selected_index && r
                == visible_rows && k == (if key is Some {
                Some(key.unwrap()@)
            } else {
                None
            }),
            WidgetSpec::Tree { nodes, item_keys, selected_index, visible_rows, expanded_keys, key } => w@ matches WidgetModel::Tree {
                nodes: n,
                item_keys: ik,
                selected_index: s,
                visible_rows: r,
                expanded_keys: ek,
                key: k,
            } && n.len() == nodes@.len() && (forall|i: int|
                0 <= i < n.len() ==> #[trigger] n[i] == NodeModel {
                    text: nodes@[i].text.text@,
                    depth: nodes@[i].depth,
                    has_children: nodes@[i].has_children,
                }) && ik.len() == item_keys@.len() && (forall|i: int|
                0 <= i < ik.len() ==> #[trigger] ik[i] == item_keys@[i]@) && ek.len()
                == expanded_keys@.len() && (forall|i: int|
                0 <= i < ek.len() ==> #[trigger] ek[i] == expanded_keys@[i]@) && s == selected_index
                && r == visible_rows && k == (if key is Some {
                Some(key.unwrap()@)
            } else {
                None
            }),
            WidgetSpec::Raw { lines } => w@ matches WidgetModel::Raw { lines: l } && l.len()
                == lines@.len() && (forall|i: int|
                0 <= i < l.len() ==> #[trigger] l[i] == lines@[i].text@),
            WidgetSpec::HintBar { hints } => w@ matches WidgetModel::HintBar { hints: h } && h.len()
                == hints@.len() && (forall|i: int|
                0 <= i < h.len() ==> #[trigger] h[i] == hints@[i].text@),
            WidgetSpec::Spacer { rows } => w@ matches WidgetModel::Spacer { rows: r } && r == rows,
        },
{
}

} // verus!
