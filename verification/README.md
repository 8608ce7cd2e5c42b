# widget_actions

The pure state transitions behind the interactive widgets of a declarative
widget tree, with their behaviour stated as contracts and proved.

- `widget` — the widget tree (`WidgetSpec`, `TreeNode`, `TextPropertyEntry`)
  and its abstract model (`WidgetModel`), the view every contract speaks of.
- `widget_tree` — lookup by key (`find_widget_by_key`, `contains_key`) and
  the in-place updates of a toggle, a list and a tree, with the spec
  functions that define them.
- `tree_laws` — what holds across those operations: lookup agrees with
  containment, and a successful update is read back by a later lookup while
  the keys of the tree stay the same.
- `tree_nodes` — parent lookup in a flattened tree.
- `text`, `text_input` — UTF-8 helpers and caret editing of a text input
  (`apply_text_input_key`), stated over the UTF-8 bytes of the text.
- `caret_laws`, `char_steps` — the caret never lands inside a character,
  moves and deletions step over exactly one character, `Left`/`Right`
  undo each other and `Backspace` is `Left` followed by `Delete`.
