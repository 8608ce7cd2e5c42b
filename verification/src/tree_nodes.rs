use vstd::prelude::*;

use crate::widget::TreeNode;

verus! {

/// Node `c` has a parent: it exists, it is not top-level, and some earlier
/// node sits one level above it.
pub open spec fn has_tree_parent(nodes: Seq<TreeNode>, c: int) -> bool {
    &&& 0 <= c < nodes.len()
    &&& nodes[c].depth > 0
    &&& exists|q: int| 0 <= q < c && #[trigger] nodes[q].depth + 1 == nodes[c].depth
}

/// `p` is the parent of node `c`: the most recent earlier node one level
/// above it.
pub open spec fn is_tree_parent(nodes: Seq<TreeNode>, c: int, p: int) -> bool {
    &&& 0 <= p < c < nodes.len()
    &&& nodes[p].depth + 1 == nodes[c].depth
    &&& forall|q: int| p < q < c ==> #[trigger] nodes[q].depth + 1 != nodes[c].depth
}

/// Resolves the index in `nodes` of the parent of `child_idx` in a
/// flattened tree: the most recent earlier node at depth `d - 1`, where `d`
/// is the child's depth. `None` for top-level nodes, out-of-range indices,
/// and nodes with no such earlier node.
pub fn tree_parent_index(nodes: &[TreeNode], child_idx: usize) -> (r: Option<usize>)
    ensures
        r is Some <==> has_tree_parent(nodes@, child_idx as int),
        r matches Some(p) ==> is_tree_parent(nodes@, child_idx as int, p as int),
{
    if child_idx >= nodes.len() {
        return None;
    }
    let depth = nodes[child_idx].depth;
    if depth == 0 {
        return None;
    }
    let target_depth = depth - 1;
    let mut i: usize = child_idx;
    while i > 0
        invariant
            i <= child_idx < nodes@.len(),
            depth == nodes@[child_idx as int].depth,
            target_depth + 1 == depth,
            forall|q: int| i <= q < child_idx ==> #[trigger] nodes@[q].depth + 1 != depth,
        decreases i,
    {
        i = i - 1;
        if nodes[i].depth == target_depth {
            return Some(i);
        }
    }
    None
}

} // verus!
