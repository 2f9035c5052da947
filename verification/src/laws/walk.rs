//! Where a value stands in another.
use crate::json::Tree;
use vstd::prelude::*;

verus! {

/// Whether `node` stands in `root` where `path` leads: each step takes the member, in the order of
/// keys, or the item with that number.
pub open spec fn stands_at(root: Tree, path: Seq<int>, node: Tree) -> bool
    decreases path.len(),
{
    if path.len() == 0 {
        root == node
    } else {
        match root {
            Tree::Object(entries) => 0 <= path[0] < entries.len() && stands_at(
                entries[path[0]].1,
                path.skip(1),
                node,
            ),
            Tree::Array(items) => 0 <= path[0] < items.len() && stands_at(
                items[path[0]],
                path.skip(1),
                node,
            ),
            _ => false,
        }
    }
}

/// Whether `node` stands anywhere in `root`, or is `root`.
pub open spec fn stands_in(root: Tree, node: Tree) -> bool {
    exists|path: Seq<int>| stands_at(root, path, node)
}

/// The values of the members of an object, in the order of keys.
pub open spec fn values(entries: Seq<(Seq<char>, Tree)>) -> Seq<Tree> {
    Seq::new(entries.len(), |i: int| entries[i].1)
}

/// A value stands in itself.
pub proof fn stands_in_itself(root: Tree)
    ensures
        stands_in(root, root),
{
    assert(stands_at(root, Seq::empty(), root));
}

/// What stands in a part stands in the whole.
pub proof fn stands_in_whole(root: Tree, i: int, part: Tree, node: Tree)
    requires
        stands_in(part, node),
        match root {
            Tree::Object(entries) => 0 <= i < entries.len() && entries[i].1 == part,
            Tree::Array(items) => 0 <= i < items.len() && items[i] == part,
            _ => false,
        },
    ensures
        stands_in(root, node),
{
    let path = choose|path: Seq<int>| stands_at(part, path, node);
    let longer = seq![i] + path;
    assert(longer.skip(1) == path);
    assert(stands_at(root, longer, node));
}

} // verus!
