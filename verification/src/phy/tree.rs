//! The ledge tree: a binary tree over the hulls of a solid, stored in preorder.
use vstd::prelude::*;

verus! {

/// The size of a tree node in bytes.
pub const LEDGETREE_NODE_SIZE: usize = 28;

/// A node of the ledge tree, over the hulls `first .. first + count`.
#[derive(Debug, Clone, Copy, PartialEq, Eq, Structural)]
pub struct TreeNode {
    /// The distance in bytes to the right child; 0 for a leaf. The left child follows at once.
    pub right_offset: i32,
    /// The hull of a leaf.
    pub hull: Option<usize>,
    /// The first hull below the node.
    pub first: usize,
    /// How many hulls are below the node.
    pub count: usize,
}

/// The tree over the hulls `first .. first + count`.
pub open spec fn tree(first: nat, count: nat) -> Seq<TreeNode>
    decreases count,
{
    if count <= 1 {
        seq![
            TreeNode {
                right_offset: 0,
                hull: Some(first as usize),
                first: first as usize,
                count: count as usize,
            },
        ]
    } else {
        let mid = count / 2;
        let left = tree(first, mid);
        let right = tree(first + mid, (count - mid) as nat);
        seq![
            TreeNode {
                right_offset: (28 * (1 + left.len())) as i32,
                hull: None,
                first: first as usize,
                count: count as usize,
            },
        ] + left + right
    }
}

/// A tree over `count` hulls has `2 * count - 1` nodes.
pub proof fn tree_size(first: nat, count: nat)
    requires
        count >= 1,
    ensures
        tree(first, count).len() == 2 * count - 1,
    decreases count,
{
    if count > 1 {
        tree_size(first, count / 2);
        tree_size(first + count / 2, (count - count / 2) as nat);
    }
}

/// The leaves of a tree stand for hulls that are below it.
pub proof fn tree_hulls(first: nat, count: nat)
    requires
        count >= 1,
        first + count <= usize::MAX,
    ensures
        forall|i: int|
            0 <= i < tree(first, count).len() ==> match (#[trigger] tree(first, count)[i]).hull {
                Some(h) => first <= h < first + count,
                None => true,
            },
    decreases count,
{
    if count > 1 {
        let mid = count / 2;
        let left = tree(first, mid);
        let right = tree(first + mid, (count - mid) as nat);
        tree_hulls(first, mid);
        tree_hulls(first + mid, (count - mid) as nat);
        let all = tree(first, count);
        assert forall|i: int| 0 <= i < all.len() implies match (#[trigger] all[i]).hull {
            Some(h) => first <= h < first + count,
            None => true,
        } by {
            if 0 < i <= left.len() {
                assert(all[i] == left[i - 1]);
            } else if i > 0 {
                assert(all[i] == right[i - 1 - left.len()]);
            }
        }
    }
}

/// The tree over `count` hulls.
pub fn build_tree(count: usize) -> (r: Vec<TreeNode>)
    requires
        1 <= count,
        56 * count <= i32::MAX,
    ensures
        r@ == tree(0, count as nat),
        r@.len() == 2 * count - 1,
{
    let mut out: Vec<TreeNode> = Vec::new();
    build_subtree(0, count, &mut out);
    assert(out@ =~= tree(0, count as nat));
    proof {
        tree_size(0, count as nat);
    }
    out
}

/// Appends the tree over the hulls `first .. first + count`.
fn build_subtree(first: usize, count: usize, out: &mut Vec<TreeNode>)
    requires
        1 <= count,
        first + count <= usize::MAX,
        56 * count <= i32::MAX,
        old(out)@.len() + 2 * count <= usize::MAX,
    ensures
        final(out)@ == old(out)@ + tree(first as nat, count as nat),
    decreases count,
{
    let me: usize = out.len();
    proof {
        tree_size(first as nat, count as nat);
    }
    out.push(
        TreeNode { right_offset: 0, hull: Some(first), first, count },
    );
    if count == 1 {
        assert(out@ =~= old(out)@ + tree(first as nat, count as nat));
        return ;
    }
    let mid: usize = count / 2;
    proof {
        tree_size(first as nat, mid as nat);
        tree_size((first + mid) as nat, (count - mid) as nat);
    }
    let ghost left = tree(first as nat, mid as nat);
    let ghost right = tree((first + mid) as nat, (count - mid) as nat);
    build_subtree(first, mid, out);
    let at: usize = out.len();
    build_subtree(first + mid, count - mid, out);
    let node = TreeNode {
        right_offset: (28 * (at - me)) as i32,
        hull: None,
        first,
        count,
    };
    out.set(me, node);
    assert(out@ =~= old(out)@ + (seq![node] + left + right));
}

} // verus!
