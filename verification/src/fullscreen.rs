//! The fullscreen emulator: the commands that turn the containers above the
//! focused window into tabbed containers, so that the window fills the
//! workspace while panels stay visible.

use crate::command::{focus_command, focus_command_text, BatchBuilder};
use crate::store::Util;
use crate::tree::{focus_chain, focused_node, views_of, NodeView, TreeNode};
use vstd::prelude::*;

verus! {

/// Whether a node of the focus chain stands at one of the fixed levels of the
/// tree, which are never given another layout: a window down to depth three,
/// a container down to depth four.
pub open spec fn fixed_level(node: NodeView, depth: int) -> bool {
    (node.kind is Window && depth <= 3) || (node.kind is Container && depth <= 4)
}

/// The position at which the fixed levels end: the first position from
/// `from` on whose node is not at a fixed level, or the length of the chain.
pub open spec fn fixed_end(chain: Seq<NodeView>, from: int) -> int
    decreases chain.len() - from,
{
    if 0 <= from < chain.len() && fixed_level(chain[from], from) {
        fixed_end(chain, from + 1)
    } else {
        from
    }
}

/// The number of nodes from `from` on that come before the next focused node.
pub open spec fn unfocused_run(chain: Seq<NodeView>, from: int) -> nat
    decreases chain.len() - from,
{
    if 0 <= from < chain.len() && !chain[from].focused {
        1 + unfocused_run(chain, from + 1)
    } else {
        0
    }
}

/// The number of levels that are made tabbed on the way up: the nodes of the
/// focus chain that follow the fixed levels and come before the focused node.
pub open spec fn tabbed_levels(root: NodeView) -> nat {
    unfocused_run(focus_chain(root), fixed_end(focus_chain(root), 0))
}

/// `n` times the pair of commands that makes the current level tabbed and
/// moves the focus to its parent.
pub open spec fn tab_pairs(n: nat) -> Seq<Seq<char>>
    decreases n,
{
    if n == 0 {
        Seq::empty()
    } else {
        tab_pairs((n - 1) as nat).push("layout tabbed"@).push("focus parent"@)
    }
}

/// The commands of the emulation: one pair for each level to make tabbed, a
/// last `layout tabbed` for the level the focus was left on, and the command
/// that gives the focus back to the node that had it. There are none where
/// the tree has no focused node.
pub open spec fn emulation(root: NodeView) -> Option<Seq<Seq<char>>> {
    match focused_node(root) {
        Some((_, node)) => Some(
            tab_pairs(tabbed_levels(root)).push("layout tabbed"@).push(
                focus_command_text(node.id as int),
            ),
        ),
        None => None,
    }
}

impl Util {
    /// The batch of commands that emulates fullscreen for the focused node of
    /// the tree, or nothing where no node is focused.
    ///
    /// All commands go out as one request, so that the window manager shows
    /// the change as a single step.
    pub fn fullscreen(tree: &TreeNode) -> (batch: Option<BatchBuilder>)
        ensures
            batch is Some <==> emulation(tree@) is Some,
            batch matches Some(cmds) ==> emulation(tree@) == Some(cmds@),
    {
        let id = match tree.focused_node() {
            Some((_, node)) => node.id,
            None => {
                return None;
            },
        };
        let chain = tree.focused_nodes();
        let ghost nodes = focus_chain(tree@);
        let mut cmds = BatchBuilder::new();
        let mut d: usize = 0;
        while d < chain.len() && ((chain[d].is_window() && d <= 3) || (chain[d].is_container() && d
            <= 4))
            invariant
                d <= chain.len(),
                views_of(chain@) == nodes,
                fixed_end(nodes, 0) == fixed_end(nodes, d as int),
            decreases chain.len() - d,
        {
            assert(nodes[d as int] == chain@[d as int]@);
            d = d + 1;
        }
        proof {
            if d < chain.len() {
                assert(nodes[d as int] == chain@[d as int]@);
            }
            assert(fixed_end(nodes, d as int) == d);
        }
        let ghost start = d as int;
        while d < chain.len() && !chain[d].focused
            invariant
                start <= d <= chain.len(),
                views_of(chain@) == nodes,
                unfocused_run(nodes, start) == (d - start) + unfocused_run(nodes, d as int),
                cmds@ == tab_pairs((d - start) as nat),
            decreases chain.len() - d,
        {
            assert(nodes[d as int] == chain@[d as int]@);
            cmds.push("layout tabbed");
            cmds.push("focus parent");
            d = d + 1;
        }
        proof {
            if d < chain.len() {
                assert(nodes[d as int] == chain@[d as int]@);
            }
            assert(unfocused_run(nodes, d as int) == 0);
        }
        cmds.push("layout tabbed");
        cmds.push(focus_command(id).as_str());
        Some(cmds)
    }
}

} // verus!
