//! The tree model: a snapshot of the window manager's node tree, its
//! traversal, the windows it holds and the chain of nodes that leads to the
//! focused one.
//!
//! A snapshot is never changed, only read. Contracts are stated over
//! [`NodeView`], the mathematical content of a [`TreeNode`].

use vstd::prelude::*;
use vstd::string::*;

verus! {

/// What a node of the tree is: a window, a container of other nodes, or the
/// area that holds panels and bars.
#[derive(Clone, Copy, Debug, PartialEq, Eq, Structural)]
pub enum NodeKind {
    Window,
    Container,
    DockArea,
}

/// The kind of a node, from what the window manager reports of it: a node
/// laid out as a dock area is one, whatever else it holds; any other node with
/// an X11 window is a window; the rest are containers.
pub open spec fn kind_of(has_window: bool, dock_layout: bool) -> NodeKind {
    if dock_layout {
        NodeKind::DockArea
    } else if has_window {
        NodeKind::Window
    } else {
        NodeKind::Container
    }
}

impl NodeKind {
    /// The kind of a node, from what the window manager reports of it: a
    /// node laid out as a dock area is one, whatever else it holds; any other
    /// node with an X11 window is a window; the rest are containers.
    pub fn classify(has_window: bool, dock_layout: bool) -> (kind: NodeKind)
        ensures
            kind == kind_of(has_window, dock_layout),
    {
        if dock_layout {
            NodeKind::DockArea
        } else if has_window {
            NodeKind::Window
        } else {
            NodeKind::Container
        }
    }
}

/// The rectangle a window asked for when it was first shown.
#[derive(Clone, Copy, Debug, PartialEq, Eq, Structural)]
pub struct Geometry {
    pub x: i32,
    pub y: i32,
    pub width: i32,
    pub height: i32,
}

/// One node of a tree snapshot, with the subtree below it.
#[derive(Debug)]
pub struct TreeNode {
    /// The container identifier, unique within a snapshot.
    pub id: i64,
    pub name: Option<String>,
    /// The class of the node's window, where it has window properties.
    pub class: Option<String>,
    /// The instance of the node's window, where it has window properties.
    pub instance: Option<String>,
    pub geometry: Geometry,
    pub kind: NodeKind,
    /// The X11 identifier of the node's window.
    pub window: Option<i32>,
    /// The children, in the order of the layout.
    pub nodes: Vec<TreeNode>,
    /// Identifiers of children in focus order; the first is the child that
    /// leads to the focused node.
    pub focus: Vec<i64>,
    pub focused: bool,
}

/// The mathematical content of a [`TreeNode`].
pub struct NodeView {
    pub id: i64,
    pub name: Option<Seq<char>>,
    pub class: Option<Seq<char>>,
    pub instance: Option<Seq<char>>,
    pub geometry: Geometry,
    pub kind: NodeKind,
    pub window: Option<i32>,
    pub nodes: Seq<NodeView>,
    pub focus: Seq<i64>,
    pub focused: bool,
}

/// The characters of an optional string.
pub open spec fn text_of(text: Option<String>) -> Option<Seq<char>> {
    match text {
        Some(text) => Some(text@),
        None => None,
    }
}

pub open spec fn node_view(node: TreeNode) -> NodeView
    decreases node,
{
    NodeView {
        id: node.id,
        name: text_of(node.name),
        class: text_of(node.class),
        instance: text_of(node.instance),
        geometry: node.geometry,
        kind: node.kind,
        window: node.window,
        nodes: node_views(node.nodes@),
        focus: node.focus@,
        focused: node.focused,
    }
}

pub open spec fn node_views(nodes: Seq<TreeNode>) -> Seq<NodeView>
    decreases nodes,
{
    if nodes.len() == 0 {
        Seq::empty()
    } else {
        node_views(nodes.drop_last()).push(node_view(nodes.last()))
    }
}

impl View for TreeNode {
    type V = NodeView;

    open spec fn view(&self) -> NodeView {
        node_view(*self)
    }
}

/// Whether the kind of a node agrees with its window: the node is a window
/// exactly where it has an X11 window and is no dock area.
pub open spec fn coherent(node: NodeView) -> bool {
    node.kind is Window <==> node.window is Some && !(node.kind is DockArea)
}

/// Whether the kind of every node of a tree agrees with its window.
pub open spec fn coherent_tree(root: NodeView) -> bool
    decreases root,
{
    coherent(root) && forall|i: int|
        0 <= i < root.nodes.len() ==> coherent_tree(#[trigger] root.nodes[i])
}

/// The views of borrowed nodes, in order.
pub open spec fn views_of(nodes: Seq<&TreeNode>) -> Seq<NodeView> {
    nodes.map_values(|node: &TreeNode| node@)
}

/// `node_views` is the view of each node, position by position.
pub proof fn lemma_node_views(nodes: Seq<TreeNode>)
    ensures
        node_views(nodes).len() == nodes.len(),
        forall|i: int| 0 <= i < nodes.len() ==> (#[trigger] node_views(nodes)[i]) == nodes[i]@,
    decreases nodes.len(),
{
    if nodes.len() > 0 {
        lemma_node_views(nodes.drop_last());
    }
}

/// A window of the tree, as the focus commands see it.
#[derive(Clone, Debug, PartialEq, Eq, PartialOrd, Ord)]
pub struct Window {
    pub id: i64,
    pub name: Option<String>,
    pub class: Option<String>,
    pub focused: bool,
}

/// The mathematical content of a [`Window`].
pub struct WindowView {
    pub id: i64,
    pub name: Option<Seq<char>>,
    pub class: Option<Seq<char>>,
    pub focused: bool,
}

impl View for Window {
    type V = WindowView;

    open spec fn view(&self) -> WindowView {
        WindowView {
            id: self.id,
            name: text_of(self.name),
            class: text_of(self.class),
            focused: self.focused,
        }
    }
}

/// The views of a list of windows, in order.
pub open spec fn window_views(windows: Seq<Window>) -> Seq<WindowView> {
    windows.map_values(|window: Window| window@)
}

/// Returned where a node that is no window was asked for its window.
#[derive(Clone, Copy, Debug, PartialEq, Eq, Structural)]
pub struct NotAWindow;

/// The window that a window node stands for.
pub open spec fn window_of(node: NodeView) -> WindowView {
    WindowView { id: node.id, name: node.name, class: node.class, focused: node.focused }
}

/// Whether an optional name is a name of at least one character.
pub open spec fn named(name: Option<Seq<char>>) -> bool {
    name matches Some(text) && text.len() > 0
}

/// Whether a node counts as a window of the tree: a window node whose
/// geometry is not empty and whose name is not empty. A geometry counts as
/// empty where its width is zero; the height is not looked at.
pub open spec fn qualifies(node: NodeView) -> bool {
    node.kind is Window && node.geometry.width != 0 && named(node.name)
}

/// The nodes of the tree in the order of a depth-first walk that visits a
/// node before its children and the last child first. A dock area is visited,
/// what is below it is not.
pub open spec fn preorder(node: NodeView) -> Seq<NodeView>
    decreases node,
{
    if node.kind is DockArea {
        seq![node]
    } else {
        seq![node] + forest(node.nodes)
    }
}

/// The walk over a list of siblings: the last sibling's subtree first.
pub open spec fn forest(nodes: Seq<NodeView>) -> Seq<NodeView>
    decreases nodes,
{
    if nodes.len() == 0 {
        Seq::empty()
    } else {
        preorder(nodes.last()) + forest(nodes.drop_last())
    }
}

/// The windows among `nodes`, in order.
pub open spec fn windows_among(nodes: Seq<NodeView>) -> Seq<WindowView>
    decreases nodes.len(),
{
    if nodes.len() == 0 {
        Seq::empty()
    } else if qualifies(nodes.last()) {
        windows_among(nodes.drop_last()).push(window_of(nodes.last()))
    } else {
        windows_among(nodes.drop_last())
    }
}

/// The window set of a tree: every node of the walk that counts as a window.
pub open spec fn window_set(root: NodeView) -> Seq<WindowView> {
    windows_among(preorder(root))
}

/// The position of the first of `nodes` with the identifier `id`.
pub open spec fn position_of(nodes: Seq<NodeView>, id: i64) -> Option<int>
    decreases nodes.len(),
{
    if nodes.len() == 0 {
        None
    } else if nodes[0].id == id {
        Some(0)
    } else {
        match position_of(nodes.drop_first(), id) {
            Some(i) => Some(i + 1),
            None => None,
        }
    }
}

/// `position_of` finds the first node with the identifier, and only fails
/// where there is none.
pub proof fn lemma_position_of(nodes: Seq<NodeView>, id: i64)
    ensures
        match position_of(nodes, id) {
            Some(i) => 0 <= i < nodes.len() && nodes[i].id == id && forall|j: int|
                0 <= j < i ==> nodes[j].id != id,
            None => forall|j: int| 0 <= j < nodes.len() ==> nodes[j].id != id,
        },
    decreases nodes.len(),
{
    if nodes.len() > 0 && nodes[0].id != id {
        let rest = nodes.drop_first();
        lemma_position_of(rest, id);
        match position_of(rest, id) {
            Some(i) => {
                assert forall|j: int| 0 <= j < i + 1 implies nodes[j].id != id by {
                    if j > 0 {
                        assert(rest[j - 1].id != id);
                    }
                }
            },
            None => {
                assert forall|j: int| 0 <= j < nodes.len() implies nodes[j].id != id by {
                    if j > 0 {
                        assert(rest[j - 1].id != id);
                    }
                }
            },
        }
    }
}

/// The child that the focus order of `node` points to: the first child with
/// the first identifier of the focus order.
pub open spec fn focus_child(node: NodeView) -> Option<NodeView> {
    if node.focus.len() == 0 {
        None
    } else {
        match position_of(node.nodes, node.focus[0]) {
            Some(i) => Some(node.nodes[i]),
            None => None,
        }
    }
}

/// The focus chain: the node itself, then the chain of the child its focus
/// order points to. It ends at a node without focus order, or whose focus
/// order names no child.
pub open spec fn focus_chain(node: NodeView) -> Seq<NodeView>
    decreases node,
{
    match focus_child(node) {
        Some(child) => {
            proof {
                lemma_position_of(node.nodes, node.focus[0]);
            }
            seq![node] + focus_chain(child)
        },
        None => seq![node],
    }
}

/// The node reached from `node` after `hops` steps along the focus order.
pub open spec fn descend(node: NodeView, hops: nat) -> Option<NodeView>
    decreases hops,
{
    if hops == 0 {
        Some(node)
    } else {
        match focus_child(node) {
            Some(child) => descend(child, (hops - 1) as nat),
            None => None,
        }
    }
}

/// The position of the first focused node of `chain`.
pub open spec fn first_focused(chain: Seq<NodeView>) -> Option<int>
    decreases chain.len(),
{
    if chain.len() == 0 {
        None
    } else if chain[0].focused {
        Some(0)
    } else {
        match first_focused(chain.drop_first()) {
            Some(i) => Some(i + 1),
            None => None,
        }
    }
}

/// The focused node of a tree: the first node of the focus chain that is
/// focused, with its position in the chain.
pub open spec fn focused_node(root: NodeView) -> Option<(int, NodeView)> {
    match first_focused(focus_chain(root)) {
        Some(i) => Some((i, focus_chain(root)[i])),
        None => None,
    }
}

/// `first_focused` finds the first focused node, and only fails where no
/// node of the chain is focused.
pub proof fn lemma_first_focused(chain: Seq<NodeView>)
    ensures
        match first_focused(chain) {
            Some(i) => 0 <= i < chain.len() && chain[i].focused && forall|j: int|
                0 <= j < i ==> !chain[j].focused,
            None => forall|j: int| 0 <= j < chain.len() ==> !chain[j].focused,
        },
    decreases chain.len(),
{
    if chain.len() > 0 && !chain[0].focused {
        let rest = chain.drop_first();
        lemma_first_focused(rest);
        match first_focused(rest) {
            Some(i) => {
                assert forall|j: int| 0 <= j < i + 1 implies !chain[j].focused by {
                    if j > 0 {
                        assert(!rest[j - 1].focused);
                    }
                }
            },
            None => {
                assert forall|j: int| 0 <= j < chain.len() implies !chain[j].focused by {
                    if j > 0 {
                        assert(!rest[j - 1].focused);
                    }
                }
            },
        }
    }
}

/// A copy of an optional string.
pub fn copy_text(text: &Option<String>) -> (copy: Option<String>)
    ensures
        text_of(copy) == text_of(*text),
{
    match text {
        Some(text) => Some(String::from_str(text.as_str())),
        None => None,
    }
}

/// Whether an optional name is a name of at least one character.
fn has_name(name: &Option<String>) -> (b: bool)
    ensures
        b == named(text_of(*name)),
{
    match name {
        Some(text) => !text.as_str().is_empty(),
        None => false,
    }
}

impl Window {
    /// The window that `node` stands for; a node that is no window has none.
    pub fn try_from(node: &TreeNode) -> (r: Result<Window, NotAWindow>)
        ensures
            r is Ok <==> node@.kind is Window,
            r matches Ok(window) ==> window@ == window_of(node@),
    {
        if !node.is_window() {
            return Err(NotAWindow);
        }
        Ok(
            Window {
                id: node.id,
                name: copy_text(&node.name),
                class: copy_text(&node.class),
                focused: node.focused,
            },
        )
    }
}

impl TreeNode {
    /// A node with the given content. Its kind is made from its window and
    /// its layout, so the two agree; where the kinds of the children agree
    /// with their windows throughout, so do those of the whole tree.
    pub fn new(
        id: i64,
        name: Option<String>,
        class: Option<String>,
        instance: Option<String>,
        geometry: Geometry,
        window: Option<i32>,
        dock_layout: bool,
        nodes: Vec<TreeNode>,
        focus: Vec<i64>,
        focused: bool,
    ) -> (node: TreeNode)
        ensures
            node@ == (NodeView {
                id,
                name: text_of(name),
                class: text_of(class),
                instance: text_of(instance),
                geometry,
                kind: kind_of(window is Some, dock_layout),
                window,
                nodes: node_views(nodes@),
                focus: focus@,
                focused,
            }),
            coherent(node@),
            (forall|i: int| 0 <= i < nodes@.len() ==> coherent_tree(#[trigger] nodes@[i]@))
                ==> coherent_tree(node@),
    {
        let kind = NodeKind::classify(window.is_some(), dock_layout);
        proof {
            lemma_node_views(nodes@);
        }
        TreeNode { id, name, class, instance, geometry, kind, window, nodes, focus, focused }
    }

    /// Whether the node is a window.
    pub fn is_window(&self) -> (b: bool)
        ensures
            b == (self@.kind is Window),
    {
        match self.kind {
            NodeKind::Window => true,
            _ => false,
        }
    }

    /// Whether the node is a container of other nodes.
    pub fn is_container(&self) -> (b: bool)
        ensures
            b == (self@.kind is Container),
    {
        match self.kind {
            NodeKind::Container => true,
            _ => false,
        }
    }

    /// Whether the node is a dock area.
    pub fn is_dock_area(&self) -> (b: bool)
        ensures
            b == (self@.kind is DockArea),
    {
        match self.kind {
            NodeKind::DockArea => true,
            _ => false,
        }
    }

    /// The nodes of the tree in walk order: each node before its children,
    /// the last child first, and nothing from below a dock area.
    pub fn traverse(&self) -> (nodes: Vec<&TreeNode>)
        ensures
            views_of(nodes@) == preorder(self@),
    {
        let mut nodes: Vec<&TreeNode> = Vec::new();
        walk(self, &mut nodes);
        assert(views_of(nodes@) =~= Seq::<NodeView>::empty() + preorder(self@)) by {
            assert(views_of(Seq::<&TreeNode>::empty()) =~= Seq::<NodeView>::empty());
        }
        nodes
    }

    /// The window set of the tree: the nodes of the walk that are windows
    /// with a geometry and a name that are not empty, each as a [`Window`].
    pub fn get_windows(&self) -> (windows: Vec<Window>)
        ensures
            window_views(windows@) == window_set(self@),
    {
        let nodes = self.traverse();
        let mut windows: Vec<Window> = Vec::new();
        let mut i: usize = 0;
        assert(window_views(windows@) =~= windows_among(views_of(nodes@).take(0)));
        while i < nodes.len()
            invariant
                i <= nodes.len(),
                window_views(windows@) == windows_among(views_of(nodes@).take(i as int)),
            decreases nodes.len() - i,
        {
            let node = nodes[i];
            proof {
                let seen = views_of(nodes@).take(i as int + 1);
                assert(seen.drop_last() =~= views_of(nodes@).take(i as int));
                assert(seen.last() == node@);
            }
            if node.geometry.width != 0 && has_name(&node.name) {
                match Window::try_from(node) {
                    Ok(window) => {
                        let ghost before = windows@;
                        windows.push(window);
                        assert(window_views(windows@) =~= window_views(before).push(window@));
                    },
                    Err(_) => {},
                }
            }
            i = i + 1;
        }
        assert(views_of(nodes@).take(nodes.len() as int) =~= views_of(nodes@));
        windows
    }

    /// The child that the focus order points to.
    pub fn focus_child(&self) -> (child: Option<&TreeNode>)
        ensures
            child is Some <==> focus_child(self@) is Some,
            child matches Some(c) ==> focus_child(self@) == Some(c@),
            child matches Some(c) ==> exists|i: int| 0 <= i < self.nodes@.len() && self.nodes@[i] == *c,
    {
        if self.focus.len() == 0 {
            return None;
        }
        let id = self.focus[0];
        let mut i: usize = 0;
        proof {
            lemma_node_views(self.nodes@);
            lemma_position_of(self@.nodes, id);
        }
        while i < self.nodes.len()
            invariant
                i <= self.nodes.len(),
                self@.nodes.len() == self.nodes@.len(),
                forall|j: int| 0 <= j < self.nodes@.len() ==> (#[trigger] self@.nodes[j]) == self.nodes@[j]@,
                forall|j: int| 0 <= j < i ==> self@.nodes[j].id != id,
                self.focus@.len() > 0,
                id == self.focus@[0],
            decreases self.nodes.len() - i,
        {
            if self.nodes[i].id == id {
                proof {
                    assert(self@.nodes[i as int].id == id);
                    lemma_position_of(self@.nodes, id);
                }
                return Some(&self.nodes[i]);
            }
            assert(self@.nodes[i as int].id != id);
            i = i + 1;
        }
        proof {
            lemma_position_of(self@.nodes, id);
        }
        None
    }

    /// The focus chain: this node, then the nodes reached by following the
    /// focus order from child to child.
    pub fn focused_nodes(&self) -> (chain: Vec<&TreeNode>)
        ensures
            views_of(chain@) == focus_chain(self@),
    {
        let mut chain: Vec<&TreeNode> = Vec::new();
        follow(self, &mut chain);
        assert(views_of(chain@) =~= Seq::<NodeView>::empty() + focus_chain(self@)) by {
            assert(views_of(Seq::<&TreeNode>::empty()) =~= Seq::<NodeView>::empty());
        }
        chain
    }

    /// The focused node: the first node of the focus chain that is focused,
    /// with its position in the chain. Where no node of the chain is
    /// focused there is nothing to act on.
    pub fn focused_node(&self) -> (found: Option<(usize, &TreeNode)>)
        ensures
            found is Some <==> focused_node(self@) is Some,
            found matches Some((depth, node)) ==> focused_node(self@) == Some(
                (depth as int, node@),
            ),
    {
        let chain = self.focused_nodes();
        let mut i: usize = 0;
        proof {
            lemma_first_focused(focus_chain(self@));
        }
        while i < chain.len()
            invariant
                i <= chain.len(),
                views_of(chain@) == focus_chain(self@),
                forall|j: int| 0 <= j < i ==> !focus_chain(self@)[j].focused,
            decreases chain.len() - i,
        {
            assert(views_of(chain@)[i as int] == chain@[i as int]@);
            if chain[i].focused {
                proof {
                    lemma_first_focused(focus_chain(self@));
                }
                return Some((i, chain[i]));
            }
            i = i + 1;
        }
        proof {
            lemma_first_focused(focus_chain(self@));
        }
        None
    }
}

/// Appends the walk of `node` to `out`.
fn walk<'a>(node: &'a TreeNode, out: &mut Vec<&'a TreeNode>)
    ensures
        views_of(final(out)@) == views_of(old(out)@) + preorder(node@),
    decreases node,
{
    out.push(node);
    assert(views_of(out@) =~= views_of(old(out)@) + seq![node@]);
    if node.is_dock_area() {
        return ;
    }
    proof {
        lemma_node_views(node.nodes@);
    }
    let mut j: usize = node.nodes.len();
    assert(node@.nodes.take(j as int) =~= node@.nodes);
    while j > 0
        invariant
            j <= node.nodes.len(),
            node@.nodes.len() == node.nodes@.len(),
            forall|k: int| 0 <= k < node.nodes@.len() ==> (#[trigger] node@.nodes[k]) == node.nodes@[k]@,
            views_of(out@) + forest(node@.nodes.take(j as int)) == views_of(old(out)@) + preorder(
                node@,
            ),
        decreases j,
    {
        j = j - 1;
        let ghost before = views_of(out@);
        proof {
            let rest = node@.nodes.take(j as int + 1);
            assert(rest.drop_last() =~= node@.nodes.take(j as int));
            assert(rest.last() == node.nodes@[j as int]@);
        }
        walk(&node.nodes[j], out);
        assert(views_of(out@) + forest(node@.nodes.take(j as int)) =~= before + forest(
            node@.nodes.take(j as int + 1),
        ));
    }
    assert(forest(node@.nodes.take(0)) =~= Seq::<NodeView>::empty());
    assert(views_of(out@) + Seq::<NodeView>::empty() =~= views_of(out@));
}

/// Appends the focus chain of `node` to `chain`.
fn follow<'a>(node: &'a TreeNode, chain: &mut Vec<&'a TreeNode>)
    ensures
        views_of(final(chain)@) == views_of(old(chain)@) + focus_chain(node@),
    decreases node,
{
    chain.push(node);
    assert(views_of(chain@) =~= views_of(old(chain)@) + seq![node@]);
    match node.focus_child() {
        Some(child) => {
            follow(child, chain);
            assert(views_of(chain@) =~= views_of(old(chain)@) + (seq![node@] + focus_chain(
                child@,
            )));
        },
        None => {},
    }
}

/// The node reached from `root` by going, at each step of `path`, to the
/// child at that position.
pub open spec fn node_at(root: NodeView, path: Seq<int>) -> Option<NodeView>
    decreases path.len(),
{
    if path.len() == 0 {
        Some(root)
    } else if 0 <= path[0] < root.nodes.len() {
        node_at(root.nodes[path[0]], path.drop_first())
    } else {
        None
    }
}

/// Whether the node at `path` lies below a dock area: some node that the
/// path leaves on its way down is one.
pub open spec fn below_dock(root: NodeView, path: Seq<int>) -> bool
    decreases path.len(),
{
    path.len() > 0 && 0 <= path[0] < root.nodes.len() && (root.kind is DockArea || below_dock(
        root.nodes[path[0]],
        path.drop_first(),
    ))
}

/// Whether no identifier occurs at two places of the tree.
pub open spec fn unique_ids(root: NodeView) -> bool {
    forall|p: Seq<int>, q: Seq<int>|
        #![trigger node_at(root, p), node_at(root, q)]
        node_at(root, p) is Some && node_at(root, q) is Some && node_at(root, p)->0.id == node_at(
            root,
            q,
        )->0.id ==> p == q
}

/// The path to the node at position `i` of the walk.
pub open spec fn walk_path(root: NodeView, i: int) -> Seq<int>
    decreases root,
{
    if i <= 0 || root.kind is DockArea {
        Seq::empty()
    } else {
        let found = forest_path(root.nodes, i - 1);
        seq![found.0] + found.1
    }
}

/// The sibling in whose subtree the node at position `i` of the walk over
/// siblings lies, and the path to the node from there.
pub open spec fn forest_path(nodes: Seq<NodeView>, i: int) -> (int, Seq<int>)
    decreases nodes,
{
    if nodes.len() == 0 {
        (0, Seq::empty())
    } else if i < preorder(nodes.last()).len() {
        (nodes.len() - 1, walk_path(nodes.last(), i))
    } else {
        forest_path(nodes.drop_last(), i - preorder(nodes.last()).len())
    }
}

/// Every node of the walk is reached by a path that does not pass through a
/// dock area. The path is returned.
pub proof fn lemma_walk_path(root: NodeView, i: int) -> (path: Seq<int>)
    requires
        0 <= i < preorder(root).len(),
    ensures
        path == walk_path(root, i),
        node_at(root, path) == Some(preorder(root)[i]),
        !below_dock(root, path),
    decreases root,
{
    if i == 0 {
        Seq::empty()
    } else {
        let (child, rest) = lemma_forest_path(root.nodes, i - 1);
        let path = seq![child] + rest;
        assert(path.drop_first() =~= rest);
        path
    }
}

/// Every node of the walk over siblings lies in the subtree of one of them,
/// on a path that does not pass through a dock area. The sibling's position
/// and the path below it are returned.
pub proof fn lemma_forest_path(nodes: Seq<NodeView>, i: int) -> (found: (int, Seq<int>))
    requires
        0 <= i < forest(nodes).len(),
    ensures
        found == forest_path(nodes, i),
        0 <= found.0 < nodes.len(),
        node_at(nodes[found.0], found.1) == Some(forest(nodes)[i]),
        !below_dock(nodes[found.0], found.1),
    decreases nodes,
{
    let last = preorder(nodes.last());
    if i < last.len() {
        (nodes.len() - 1, lemma_walk_path(nodes.last(), i))
    } else {
        let (child, rest) = lemma_forest_path(nodes.drop_last(), i - last.len());
        (child, rest)
    }
}

/// Two positions of the walk have two paths.
pub proof fn lemma_walk_paths_differ(root: NodeView, i: int, j: int)
    requires
        0 <= i < j < preorder(root).len(),
    ensures
        walk_path(root, i) != walk_path(root, j),
    decreases root,
{
    let second = forest_path(root.nodes, j - 1);
    assert((seq![second.0] + second.1).len() > 0);
    if i > 0 {
        lemma_forest_paths_differ(root.nodes, i - 1, j - 1);
        let first = forest_path(root.nodes, i - 1);
        assert((seq![first.0] + first.1)[0] == first.0);
        assert((seq![second.0] + second.1)[0] == second.0);
        assert((seq![first.0] + first.1).drop_first() =~= first.1);
        assert((seq![second.0] + second.1).drop_first() =~= second.1);
    }
}

/// Two positions of the walk over siblings lie under two siblings or have
/// two paths.
proof fn lemma_forest_paths_differ(nodes: Seq<NodeView>, i: int, j: int)
    requires
        0 <= i < j < forest(nodes).len(),
    ensures
        forest_path(nodes, i) != forest_path(nodes, j),
    decreases nodes,
{
    let last = preorder(nodes.last()).len() as int;
    if j < last {
        lemma_walk_paths_differ(nodes.last(), i, j);
    } else if i < last {
        lemma_forest_path(nodes.drop_last(), j - last);
    } else {
        lemma_forest_paths_differ(nodes.drop_last(), i - last, j - last);
    }
}

/// The position of the node that the window at position `j` among the
/// windows of `nodes` comes from.
pub open spec fn window_source(nodes: Seq<NodeView>, j: int) -> int
    decreases nodes.len(),
{
    if nodes.len() == 0 {
        0
    } else if qualifies(nodes.last()) && j == windows_among(nodes).len() - 1 {
        nodes.len() - 1
    } else {
        window_source(nodes.drop_last(), j)
    }
}

/// Every window among `nodes` is the window of one of them that counts as a
/// window. Its position is returned.
pub proof fn lemma_window_source(nodes: Seq<NodeView>, j: int) -> (i: int)
    requires
        0 <= j < windows_among(nodes).len(),
    ensures
        i == window_source(nodes, j),
        0 <= i < nodes.len(),
        qualifies(nodes[i]),
        window_of(nodes[i]) == windows_among(nodes)[j],
    decreases nodes.len(),
{
    if qualifies(nodes.last()) && j == windows_among(nodes).len() - 1 {
        nodes.len() - 1
    } else {
        lemma_window_source(nodes.drop_last(), j)
    }
}

/// Windows come in the order of the nodes they come from.
pub proof fn lemma_window_sources_ascend(nodes: Seq<NodeView>, a: int, b: int)
    requires
        0 <= a < b < windows_among(nodes).len(),
    ensures
        window_source(nodes, a) < window_source(nodes, b),
    decreases nodes.len(),
{
    if qualifies(nodes.last()) && b == windows_among(nodes).len() - 1 {
        lemma_window_source(nodes.drop_last(), a);
    } else {
        lemma_window_sources_ascend(nodes.drop_last(), a, b);
    }
}

/// The walk visits no node twice: in a tree whose identifiers are unique, no
/// two positions of the walk hold the same identifier.
pub proof fn lemma_walk_once(root: NodeView, i: int, j: int)
    requires
        unique_ids(root),
        0 <= i < j < preorder(root).len(),
    ensures
        preorder(root)[i].id != preorder(root)[j].id,
{
    let p = lemma_walk_path(root, i);
    let q = lemma_walk_path(root, j);
    lemma_walk_paths_differ(root, i, j);
    if preorder(root)[i].id == preorder(root)[j].id {
        assert(node_at(root, p) is Some && node_at(root, q) is Some);
        assert(p == q);
    }
}

/// The window set holds no window twice: in a tree whose identifiers are
/// unique, no two windows of the set have the same identifier.
pub proof fn lemma_windows_once(root: NodeView, a: int, b: int)
    requires
        unique_ids(root),
        0 <= a < b < window_set(root).len(),
    ensures
        window_set(root)[a].id != window_set(root)[b].id,
{
    let i = lemma_window_source(preorder(root), a);
    let j = lemma_window_source(preorder(root), b);
    lemma_window_sources_ascend(preorder(root), a, b);
    lemma_walk_once(root, i, j);
}

/// No window of the window set lies below a dock area: in a tree whose
/// identifiers are unique, the identifier of a node below a dock area is the
/// identifier of no window of the set, whether or not that node would count
/// as a window.
pub proof fn lemma_dock_descendants_excluded(root: NodeView, path: Seq<int>, j: int)
    requires
        unique_ids(root),
        node_at(root, path) is Some,
        below_dock(root, path),
        0 <= j < window_set(root).len(),
    ensures
        window_set(root)[j].id != node_at(root, path)->0.id,
{
    let i = lemma_window_source(preorder(root), j);
    let q = lemma_walk_path(root, i);
    if window_set(root)[j].id == node_at(root, path)->0.id {
        assert(node_at(root, q) is Some && node_at(root, path) is Some);
        assert(q == path);
    }
}

/// Every window of the window set is the window of a node that counts as a
/// window and is reached without passing through a dock area. The path to
/// that node is returned.
pub proof fn lemma_window_set_sound(root: NodeView, j: int) -> (path: Seq<int>)
    requires
        0 <= j < window_set(root).len(),
    ensures
        node_at(root, path) matches Some(node) && qualifies(node) && window_of(node)
            == window_set(root)[j],
        !below_dock(root, path),
{
    let i = lemma_window_source(preorder(root), j);
    lemma_walk_path(root, i)
}

/// The walk over siblings holds the whole walk of each of them.
proof fn lemma_forest_holds(nodes: Seq<NodeView>, i: int, node: NodeView)
    requires
        0 <= i < nodes.len(),
        preorder(nodes[i]).contains(node),
    ensures
        forest(nodes).contains(node),
    decreases nodes.len(),
{
    let last = preorder(nodes.last());
    let rest = forest(nodes.drop_last());
    if i == nodes.len() - 1 {
        let k = choose|k: int| 0 <= k < last.len() && last[k] == node;
        assert((last + rest)[k] == node);
    } else {
        lemma_forest_holds(nodes.drop_last(), i, node);
        let k = choose|k: int| 0 <= k < rest.len() && rest[k] == node;
        assert((last + rest)[last.len() + k] == node);
    }
}

/// Every node that is reached without passing through a dock area is a node
/// of the walk.
pub proof fn lemma_walk_complete(root: NodeView, path: Seq<int>)
    requires
        node_at(root, path) is Some,
        !below_dock(root, path),
    ensures
        preorder(root).contains(node_at(root, path)->0),
    decreases path.len(),
{
    let node = node_at(root, path)->0;
    if path.len() == 0 {
        assert(preorder(root)[0] == node);
    } else {
        let child = root.nodes[path[0]];
        lemma_walk_complete(child, path.drop_first());
        lemma_forest_holds(root.nodes, path[0], node);
        let below = forest(root.nodes);
        let k = choose|k: int| 0 <= k < below.len() && below[k] == node;
        assert((seq![root] + below)[k + 1] == node);
    }
}

/// Every node among `nodes` that counts as a window has its window among
/// the windows.
pub proof fn lemma_windows_complete(nodes: Seq<NodeView>, node: NodeView)
    requires
        nodes.contains(node),
        qualifies(node),
    ensures
        windows_among(nodes).contains(window_of(node)),
    decreases nodes.len(),
{
    let k = choose|k: int| 0 <= k < nodes.len() && nodes[k] == node;
    let found = windows_among(nodes);
    if k == nodes.len() - 1 {
        assert(found[found.len() - 1] == window_of(node));
    } else {
        assert(nodes.drop_last()[k] == node);
        lemma_windows_complete(nodes.drop_last(), node);
        let before = windows_among(nodes.drop_last());
        let j = choose|j: int| 0 <= j < before.len() && before[j] == window_of(node);
        assert(found[j] == window_of(node));
    }
}

/// The window set leaves out no window: every node that counts as a window
/// and is reached without passing through a dock area has its window in the
/// set.
pub proof fn lemma_window_set_complete(root: NodeView, path: Seq<int>)
    requires
        node_at(root, path) matches Some(node) && qualifies(node),
        !below_dock(root, path),
    ensures
        window_set(root).contains(window_of(node_at(root, path)->0)),
{
    lemma_walk_complete(root, path);
    lemma_windows_complete(preorder(root), node_at(root, path)->0);
}

/// In a tree whose kinds agree with its windows, they agree at every node.
pub proof fn lemma_coherent_at(root: NodeView, path: Seq<int>)
    requires
        coherent_tree(root),
        node_at(root, path) is Some,
    ensures
        coherent(node_at(root, path)->0),
    decreases path.len(),
{
    if path.len() > 0 {
        lemma_coherent_at(root.nodes[path[0]], path.drop_first());
    }
}

/// In a tree whose kinds agree with its windows, they agree at every node of
/// the focus chain.
pub proof fn lemma_chain_coherent(root: NodeView, k: int)
    requires
        coherent_tree(root),
        0 <= k < focus_chain(root).len(),
    ensures
        coherent(focus_chain(root)[k]),
    decreases k,
{
    if k > 0 {
        match focus_child(root) {
            Some(child) => {
                lemma_position_of(root.nodes, root.focus[0]);
                lemma_chain_coherent(child, k - 1);
            },
            None => {},
        }
    }
}

/// The node at a position of the focus chain is the node reached after that
/// many hops along the focus order.
pub proof fn lemma_chain_hops(root: NodeView, k: int)
    requires
        0 <= k < focus_chain(root).len(),
    ensures
        descend(root, k as nat) == Some(focus_chain(root)[k]),
    decreases k,
{
    if k > 0 {
        match focus_child(root) {
            Some(child) => {
                lemma_position_of(root.nodes, root.focus[0]);
                lemma_chain_hops(child, k - 1);
            },
            None => {},
        }
    }
}

/// In a tree whose focus chain holds exactly one focused node, the lookup
/// returns that node, and the depth it returns is the number of hops from
/// the root to it along the focus order.
pub proof fn lemma_sole_focused_node(root: NodeView, k: int)
    requires
        0 <= k < focus_chain(root).len(),
        focus_chain(root)[k].focused,
        forall|j: int| 0 <= j < focus_chain(root).len() && j != k ==> !focus_chain(root)[j].focused,
    ensures
        focused_node(root) == Some((k, focus_chain(root)[k])),
        descend(root, k as nat) == Some(focus_chain(root)[k]),
{
    lemma_first_focused(focus_chain(root));
    lemma_chain_hops(root, k);
}

} // verus!
