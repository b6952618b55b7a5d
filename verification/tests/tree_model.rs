use i3utils::tree::{Geometry, NodeKind, NotAWindow, TreeNode, Window};

fn node(id: i64, kind: NodeKind, nodes: Vec<TreeNode>) -> TreeNode {
    let focus = nodes.iter().map(|n| n.id).collect();
    TreeNode {
        id,
        name: Some(format!("node {}", id)),
        class: None,
        instance: None,
        geometry: Geometry { x: 0, y: 0, width: 100, height: 50 },
        kind,
        window: if kind == NodeKind::Window { Some(id as i32 + 1000) } else { None },
        nodes,
        focus,
        focused: false,
    }
}

fn ids(nodes: &[&TreeNode]) -> Vec<i64> {
    nodes.iter().map(|n| n.id).collect()
}

#[test]
fn classify_puts_dock_layout_first() {
    assert_eq!(NodeKind::classify(true, true), NodeKind::DockArea);
    assert_eq!(NodeKind::classify(false, true), NodeKind::DockArea);
    assert_eq!(NodeKind::classify(true, false), NodeKind::Window);
    assert_eq!(NodeKind::classify(false, false), NodeKind::Container);
}

#[test]
fn traverse_visits_last_child_first() {
    let tree = node(
        1,
        NodeKind::Container,
        vec![
            node(2, NodeKind::Container, vec![node(3, NodeKind::Window, vec![])]),
            node(4, NodeKind::Window, vec![]),
            node(5, NodeKind::Container, vec![
                node(6, NodeKind::Window, vec![]),
                node(7, NodeKind::Window, vec![]),
            ]),
        ],
    );
    assert_eq!(ids(&tree.traverse()), vec![1, 5, 7, 6, 4, 2, 3]);
}

#[test]
fn traverse_of_a_leaf_is_the_leaf() {
    let tree = node(9, NodeKind::Window, vec![]);
    assert_eq!(ids(&tree.traverse()), vec![9]);
}

#[test]
fn traverse_stops_at_a_dock_area() {
    let tree = node(
        1,
        NodeKind::Container,
        vec![
            node(2, NodeKind::DockArea, vec![node(3, NodeKind::Window, vec![])]),
            node(4, NodeKind::Window, vec![]),
        ],
    );
    assert_eq!(ids(&tree.traverse()), vec![1, 4, 2]);
}

#[test]
fn window_set_leaves_out_what_is_below_a_dock_area() {
    let tree = node(
        1,
        NodeKind::Container,
        vec![
            node(
                2,
                NodeKind::DockArea,
                vec![
                    node(3, NodeKind::Window, vec![]),
                    node(4, NodeKind::Container, vec![node(5, NodeKind::Window, vec![])]),
                ],
            ),
            node(6, NodeKind::Container, vec![node(7, NodeKind::Window, vec![])]),
        ],
    );
    let windows: Vec<i64> = tree.get_windows().iter().map(|w| w.id).collect();
    assert_eq!(windows, vec![7]);
}

#[test]
fn window_set_asks_for_width_and_a_name_that_is_not_empty() {
    let mut no_width = node(2, NodeKind::Window, vec![]);
    no_width.geometry.width = 0;
    let mut no_name = node(3, NodeKind::Window, vec![]);
    no_name.name = None;
    let mut empty_name = node(4, NodeKind::Window, vec![]);
    empty_name.name = Some(String::new());
    let mut good = node(5, NodeKind::Window, vec![]);
    good.class = Some("Firefox".to_string());
    good.focused = true;
    let tree = node(1, NodeKind::Container, vec![no_width, no_name, empty_name, good]);
    let windows = tree.get_windows();
    assert_eq!(
        windows,
        vec![
            Window {
                id: 5,
                name: Some("node 5".to_string()),
                class: Some("Firefox".to_string()),
                focused: true,
            },
        ]
    );
}

#[test]
fn window_set_does_not_look_at_the_height() {
    let mut flat = node(2, NodeKind::Window, vec![]);
    flat.geometry.height = 0;
    let tree = node(1, NodeKind::Container, vec![flat]);
    let windows: Vec<i64> = tree.get_windows().iter().map(|w| w.id).collect();
    assert_eq!(windows, vec![2]);
}

#[test]
fn a_window_with_an_empty_name_alone_gives_an_empty_window_set() {
    let mut unnamed = node(2, NodeKind::Window, vec![]);
    unnamed.name = Some(String::new());
    unnamed.geometry = Geometry { x: 0, y: 0, width: 1, height: 1 };
    let tree = node(1, NodeKind::Container, vec![unnamed]);
    assert_eq!(tree.get_windows(), vec![]);
}

#[test]
fn window_of_a_container_is_refused() {
    let container = node(1, NodeKind::Container, vec![]);
    assert_eq!(Window::try_from(&container), Err(NotAWindow));
    let dock = node(2, NodeKind::DockArea, vec![]);
    assert_eq!(Window::try_from(&dock), Err(NotAWindow));
    let window = node(3, NodeKind::Window, vec![]);
    assert_eq!(
        Window::try_from(&window),
        Ok(Window { id: 3, name: Some("node 3".to_string()), class: None, focused: false })
    );
}

#[test]
fn kinds_are_told_apart() {
    let window = node(3, NodeKind::Window, vec![]);
    assert!(window.is_window() && !window.is_container() && !window.is_dock_area());
    let container = node(1, NodeKind::Container, vec![]);
    assert!(!container.is_window() && container.is_container() && !container.is_dock_area());
    let dock = node(2, NodeKind::DockArea, vec![]);
    assert!(!dock.is_window() && !dock.is_container() && dock.is_dock_area());
}

#[test]
fn focus_chain_follows_the_first_entry_of_the_focus_order() {
    let mut tree = node(
        1,
        NodeKind::Container,
        vec![
            node(2, NodeKind::Container, vec![node(3, NodeKind::Window, vec![])]),
            node(4, NodeKind::Container, vec![
                node(5, NodeKind::Window, vec![]),
                node(6, NodeKind::Window, vec![]),
            ]),
        ],
    );
    tree.focus = vec![4, 2];
    tree.nodes[1].focus = vec![6, 5];
    assert_eq!(ids(&tree.focused_nodes()), vec![1, 4, 6]);
}

#[test]
fn focus_chain_ends_where_the_focus_order_names_no_child() {
    let mut tree = node(1, NodeKind::Container, vec![node(2, NodeKind::Window, vec![])]);
    tree.focus = vec![77, 2];
    assert_eq!(ids(&tree.focused_nodes()), vec![1]);
    assert!(tree.focus_child().is_none());
}

#[test]
fn focus_child_is_the_first_child_with_the_identifier() {
    let mut first = node(2, NodeKind::Window, vec![]);
    first.name = Some("first".to_string());
    let mut second = node(2, NodeKind::Window, vec![]);
    second.name = Some("second".to_string());
    let mut tree = node(1, NodeKind::Container, vec![node(3, NodeKind::Window, vec![]), first, second]);
    tree.focus = vec![2];
    assert_eq!(tree.focus_child().unwrap().name, Some("first".to_string()));
}

#[test]
fn focused_node_is_found_with_its_depth() {
    let mut tree = node(
        1,
        NodeKind::Container,
        vec![node(2, NodeKind::Container, vec![node(3, NodeKind::Container, vec![
            node(4, NodeKind::Window, vec![]),
        ])])],
    );
    tree.nodes[0].nodes[0].nodes[0].focused = true;
    let (depth, found) = tree.focused_node().unwrap();
    assert_eq!(depth, 3);
    assert_eq!(found.id, 4);
}

#[test]
fn focused_node_is_the_first_focused_of_the_chain() {
    let mut tree = node(
        1,
        NodeKind::Container,
        vec![node(2, NodeKind::Container, vec![node(3, NodeKind::Window, vec![])])],
    );
    tree.nodes[0].focused = true;
    tree.nodes[0].nodes[0].focused = true;
    let (depth, found) = tree.focused_node().unwrap();
    assert_eq!((depth, found.id), (1, 2));
}

#[test]
fn focused_root_has_depth_zero() {
    let mut tree = node(1, NodeKind::Container, vec![]);
    tree.focused = true;
    let (depth, found) = tree.focused_node().unwrap();
    assert_eq!((depth, found.id), (0, 1));
}

#[test]
fn no_focused_node_off_the_chain() {
    let mut tree = node(
        1,
        NodeKind::Container,
        vec![node(2, NodeKind::Window, vec![]), node(3, NodeKind::Window, vec![])],
    );
    tree.focus = vec![2, 3];
    tree.nodes[1].focused = true;
    assert!(tree.focused_node().is_none());
}

#[test]
fn a_new_node_is_classified_by_its_window_and_layout() {
    let geometry = Geometry { x: 1, y: 2, width: 3, height: 4 };
    let window = TreeNode::new(
        7,
        Some("term".to_string()),
        Some("XTerm".to_string()),
        Some("xterm".to_string()),
        geometry,
        Some(4711),
        false,
        vec![],
        vec![],
        true,
    );
    assert_eq!(window.kind, NodeKind::Window);
    assert_eq!(window.window, Some(4711));
    assert_eq!(window.id, 7);
    assert_eq!(window.name, Some("term".to_string()));
    assert_eq!(window.class, Some("XTerm".to_string()));
    assert_eq!(window.instance, Some("xterm".to_string()));
    assert_eq!(window.geometry, geometry);
    assert!(window.focused);
    let container = TreeNode::new(8, None, None, None, geometry, None, false, vec![window], vec![7], false);
    assert_eq!(container.kind, NodeKind::Container);
    assert_eq!(container.nodes.len(), 1);
    assert_eq!(container.focus, vec![7]);
    let dock = TreeNode::new(9, None, None, None, geometry, Some(1), true, vec![], vec![], false);
    assert_eq!(dock.kind, NodeKind::DockArea);
    assert_eq!(dock.window, Some(1));
}
