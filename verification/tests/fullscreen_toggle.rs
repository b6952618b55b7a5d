use i3utils::store::Util;
use i3utils::toggle::{ToggleAction, ToggleEvent, ToggleState};
use i3utils::tree::{Geometry, NodeKind, TreeNode};

/// A chain of nodes, one below the other, with the given kinds; the node at
/// `focused` has the focus.
fn chain(kinds: &[NodeKind], focused: Option<usize>) -> TreeNode {
    let mut below: Option<TreeNode> = None;
    for depth in (0..kinds.len()).rev() {
        let id = 100 + depth as i64;
        let nodes: Vec<TreeNode> = below.take().into_iter().collect();
        below = Some(TreeNode {
            id,
            name: Some(format!("level {}", depth)),
            class: None,
            instance: None,
            geometry: Geometry { x: 0, y: 0, width: 10, height: 10 },
            kind: kinds[depth],
            window: if kinds[depth] == NodeKind::Window { Some(7) } else { None },
            focus: nodes.iter().map(|n| n.id).collect(),
            nodes,
            focused: focused == Some(depth),
        });
    }
    below.unwrap()
}

fn request(tree: &TreeNode) -> Option<String> {
    Util::fullscreen(tree).map(|batch| batch.build())
}

use NodeKind::{Container as C, DockArea as D, Window as W};

#[test]
fn focused_window_at_depth_five_is_the_only_level_made_tabbed() {
    let tree = chain(&[C, C, C, C, C, W], Some(5));
    assert_eq!(request(&tree), Some("layout tabbed;[con_id=\"105\"] focus".to_string()));
    let batch = Util::fullscreen(&tree).unwrap();
    assert_eq!(batch.len(), 2);
}

#[test]
fn containers_between_the_fixed_levels_and_the_window_are_made_tabbed() {
    let tree = chain(&[C, C, C, C, C, C, C, W], Some(7));
    assert_eq!(
        request(&tree),
        Some(
            "layout tabbed;focus parent;layout tabbed;focus parent;layout tabbed;[con_id=\"107\"] focus"
                .to_string()
        )
    );
}

#[test]
fn a_window_at_depth_four_is_not_a_fixed_level() {
    let tree = chain(&[C, C, C, C, W, C, W], Some(6));
    assert_eq!(
        request(&tree),
        Some(
            "layout tabbed;focus parent;layout tabbed;focus parent;layout tabbed;[con_id=\"106\"] focus"
                .to_string()
        )
    );
}

#[test]
fn a_dock_area_ends_the_fixed_levels() {
    let tree = chain(&[C, D, C, W], Some(3));
    assert_eq!(
        request(&tree),
        Some(
            "layout tabbed;focus parent;layout tabbed;focus parent;layout tabbed;[con_id=\"103\"] focus"
                .to_string()
        )
    );
}

#[test]
fn a_focused_node_within_the_fixed_levels_gets_one_layout_command() {
    let tree = chain(&[C, C, C, W], Some(3));
    assert_eq!(request(&tree), Some("layout tabbed;[con_id=\"103\"] focus".to_string()));
    let tree = chain(&[C, C, C, C, C, W], Some(2));
    assert_eq!(
        request(&tree),
        Some("layout tabbed;focus parent;layout tabbed;[con_id=\"102\"] focus".to_string())
    );
}

#[test]
fn without_a_focused_node_nothing_is_sent() {
    let tree = chain(&[C, C, C, C, C, W], None);
    assert!(Util::fullscreen(&tree).is_none());
}

#[test]
fn toggle_without_backup_saves_then_emulates() {
    let state = ToggleState::initial(false);
    assert_eq!(state, ToggleState::Normal);
    let (state, action) = Util::toggle_fullscreen(state, ToggleEvent::Toggle);
    assert_eq!((state, action), (ToggleState::BackingUp, ToggleAction::Save));
    let (state, action) = Util::toggle_fullscreen(state, ToggleEvent::Succeeded);
    assert_eq!((state, action), (ToggleState::Fullscreen, ToggleAction::Emulate));
    let (state, action) = Util::toggle_fullscreen(state, ToggleEvent::Succeeded);
    assert_eq!((state, action), (ToggleState::Fullscreen, ToggleAction::Stop));
}

#[test]
fn toggle_with_backup_restores() {
    let state = ToggleState::initial(true);
    assert_eq!(state, ToggleState::Fullscreen);
    let (state, action) = Util::toggle_fullscreen(state, ToggleEvent::Toggle);
    assert_eq!((state, action), (ToggleState::Restoring, ToggleAction::Restore));
    let (state, action) = Util::toggle_fullscreen(state, ToggleEvent::Succeeded);
    assert_eq!((state, action), (ToggleState::Normal, ToggleAction::Stop));
}

#[test]
fn a_failed_emulation_is_answered_by_a_restore() {
    let (state, action) = Util::toggle_fullscreen(ToggleState::Fullscreen, ToggleEvent::Failed);
    assert_eq!((state, action), (ToggleState::Restoring, ToggleAction::Restore));
}

#[test]
fn a_failed_save_ends_the_invocation_without_emulation_or_restore() {
    let (state, action) = Util::toggle_fullscreen(ToggleState::initial(false), ToggleEvent::Toggle);
    assert_eq!(action, ToggleAction::Save);
    let (state, action) = Util::toggle_fullscreen(state, ToggleEvent::Failed);
    assert_eq!((state, action), (ToggleState::Normal, ToggleAction::Fail));
}

#[test]
fn a_failed_restore_keeps_the_backup() {
    let (state, action) = Util::toggle_fullscreen(ToggleState::Restoring, ToggleEvent::Failed);
    assert_eq!((state, action), (ToggleState::Fullscreen, ToggleAction::Fail));
}

#[test]
fn events_that_a_state_does_not_wait_for_change_nothing() {
    for (state, event) in [
        (ToggleState::Normal, ToggleEvent::Succeeded),
        (ToggleState::Normal, ToggleEvent::Failed),
        (ToggleState::BackingUp, ToggleEvent::Toggle),
        (ToggleState::Restoring, ToggleEvent::Toggle),
    ] {
        assert_eq!(Util::toggle_fullscreen(state, event), (state, ToggleAction::Stop));
    }
}

#[test]
fn toggling_fullscreen_saves_emulates_and_keeps_the_focus() {
    let tree = chain(&[C, C, C, C, C, W], Some(5));
    let (state, action) = Util::toggle_fullscreen(ToggleState::initial(false), ToggleEvent::Toggle);
    assert_eq!(action, ToggleAction::Save);
    assert_eq!(Util::save_layout(&tree), Some("7".to_string()));
    let (_, action) = Util::toggle_fullscreen(state, ToggleEvent::Succeeded);
    assert_eq!(action, ToggleAction::Emulate);
    let sent = request(&tree).unwrap();
    assert_eq!(sent.matches("layout tabbed").count(), 1);
    assert!(sent.ends_with("[con_id=\"105\"] focus"));
}
