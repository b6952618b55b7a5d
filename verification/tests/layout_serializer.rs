use i3utils::layout::build_tree;
use i3utils::store::Util;

fn capture(text: &str) -> String {
    build_tree(&json::parse(text).unwrap()).dump()
}

#[test]
fn empty_input_gives_the_empty_document() {
    assert_eq!(capture("[]"), "[]");
}

#[test]
fn what_is_no_array_gives_the_empty_document() {
    assert_eq!(capture("null"), "[]");
    assert_eq!(capture("{\"border\":\"normal\"}"), "[]");
    assert_eq!(capture("0"), "[]");
    assert_eq!(capture("17"), "[]");
    assert_eq!(capture("\"nodes\""), "[]");
}

#[test]
fn copied_attributes_come_in_the_fixed_order() {
    let source = r#"[{
        "workspace_layout": "default",
        "type": "con",
        "scratchpad_state": "none",
        "percent": 0.5,
        "orientation": "none",
        "name": "term",
        "layout": "splith",
        "geometry": {"x": 0, "y": 0, "width": 640, "height": 480},
        "fullscreen_mode": 0,
        "floating": "auto_off",
        "current_border_width": 2,
        "border": "normal",
        "nodes": []
    }]"#;
    assert_eq!(
        capture(source),
        concat_expected(&[
            r#"[{"border":"normal","current_border_width":2,"floating":"auto_off","#,
            r#""fullscreen_mode":0,"geometry":{"x":0,"y":0,"width":640,"height":480},"#,
            r#""layout":"splith","name":"term","orientation":"none","percent":0.5,"#,
            r#""scratchpad_state":"none","type":"con","workspace_layout":"default","nodes":[]}]"#,
        ])
    );
}

fn concat_expected(parts: &[&str]) -> String {
    parts.iter().map(|p| p.to_string()).collect()
}

#[test]
fn attributes_outside_the_list_are_dropped() {
    let source = r#"[{"id": 7, "border": "pixel", "urgent": false, "window": 12, "rect": {"x": 1}, "focus": [1, 2]}]"#;
    assert_eq!(capture(source), r#"[{"border":"pixel","nodes":[]}]"#);
}

#[test]
fn absent_attributes_stay_absent_and_null_is_kept() {
    let source = r#"[{"name": null, "percent": null}]"#;
    assert_eq!(capture(source), r#"[{"name":null,"percent":null,"nodes":[]}]"#);
}

#[test]
fn swallows_hold_anchored_class_and_instance() {
    let source = r#"[{"name": "x", "window_properties": {"title": "t", "instance": "Navigator", "class": "Firefox"}}]"#;
    assert_eq!(
        capture(source),
        r#"[{"name":"x","swallows":{"class":"^Firefox$","instance":"^Navigator$"},"nodes":[]}]"#
    );
}

#[test]
fn swallows_leave_out_a_property_that_is_no_string() {
    let source = r#"[{"window_properties": {"class": 3, "instance": "a.b"}}]"#;
    assert_eq!(capture(source), r#"[{"swallows":{"instance":"^a.b$"},"nodes":[]}]"#);
    let source = r#"[{"window_properties": {"class": "only"}}]"#;
    assert_eq!(capture(source), r#"[{"swallows":{"class":"^only$"},"nodes":[]}]"#);
}

#[test]
fn window_properties_that_are_no_object_give_empty_swallows() {
    assert_eq!(capture(r#"[{"window_properties": null}]"#), r#"[{"swallows":{},"nodes":[]}]"#);
    assert_eq!(capture(r#"[{"window_properties": {}}]"#), r#"[{"swallows":{},"nodes":[]}]"#);
}

#[test]
fn a_node_without_window_properties_has_no_swallows() {
    assert_eq!(capture(r#"[{"layout": "tabbed"}]"#), r#"[{"layout":"tabbed","nodes":[]}]"#);
}

#[test]
fn children_are_laid_out_in_order_and_depth() {
    let source = r#"[
        {"name": "a", "nodes": [
            {"name": "a1", "nodes": [{"name": "a11"}]},
            {"name": "a2", "window_properties": {"class": "C"}}
        ]},
        {"name": "b", "nodes": "none"}
    ]"#;
    assert_eq!(
        capture(source),
        concat_expected(&[
            r#"[{"name":"a","nodes":[{"name":"a1","nodes":[{"name":"a11","nodes":[]}]},"#,
            r#"{"name":"a2","swallows":{"class":"^C$"},"nodes":[]}]},"#,
            r#"{"name":"b","nodes":[]}]"#,
        ])
    );
}

#[test]
fn items_that_are_no_objects_become_bare_nodes() {
    assert_eq!(capture(r#"[1, "two", null, [3]]"#), r#"[{"nodes":[]},{"nodes":[]},{"nodes":[]},{"nodes":[]}]"#);
}

#[test]
fn capturing_a_capture_keeps_the_copied_attributes() {
    let source = r#"[{"border": "normal", "percent": 0.25, "geometry": {"x": 3, "y": 4}, "id": 9,
        "window_properties": {"class": "K"},
        "nodes": [{"name": "inner", "layout": "stacked", "marks": []}]}]"#;
    let once = build_tree(&json::parse(source).unwrap());
    let twice = build_tree(&once);
    let parsed = json::parse(source).unwrap();
    for key in ["border", "percent", "geometry"] {
        assert_eq!(once[0][key], parsed[0][key]);
        assert_eq!(twice[0][key], parsed[0][key]);
    }
    for key in ["name", "layout"] {
        assert_eq!(once[0]["nodes"][0][key], parsed[0]["nodes"][0][key]);
        assert_eq!(twice[0]["nodes"][0][key], parsed[0]["nodes"][0][key]);
    }
    assert!(!once[0].has_key("id"));
    assert!(!once[0].has_key("window_properties"));
    assert!(!once[0]["nodes"][0].has_key("marks"));
    assert!(once[0].has_key("swallows"));
    assert!(!twice[0].has_key("swallows"));
}

fn tree_with_workspaces() -> json::JsonValue {
    json::parse(
        r#"{"name": "root", "nodes": [
            {"name": "eDP-1", "nodes": [
                {"name": "topdock", "nodes": [{"name": "1", "nodes": [{"name": "decoy"}]}]},
                {"name": "content", "nodes": [
                    {"name": "2", "nodes": [{"name": "two"}]},
                    {"name": "1", "nodes": [{"name": "first", "border": "normal"}]}
                ]}
            ]},
            {"name": "HDMI-0", "nodes": [
                {"name": "content", "nodes": [
                    {"name": "1", "nodes": [{"name": "second"}]}
                ]}
            ]}
        ]}"#,
    )
    .unwrap()
}

#[test]
fn save_workspace_takes_the_first_workspace_of_that_name() {
    let tree = tree_with_workspaces();
    assert_eq!(
        Util::save_workspace(&tree, "1"),
        Some(r#"[{"name":"decoy","nodes":[]}]"#.to_string())
    );
    assert_eq!(
        Util::save_workspace(&tree, "2"),
        Some(r#"[{"name":"two","nodes":[]}]"#.to_string())
    );
}

#[test]
fn save_workspace_without_such_a_workspace_writes_nothing() {
    let tree = tree_with_workspaces();
    assert_eq!(Util::save_workspace(&tree, "3"), None);
    assert_eq!(Util::save_workspace(&tree, "content"), None);
    assert_eq!(Util::save_workspace(&json::parse("[]").unwrap(), "1"), None);
}

#[test]
fn save_workspace_of_an_empty_workspace_is_the_empty_document() {
    let tree = json::parse(r#"{"nodes": [{"nodes": [{"nodes": [{"name": "1", "nodes": []}]}]}]}"#).unwrap();
    assert_eq!(Util::save_workspace(&tree, "1"), Some("[]".to_string()));
    let tree = json::parse(r#"{"nodes": [{"nodes": [{"nodes": [{"name": "1"}]}]}]}"#).unwrap();
    assert_eq!(Util::save_workspace(&tree, "1"), Some("[]".to_string()));
}
