use i3utils::audio::{switch_sink_next, volume_down, volume_up, Sink, SinkSwitch};
use i3utils::command::{focus_command, focus_window_command, BatchBuilder};
use i3utils::error::UtilError;
use i3utils::store::{parse_marker, Util};
use i3utils::text::{integer_text, join, natural_text, same_text};
use i3utils::tree::{Geometry, NodeKind, TreeNode};

#[test]
fn batch_joins_commands_with_semicolons() {
    let mut batch = BatchBuilder::new();
    assert_eq!(batch.build(), "");
    assert_eq!(batch.len(), 0);
    batch.push("layout tabbed");
    assert_eq!(batch.build(), "layout tabbed");
    batch.push("focus parent");
    batch.push("");
    batch.push("kill");
    assert_eq!(batch.build(), "layout tabbed;focus parent;;kill");
    assert_eq!(batch.len(), 4);
}

#[test]
fn focus_commands_name_the_identifier() {
    assert_eq!(focus_command(94271), "[con_id=\"94271\"] focus");
    assert_eq!(focus_command(-3), "[con_id=\"-3\"] focus");
    assert_eq!(focus_command(0), "[con_id=\"0\"] focus");
    assert_eq!(focus_window_command(35651594), "[id=\"35651594\"] focus");
    assert_eq!(focus_window_command(i32::MIN), "[id=\"-2147483648\"] focus");
}

#[test]
fn integers_are_written_in_decimal() {
    assert_eq!(integer_text(0), "0");
    assert_eq!(integer_text(7), "7");
    assert_eq!(integer_text(10), "10");
    assert_eq!(integer_text(-10), "-10");
    assert_eq!(integer_text(1234567890), "1234567890");
    assert_eq!(integer_text(i64::MAX), "9223372036854775807");
    assert_eq!(integer_text(i64::MIN), "-9223372036854775808");
    assert_eq!(natural_text(u64::MAX), "18446744073709551615");
    assert_eq!(natural_text(109), "109");
}

#[test]
fn join_and_same_text() {
    assert_eq!(join(&vec![], ", "), "");
    assert_eq!(join(&vec!["a".to_string()], ", "), "a");
    assert_eq!(join(&vec!["a".to_string(), "b".to_string(), "c".to_string()], ", "), "a, b, c");
    assert!(same_text("abc", "abc"));
    assert!(!same_text("abc", "abd"));
    assert!(!same_text("abc", "ab"));
    assert!(same_text("", ""));
}

#[test]
fn paths_lie_in_the_cache_directory() {
    let util = Util::with_cache_dir("/tmp/cache/i3ctl");
    assert_eq!(util.cache_dir(), "/tmp/cache/i3ctl");
    assert_eq!(util.layout_file(), "/tmp/cache/i3ctl/workspace_1_layout.json");
    assert_eq!(util.focus_file(), "/tmp/cache/i3ctl/focused.json");
    assert_eq!(
        util.append_layout_command(),
        "append_layout /tmp/cache/i3ctl/workspace_1_layout.json"
    );
}

#[test]
fn the_default_cache_directory_ends_in_the_name_of_the_program() {
    if let Ok(util) = Util::new() {
        assert!(util.cache_dir().ends_with("i3ctl"));
        assert!(util.layout_file().ends_with("i3ctl/workspace_1_layout.json"));
    }
}

#[test]
fn marker_is_parsed_as_a_decimal_window_identifier() {
    assert_eq!(parse_marker("35651594"), Some(35651594));
    assert_eq!(parse_marker("0"), Some(0));
    assert_eq!(parse_marker("-12"), Some(-12));
    assert_eq!(parse_marker("+12"), Some(12));
    assert_eq!(parse_marker("0000000000000000000042"), Some(42));
    assert_eq!(parse_marker("2147483647"), Some(i32::MAX));
    assert_eq!(parse_marker("-2147483648"), Some(i32::MIN));
}

#[test]
fn a_bad_marker_names_no_window() {
    assert_eq!(parse_marker(""), None);
    assert_eq!(parse_marker("-"), None);
    assert_eq!(parse_marker("+"), None);
    assert_eq!(parse_marker("12a"), None);
    assert_eq!(parse_marker(" 12"), None);
    assert_eq!(parse_marker("12 "), None);
    assert_eq!(parse_marker("1-2"), None);
    assert_eq!(parse_marker("--2"), None);
    assert_eq!(parse_marker("0x10"), None);
    assert_eq!(parse_marker("2147483648"), None);
    assert_eq!(parse_marker("-2147483649"), None);
    assert_eq!(parse_marker("99999999999999999999999999"), None);
    assert_eq!(parse_marker("٣"), None);
}

#[test]
fn marker_round_trip() {
    for id in [0, 1, -1, 35651594, i32::MAX, i32::MIN] {
        assert_eq!(parse_marker(&integer_text(id as i64)), Some(id));
    }
}

fn leaf(window: Option<i32>, focused: bool) -> TreeNode {
    TreeNode {
        id: 2,
        name: None,
        class: None,
        instance: None,
        geometry: Geometry { x: 0, y: 0, width: 0, height: 0 },
        kind: NodeKind::classify(window.is_some(), false),
        window,
        nodes: vec![],
        focus: vec![],
        focused,
    }
}

#[test]
fn marker_holds_the_window_of_the_focused_node() {
    assert_eq!(Util::save_layout(&leaf(Some(35651594), true)), Some("35651594".to_string()));
    assert_eq!(Util::save_layout(&leaf(Some(-4), true)), Some("-4".to_string()));
    assert_eq!(Util::save_layout(&leaf(None, true)), None);
    assert_eq!(Util::save_layout(&leaf(Some(35651594), false)), None);
}

#[test]
fn volume_changes_are_signed_percentages() {
    assert_eq!(volume_up(None), "+5%");
    assert_eq!(volume_down(None), "-5%");
    assert_eq!(volume_up(Some(12)), "+12%");
    assert_eq!(volume_down(Some(0)), "-0%");
    assert_eq!(volume_up(Some(255)), "+255%");
}

fn sinks() -> Vec<Sink> {
    vec![
        Sink { index: 41, name: "speakers".to_string() },
        Sink { index: 57, name: "headset".to_string() },
        Sink { index: 60, name: "hdmi".to_string() },
    ]
}

#[test]
fn the_next_sink_follows_the_current_one() {
    assert_eq!(
        switch_sink_next(&sinks(), "headset", vec![3, 9]),
        Some(SinkSwitch { sink: "hdmi".to_string(), inputs: vec![3, 9] })
    );
    assert_eq!(
        switch_sink_next(&sinks(), "hdmi", vec![]),
        Some(SinkSwitch { sink: "speakers".to_string(), inputs: vec![] })
    );
}

#[test]
fn an_unknown_current_sink_switches_nothing() {
    assert_eq!(switch_sink_next(&sinks(), "bluetooth", vec![1]), None);
    assert_eq!(switch_sink_next(&vec![], "speakers", vec![1]), None);
}

#[test]
fn a_single_sink_follows_itself() {
    let one = vec![Sink { index: 1, name: "only".to_string() }];
    assert_eq!(
        switch_sink_next(&one, "only", vec![2]),
        Some(SinkSwitch { sink: "only".to_string(), inputs: vec![2] })
    );
}

#[test]
fn a_lookup_that_found_a_directory_gives_the_controller_for_it() {
    let util = Util::in_directory(Some("/home/u/.cache/i3ctl".to_string())).unwrap();
    assert_eq!(util.cache_dir(), "/home/u/.cache/i3ctl");
    assert_eq!(util.focus_file(), "/home/u/.cache/i3ctl/focused.json");
}

#[test]
fn a_lookup_that_found_no_directory_is_reported() {
    assert_eq!(Util::in_directory(None).err(), Some(UtilError::NoCacheDirectory));
}
