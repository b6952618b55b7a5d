use i3utils::document::digit_runs_fit_in;
use i3utils::restore::{owning_process, Reply, Request, Restore};
use i3utils::store::Util;

/// Drives a restore to its end and returns what it asked for. `owned` says
/// which windows have an owner; `marker` is what the marker names.
fn drive(mut restore: Restore, owned: &[u32], marker: Option<i32>) -> Vec<Request> {
    let mut asked = Vec::new();
    for _ in 0..1000 {
        let request = restore.request();
        asked.push(request);
        let reply = match request {
            Request::Owner(id) => {
                Reply::Owner(if owned.contains(&id) { Some(4711) } else { None })
            }
            Request::ReadMarker => Reply::Marker(marker),
            Request::Finished | Request::Failed => return asked,
            _ => Reply::Done,
        };
        restore.advance(reply);
    }
    panic!("the restore did not end");
}

#[test]
fn windows_are_shown_in_reverse_order() {
    let asked = drive(Restore::new(vec![1, 2, 3]), &[1, 2, 3], None);
    let shown: Vec<u32> = asked
        .iter()
        .filter_map(|r| if let Request::Show(id) = r { Some(*id) } else { None })
        .collect();
    assert_eq!(shown, vec![3, 2, 1]);
    let hidden: Vec<u32> = asked
        .iter()
        .filter_map(|r| if let Request::Hide(id) = r { Some(*id) } else { None })
        .collect();
    assert_eq!(hidden, vec![1, 2, 3]);
}

#[test]
fn a_full_restore_runs_the_steps_in_order() {
    let asked = drive(Restore::new(vec![7, 8]), &[8], Some(99));
    assert_eq!(
        asked,
        vec![
            Request::Hide(7),
            Request::Owner(7),
            Request::Destroy(7),
            Request::Hide(8),
            Request::Owner(8),
            Request::Flush,
            Request::AppendLayout,
            Request::Show(8),
            Request::Show(7),
            Request::Flush,
            Request::ReadMarker,
            Request::FocusWindow(99),
            Request::Clear,
            Request::Finished,
        ]
    );
}

#[test]
fn a_restore_without_windows_still_appends_and_clears() {
    let asked = drive(Restore::new(vec![]), &[], None);
    assert_eq!(
        asked,
        vec![
            Request::Flush,
            Request::AppendLayout,
            Request::Flush,
            Request::ReadMarker,
            Request::Clear,
            Request::Finished,
        ]
    );
}

#[test]
fn a_failure_gives_the_restore_up_and_keeps_the_backup() {
    let mut restore = Restore::new(vec![5]);
    assert_eq!(restore.request(), Request::Hide(5));
    restore.advance(Reply::Failed);
    assert_eq!(restore.request(), Request::Failed);
    restore.advance(Reply::Done);
    assert_eq!(restore.request(), Request::Failed);
}

#[test]
fn a_failure_at_any_step_ends_without_clearing() {
    for failing in 0..12 {
        let mut restore = Restore::new(vec![1, 2]);
        let mut step = 0;
        let mut cleared = false;
        loop {
            let request = restore.request();
            if request == Request::Clear {
                cleared = true;
            }
            if request == Request::Finished || request == Request::Failed {
                assert_eq!(request, Request::Failed);
                assert!(!cleared || failing == 11);
                break;
            }
            let reply = if step == failing {
                Reply::Failed
            } else {
                match request {
                    Request::Owner(_) => Reply::Owner(Some(1)),
                    Request::ReadMarker => Reply::Marker(Some(3)),
                    _ => Reply::Done,
                }
            };
            restore.advance(reply);
            step += 1;
        }
    }
}

#[test]
fn clearing_what_is_already_gone_is_no_failure() {
    let mut restore = Restore::new(vec![]);
    for _ in 0..3 {
        restore.advance(Reply::Done);
    }
    assert_eq!(restore.request(), Request::ReadMarker);
    restore.advance(Reply::Marker(None));
    assert_eq!(restore.request(), Request::Clear);
    restore.advance(Reply::Missing);
    assert_eq!(restore.request(), Request::Finished);
    restore.advance(Reply::Missing);
    assert_eq!(restore.request(), Request::Finished);
}

#[test]
fn an_answer_that_does_not_fit_gives_the_restore_up() {
    let mut restore = Restore::new(vec![5]);
    restore.advance(Reply::Owner(Some(1)));
    assert_eq!(restore.request(), Request::Failed);
    let mut restore = Restore::new(vec![5]);
    restore.advance(Reply::Missing);
    assert_eq!(restore.request(), Request::Failed);
}

#[test]
fn owning_process_is_the_first_number_of_the_property() {
    assert_eq!(owning_process(&vec![4711, 0, 0]), Some(4711));
    assert_eq!(owning_process(&vec![1]), Some(1));
    assert_eq!(owning_process(&vec![]), None);
}

#[test]
fn windows_are_collected_from_nodes_with_window_properties() {
    let tree = json::parse(
        r#"{"window": null, "nodes": [
            {"window": 1, "window_properties": {}, "nodes": []},
            {"window": 2, "window_properties": {"class": "x"}, "nodes": [
                {"window": 3, "window_properties": {}},
                {"window": 4}
            ]},
            {"window": 5, "window_properties": null},
            {"window": -6, "window_properties": {}},
            {"window": 7.5, "window_properties": {}},
            {"window": 4294967296, "window_properties": {}},
            {"window": 4294967295, "window_properties": {}},
            {"window": "8", "window_properties": {}}
        ]}"#,
    )
    .unwrap();
    let asked = drive(Util::restore_workspace(&tree), &[1, 2, 3, 4294967295], None);
    let hidden: Vec<u32> = asked
        .iter()
        .filter_map(|r| if let Request::Hide(id) = r { Some(*id) } else { None })
        .collect();
    assert_eq!(hidden, vec![4294967295, 2, 3, 1]);
    let shown: Vec<u32> = asked
        .iter()
        .filter_map(|r| if let Request::Show(id) = r { Some(*id) } else { None })
        .collect();
    assert_eq!(shown, vec![1, 3, 2, 4294967295]);
}

#[test]
fn a_root_with_a_window_is_collected_first() {
    let tree = json::parse(
        r#"{"window": 9, "window_properties": {}, "nodes": [{"window": 1, "window_properties": {}}]}"#,
    )
    .unwrap();
    let restore = Util::restore_workspace(&tree);
    assert_eq!(restore.request(), Request::Hide(9));
}

#[test]
fn the_tree_is_read_from_its_text() {
    let tree = Util::raw_get_tree(r#"{"window": 9, "window_properties": {}}"#).unwrap();
    assert_eq!(Util::restore_workspace(&tree).request(), Request::Hide(9));
    assert_eq!(
        Util::raw_get_tree("{\"window\": ").err(),
        Some(i3utils::error::UtilError::Document)
    );
    assert_eq!(Util::raw_get_tree("").err(), Some(i3utils::error::UtilError::Document));
}

#[test]
fn a_run_of_digits_too_long_for_the_parser_is_refused() {
    let zeros = "0".repeat(32769);
    let text = format!("{{\"percent\": 0.{}}}", zeros);
    assert_eq!(Util::raw_get_tree(&text).err(), Some(i3utils::error::UtilError::Document));
    let text = format!("{{\"name\": \"{}\"}}", "7".repeat(32768));
    assert_eq!(Util::raw_get_tree(&text).err(), Some(i3utils::error::UtilError::Document));
}

#[test]
fn the_longest_run_of_digits_that_fits_is_read() {
    let text = format!("{{\"window\": 5, \"percent\": 0.{}}}", "0".repeat(32766));
    let tree = Util::raw_get_tree(&text).unwrap();
    assert_eq!(tree["window"].as_u32(), Some(5));
    let text = format!("[{}, {}]", "1".repeat(32767), "2".repeat(32767));
    assert!(Util::raw_get_tree(&text).is_ok());
}

#[test]
fn digit_runs_are_measured() {
    assert!(digit_runs_fit_in(""));
    assert!(digit_runs_fit_in("no digits"));
    assert!(digit_runs_fit_in(&"9".repeat(32767)));
    assert!(!digit_runs_fit_in(&"9".repeat(32768)));
    assert!(digit_runs_fit_in(&format!("{}x{}", "9".repeat(32767), "9".repeat(32767))));
    assert!(!digit_runs_fit_in(&format!("x{}", "0".repeat(40000))));
}
