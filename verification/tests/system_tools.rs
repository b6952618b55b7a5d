use i3utils::audio::{default_sink, list_inputs, list_sinks, Sink};
use i3utils::error::UtilError;
use i3utils::monitor::{get_brightness, get_gamma, get_primary_monitor};
use i3utils::pattern::compile;
use i3utils::sys::{captured, captured_numbers, first_captured, first_matching, pidof};
use i3utils::text::parse_u32;

fn lines(text: &[&str]) -> Vec<String> {
    text.iter().map(|line| line.to_string()).collect()
}

#[test]
fn natural_numbers_are_read() {
    assert_eq!(parse_u32("0"), Some(0));
    assert_eq!(parse_u32("41"), Some(41));
    assert_eq!(parse_u32("+41"), Some(41));
    assert_eq!(parse_u32("007"), Some(7));
    assert_eq!(parse_u32("4294967295"), Some(u32::MAX));
    assert_eq!(parse_u32("4294967296"), None);
    assert_eq!(parse_u32("-1"), None);
    assert_eq!(parse_u32("-0"), None);
    assert_eq!(parse_u32(""), None);
    assert_eq!(parse_u32("+"), None);
    assert_eq!(parse_u32("4 1"), None);
    assert_eq!(parse_u32("41\n"), None);
}

#[test]
fn sinks_are_listed_with_index_and_name() {
    let printed = lines(&[
        "41\talsa_output.pci-0000_00_1f.3.analog-stereo\tPipeWire\ts32le 2ch 48000Hz\tSUSPENDED",
        "not a sink",
        "57\tbluez_output.AA_BB.1\tPipeWire\ts16le 2ch 48000Hz\tRUNNING",
        "60\tother\tPulseAudio\ts16le",
    ]);
    assert_eq!(
        list_sinks(&printed),
        Ok(vec![
            Sink { index: 41, name: "alsa_output.pci-0000_00_1f.3.analog-stereo".to_string() },
            Sink { index: 57, name: "bluez_output.AA_BB.1".to_string() },
        ])
    );
    assert_eq!(list_sinks(&lines(&[])), Ok(vec![]));
}

#[test]
fn a_sink_index_that_does_not_fit_is_reported() {
    let printed = lines(&[
        "41\tfirst\tPipeWire\tx",
        "99999999999\tsecond\tPipeWire\tx",
        "88888888888\tthird\tPipeWire\tx",
    ]);
    assert_eq!(list_sinks(&printed), Err(UtilError::Number("99999999999".to_string())));
}

#[test]
fn the_default_sink_is_named_by_the_first_line_that_names_one() {
    let printed = lines(&[
        "Server Name: PulseAudio (on PipeWire 0.3.65)",
        "Default Sink:   alsa_output.x",
        "Default Source: alsa_input.y",
        "Default Sink: later",
    ]);
    assert_eq!(default_sink(&printed), Ok("alsa_output.x".to_string()));
    assert_eq!(default_sink(&lines(&["Default Source: y"])), Err(UtilError::NotFound));
    assert_eq!(default_sink(&lines(&["Default Sink: "])), Err(UtilError::NotFound));
}

#[test]
fn inputs_are_the_indices_that_fit() {
    let printed = lines(&["5 x", "garbage", "abc 12 def", "99999999999 y", "7\ttab", "8  z"]);
    assert_eq!(list_inputs(&printed), Ok(vec![5, 12, 8]));
    assert_eq!(list_inputs(&lines(&[])), Ok(Vec::<u32>::new()));
}

#[test]
fn the_primary_monitor_is_the_one_at_the_origin() {
    let printed = lines(&[
        "Screen 0: minimum 8 x 8, current 3200 x 1080, maximum 32767 x 32767",
        "DP-1 connected 1280x1024+1920+0 (normal left inverted right) 376mm x 301mm",
        "HDMI-0 connected primary 1920x1080+0+0 (normal left inverted right) 527mm x 296mm",
        "DP-2 disconnected (normal left inverted right)",
    ]);
    assert_eq!(get_primary_monitor(&printed), Some("HDMI-0".to_string()));
    assert_eq!(get_primary_monitor(&lines(&["DP-2 disconnected"])), None);
    assert_eq!(get_primary_monitor(&lines(&[])), None);
}

#[test]
fn brightness_and_gamma_lines_are_found() {
    let printed = lines(&[
        "HDMI-0 connected primary 1920x1080+0+0",
        "\tGamma:      1.0:0.6:0.3",
        "\tBrightness: 0.85",
        "\tBrightness: 0.10",
    ]);
    assert_eq!(get_brightness(&printed), Ok("0.85".to_string()));
    assert_eq!(get_gamma(&printed), Ok("\tGamma:      1.0:0.6:0.3".to_string()));
    assert_eq!(get_brightness(&lines(&["nothing"])), Err(UtilError::NotFound));
    assert_eq!(get_gamma(&lines(&["nothing"])), Err(UtilError::NotFound));
}

#[test]
fn process_identifiers_are_the_words_that_are_numbers() {
    let words = lines(&["123", "x", "456", "-1", "+7", "4294967296", "0"]);
    assert_eq!(pidof(&words), vec![123, 456, 7, 0]);
    assert_eq!(pidof(&lines(&[])), Vec::<u32>::new());
}

#[test]
fn groups_are_captured_by_position() {
    let compiled = compile("(a+)(b+)?(c+)").unwrap();
    assert_eq!(captured(&compiled, "xaacc", 0), Some("aacc".to_string()));
    assert_eq!(captured(&compiled, "xaacc", 1), Some("aa".to_string()));
    assert_eq!(captured(&compiled, "xaacc", 2), None);
    assert_eq!(captured(&compiled, "xaacc", 3), Some("cc".to_string()));
    assert_eq!(captured(&compiled, "xaacc", 4), None);
    assert_eq!(captured(&compiled, "zzz", 0), None);
}

#[test]
fn first_capture_and_first_match_go_by_line_order() {
    let printed = lines(&["k=1", "j=2", "k=3"]);
    assert_eq!(first_captured(&printed, "k=([0-9])", 1), Ok(Some("1".to_string())));
    assert_eq!(first_captured(&printed, "j=([0-9])", 1), Ok(Some("2".to_string())));
    assert_eq!(first_captured(&printed, "z=([0-9])", 1), Ok(None));
    assert_eq!(first_captured(&printed, "k=([0-9])", 2), Ok(None));
    assert_eq!(first_matching(&printed, "=3"), Ok(Some("k=3".to_string())));
    assert_eq!(first_matching(&printed, "=4"), Ok(None));
    assert_eq!(captured_numbers(&printed, "k=([0-9])", 1), Ok(vec![1, 3]));
}

#[test]
fn an_invalid_pattern_is_reported_by_the_readers() {
    let printed = lines(&["a"]);
    let bad = Err(UtilError::Pattern("(".to_string()));
    assert_eq!(first_captured(&printed, "(", 0), bad);
    assert_eq!(first_matching(&printed, "("), Err(UtilError::Pattern("(".to_string())));
    assert_eq!(captured_numbers(&printed, "(", 0), Err(UtilError::Pattern("(".to_string())));
    assert_eq!(UtilError::Number("x1".to_string()).message(), "not a number: x1");
    assert_eq!(UtilError::NotFound.message(), "not found");
}

#[test]
fn compiling_reports_an_invalid_pattern() {
    assert_eq!(compile("a(").err(), Some(UtilError::Pattern("a(".to_string())));
    assert!(compile("a(b)").is_ok());
}
