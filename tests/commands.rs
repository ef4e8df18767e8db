use adb_control::command::{
    decimal_string, escape_text, help_command, join_args, keyevent_command, long_tap_command,
    roll_command, size_command, swipe_command, tap_command, text_command,
};

#[test]
fn tap_builds_input_tap() {
    assert_eq!(tap_command(100, 200), "input tap 100 200");
}

#[test]
fn tap_at_extreme_coordinates() {
    assert_eq!(tap_command(0, 4294967295), "input tap 0 4294967295");
}

#[test]
fn swipe_builds_input_swipe() {
    assert_eq!(swipe_command(10, 20, 300, 400, 500), "input swipe 10 20 300 400 500");
}

#[test]
fn long_tap_repeats_its_point() {
    assert_eq!(long_tap_command(5, 6, 700), "input swipe 5 6 5 6 700");
    assert_eq!(
        long_tap_command(5, 6, 700),
        swipe_command(5, 6, 5, 6, 700)
    );
}

#[test]
fn text_escapes_quotes() {
    assert_eq!(escape_text("He said \"hi\""), "He said \\\"hi\\\"");
    assert_eq!(text_command("He said \"hi\""), "input text He said \\\"hi\\\"");
}

#[test]
fn text_without_quotes_is_unchanged() {
    assert_eq!(escape_text("hello world"), "hello world");
    assert_eq!(escape_text(""), "");
    assert_eq!(escape_text("\"\""), "\\\"\\\"");
    assert_eq!(escape_text("é\"ü"), "é\\\"ü");
}

#[test]
fn keyevent_with_and_without_longpress() {
    assert_eq!(keyevent_command("KEYCODE_HOME", false), "input keyevent KEYCODE_HOME");
    assert_eq!(
        keyevent_command("26", true),
        "input keyevent 26 --longpress"
    );
}

#[test]
fn roll_builds_input_roll() {
    assert_eq!(roll_command(3, 4), "input roll 3 4");
}

#[test]
fn fixed_commands() {
    assert_eq!(size_command(), "wm size");
    assert_eq!(help_command(), "input --help");
}

#[test]
fn decimal_digits() {
    assert_eq!(decimal_string(0), "0");
    assert_eq!(decimal_string(9), "9");
    assert_eq!(decimal_string(10), "10");
    assert_eq!(decimal_string(1080), "1080");
    assert_eq!(decimal_string(4294967295), "4294967295");
}

#[test]
fn join_of_no_arguments_is_empty() {
    assert_eq!(join_args(&Vec::new()), "");
    assert_eq!(join_args(&vec![String::from("wm")]), "wm");
}
