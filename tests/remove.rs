use rust_v7_lib::remove::{confirm_prompt, is_yes, must_confirm};
use rust_v7_lib::GetOptErr;

#[test]
fn confirm_only_readonly_without_force() {
    assert!(must_confirm(false, true));
    assert!(!must_confirm(true, true));
    assert!(!must_confirm(false, false));
    assert!(!must_confirm(true, false));
}

#[test]
fn prompt_names_the_file() {
    assert_eq!(confirm_prompt("notes.txt"), "rm: remove readonly file notes.txt?");
}

#[test]
fn yes_is_a_leading_y() {
    assert!(is_yes("y\n"));
    assert!(is_yes("yes"));
    assert!(!is_yes("Y"));
    assert!(!is_yes("n"));
    assert!(!is_yes(""));
    assert!(!is_yes(" y"));
}

#[test]
fn error_messages() {
    assert_eq!(GetOptErr::MissingArg('a').message(), "-a: expected an argument");
    assert_eq!(GetOptErr::MissingOpt.message(), "Missing option letter");
    assert_eq!(GetOptErr::UnknownOpt('z').message(), "-z: unknown option");
}
