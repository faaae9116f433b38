use lox_scanner::lox::{error, report, state};
use lox_scanner::text::push_decimal;

fn decimal(n: usize) -> String {
    let mut out = String::new();
    push_decimal(&mut out, n);
    out
}

#[test]
fn a_fresh_state_is_clean() {
    let mut diagnostics = state();
    assert!(!diagnostics.has_error());
    assert!(diagnostics.take_output().is_empty());
}

#[test]
fn error_sets_the_flag_and_formats_the_line() {
    let mut diagnostics = state();
    error(&mut diagnostics, 3, "something is off");
    assert!(diagnostics.has_error());
    assert_eq!(
        diagnostics.take_output(),
        vec![String::from("[line 3] Error : something is off")]
    );
}

#[test]
fn report_names_the_location() {
    let mut diagnostics = state();
    report(&mut diagnostics, 120, "at end", "expect expression");
    report(&mut diagnostics, 7, "", "");
    assert!(diagnostics.has_error());
    assert_eq!(
        diagnostics.take_output(),
        vec![
            String::from("[line 120] Error at end: expect expression"),
            String::from("[line 7] Error : "),
        ]
    );
}

#[test]
fn reset_clears_the_flag_and_keeps_the_lines() {
    let mut diagnostics = state();
    error(&mut diagnostics, 1, "first");
    diagnostics.reset();
    assert!(!diagnostics.has_error());
    error(&mut diagnostics, 2, "second");
    assert!(diagnostics.has_error());
    diagnostics.reset();
    assert!(!diagnostics.has_error());
    assert_eq!(
        diagnostics.take_output(),
        vec![String::from("[line 1] Error : first"), String::from("[line 2] Error : second")]
    );
}

#[test]
fn taking_the_output_empties_it_and_keeps_the_flag() {
    let mut diagnostics = state();
    error(&mut diagnostics, 1, "first");
    assert_eq!(diagnostics.take_output().len(), 1);
    assert!(diagnostics.has_error());
    assert!(diagnostics.take_output().is_empty());
    error(&mut diagnostics, 2, "second");
    assert_eq!(diagnostics.take_output(), vec![String::from("[line 2] Error : second")]);
}

#[test]
fn numbers_are_written_in_decimal() {
    assert_eq!(decimal(0), "0");
    assert_eq!(decimal(7), "7");
    assert_eq!(decimal(10), "10");
    assert_eq!(decimal(909), "909");
    assert_eq!(decimal(1234567890), "1234567890");
    assert_eq!(decimal(usize::MAX), usize::MAX.to_string());
}

#[test]
fn a_number_is_appended_to_what_is_there() {
    let mut out = String::from("line ");
    push_decimal(&mut out, 42);
    push_decimal(&mut out, 0);
    assert_eq!(out, "line 420");
}
