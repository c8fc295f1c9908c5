use smartt::args::constants;
use smartt::args::help_text;
use smartt::args::resolve;
use smartt::args::should_print_zero;
use smartt::args::wants_help;
use smartt::args::UsageError;

fn argv(tokens: &[&str]) -> Vec<String> {
    tokens.iter().map(|t| t.to_string()).collect()
}

#[test]
fn minimal_invocation_uses_defaults() {
    let r = resolve(&argv(&["--name", "X", "--foo", "Y"]), &None).unwrap();
    assert_eq!(r.name, "X");
    assert_eq!(r.foo, "Y");
    assert_eq!(r.count, 1);
    assert_eq!(r.max, None);
}

#[test]
fn short_flags_work() {
    let r = resolve(&argv(&["-n", "ada", "-c", "3", "--foo", "z", "-m", "9"]), &None).unwrap();
    assert_eq!(r.name, "ada");
    assert_eq!(r.count, 3);
    assert_eq!(r.foo, "z");
    assert_eq!(r.max, Some(9));
}

#[test]
fn count_flag_overrides_default() {
    let r = resolve(&argv(&["--name", "X", "--foo", "Y", "--count", "5"]), &None).unwrap();
    assert_eq!(r.count, 5);
}

#[test]
fn env_supplies_foo_when_flag_absent() {
    let r = resolve(&argv(&["--name", "X"]), &Some("bar".to_string())).unwrap();
    assert_eq!(r.foo, "bar");
}

#[test]
fn foo_flag_takes_precedence_over_env() {
    let r = resolve(
        &argv(&["--name", "X", "--foo", "cli"]),
        &Some("env".to_string()),
    )
    .unwrap();
    assert_eq!(r.foo, "cli");
}

#[test]
fn max_zero_triggers_the_zero_line() {
    let r = resolve(&argv(&["--name", "X", "--foo", "Y", "--max", "0"]), &None).unwrap();
    assert_eq!(r.max, Some(0));
    assert!(should_print_zero(&r));
}

#[test]
fn max_seven_does_not_trigger_the_zero_line() {
    let r = resolve(&argv(&["--name", "X", "--foo", "Y", "--max", "7"]), &None).unwrap();
    assert_eq!(r.max, Some(7));
    assert!(!should_print_zero(&r));
}

#[test]
fn absent_max_does_not_trigger_the_zero_line() {
    let r = resolve(&argv(&["--name", "X", "--foo", "Y"]), &None).unwrap();
    assert!(!should_print_zero(&r));
}

#[test]
fn missing_name_is_a_usage_error() {
    let r = resolve(&argv(&["--foo", "y"]), &None);
    assert_eq!(r.unwrap_err(), UsageError::MissingName);
}

#[test]
fn missing_name_is_reported_before_missing_foo() {
    let r = resolve(&argv(&[]), &None);
    assert_eq!(r.unwrap_err(), UsageError::MissingName);
}

#[test]
fn missing_foo_is_a_usage_error() {
    let r = resolve(&argv(&["--name", "x"]), &None);
    assert_eq!(r.unwrap_err(), UsageError::MissingFoo);
}

#[test]
fn count_out_of_eight_bit_range_is_rejected() {
    let r = resolve(&argv(&["--name", "x", "--foo", "y", "--count", "999"]), &None);
    assert_eq!(r.unwrap_err(), UsageError::InvalidNumber("999".to_string()));
}

#[test]
fn count_non_numeric_is_rejected() {
    let r = resolve(&argv(&["--name", "x", "--foo", "y", "-c", "abc"]), &None);
    assert_eq!(r.unwrap_err(), UsageError::InvalidNumber("abc".to_string()));
}

#[test]
fn max_out_of_eight_bit_range_is_rejected() {
    let r = resolve(&argv(&["--name", "x", "--foo", "y", "--max", "256"]), &None);
    assert_eq!(r.unwrap_err(), UsageError::InvalidNumber("256".to_string()));
}

#[test]
fn unknown_flag_is_rejected() {
    let r = resolve(&argv(&["--name", "x", "--bogus", "--foo", "y"]), &None);
    assert_eq!(r.unwrap_err(), UsageError::UnknownFlag("--bogus".to_string()));
}

#[test]
fn flag_without_a_value_is_rejected() {
    let r = resolve(&argv(&["--name"]), &None);
    assert_eq!(r.unwrap_err(), UsageError::MissingValue("--name".to_string()));
}

#[test]
fn positional_token_supplies_the_name() {
    let r = resolve(&argv(&["ada", "--foo", "y"]), &None).unwrap();
    assert_eq!(r.name, "ada");
}

#[test]
fn lone_dash_is_a_positional_token() {
    let r = resolve(&argv(&["-", "--foo", "y"]), &None).unwrap();
    assert_eq!(r.name, "-");
}

#[test]
fn repeated_flag_keeps_the_last_value() {
    let r = resolve(&argv(&["-n", "a", "-n", "b", "--foo", "y"]), &None).unwrap();
    assert_eq!(r.name, "b");
}

#[test]
fn a_flag_value_is_consumed_verbatim() {
    let r = resolve(&argv(&["--name", "--count", "--foo", "y"]), &None).unwrap();
    assert_eq!(r.name, "--count");
    assert_eq!(r.count, 1);
}

#[test]
fn help_is_requested_by_either_form() {
    assert!(wants_help(&argv(&["-h"])));
    assert!(wants_help(&argv(&["--name", "x", "--help"])));
    assert!(!wants_help(&argv(&["--name", "x"])));
    assert!(!wants_help(&argv(&[])));
}

#[test]
fn help_text_lists_every_flag() {
    let h = help_text();
    assert!(h.contains("--name"));
    assert!(h.contains("--count"));
    assert!(h.contains("--foo"));
    assert!(h.contains("--max"));
    assert!(h.contains("--help"));
    assert!(h.contains("FOO"));
}

#[test]
fn constants_matches_the_resolved_default() {
    let r = resolve(&argv(&["--name", "X", "--foo", "Y"]), &None).unwrap();
    assert_eq!(constants(), r.count);
    assert_eq!(constants(), 1);
}

#[test]
fn error_messages_name_the_offending_token() {
    let e = resolve(&argv(&["--name", "x", "--bogus"]), &None).unwrap_err();
    assert_eq!(e.message(), "unrecognized flag: --bogus");
    let e = resolve(&argv(&["--name"]), &None).unwrap_err();
    assert_eq!(e.message(), "flag requires a value: --name");
    let e = resolve(&argv(&[]), &None).unwrap_err();
    assert_eq!(e.message(), "missing required argument: name");
    let e = resolve(&argv(&["-n", "x"]), &None).unwrap_err();
    assert_eq!(
        e.message(),
        "missing required argument: foo (flag --foo or environment variable FOO)"
    );
    let e = resolve(&argv(&["-n", "x", "--foo", "y", "-m", "1024"]), &None).unwrap_err();
    assert_eq!(e.message(), "not an unsigned 8-bit number: 1024");
}
