use pf::cli::{parse_count, plan_run, RunPlan, DEFAULT_COUNT};
use pf::input::{exit_status, log_level, LogLevel, RunError};

#[test]
fn parse_plain_numbers() {
    assert_eq!(parse_count("10"), Some(10));
    assert_eq!(parse_count("0"), Some(0));
    assert_eq!(parse_count("00"), Some(0));
    assert_eq!(parse_count("123456789"), Some(123456789));
}

#[test]
fn parse_accepts_one_leading_plus() {
    assert_eq!(parse_count("+7"), Some(7));
    assert_eq!(parse_count("+0"), Some(0));
    assert_eq!(parse_count("++7"), None);
    assert_eq!(parse_count("+"), None);
}

#[test]
fn parse_rejects_non_digits() {
    assert_eq!(parse_count("abc"), None);
    assert_eq!(parse_count(""), None);
    assert_eq!(parse_count("12a"), None);
    assert_eq!(parse_count("a12"), None);
    assert_eq!(parse_count("-1"), None);
    assert_eq!(parse_count(" 10"), None);
    assert_eq!(parse_count("1 0"), None);
    assert_eq!(parse_count("1.5"), None);
}

#[test]
fn parse_respects_the_count_limit() {
    assert_eq!(parse_count("4294967295"), Some(u32::MAX));
    assert_eq!(parse_count("4294967296"), None);
    assert_eq!(parse_count("99999999999999999999"), None);
}

#[test]
fn log_subcommand_wins() {
    assert_eq!(plan_run(true, None, false), RunPlan::ShowLog);
    assert_eq!(plan_run(true, Some("abc"), true), RunPlan::ShowLog);
}

#[test]
fn missing_count_falls_back_to_default() {
    assert_eq!(
        plan_run(false, None, false),
        RunPlan::Window { count: DEFAULT_COUNT, from_end: false }
    );
    assert_eq!(DEFAULT_COUNT, 10);
}

#[test]
fn well_formed_count_is_used() {
    assert_eq!(
        plan_run(false, Some("2"), true),
        RunPlan::Window { count: 2, from_end: true }
    );
}

#[test]
fn malformed_count_stops_the_run_softly() {
    let plan = plan_run(false, Some("abc"), false);
    assert_eq!(plan, RunPlan::InvalidCount);
    assert_eq!(exit_status(&RunError::InvalidCount), 0);
    assert_eq!(log_level(&RunError::InvalidCount), LogLevel::Warn);
}
