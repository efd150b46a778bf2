use testvox::models::test_result::TestResult;
use testvox::models::test_status::TestStatus;
use testvox::text::parse_time;

#[test]
fn builder_should_build_a_test_result() {
    let t = TestResult::builder()
        .with_name("a test name".to_string())
        .with_execution_time(1_200_000)
        .with_status(TestStatus::Failed)
        .with_failure_message("something bad happened".to_string())
        .with_suite_name("a suite name".to_string())
        .build();

    assert_eq!(t.name, "a test name");
    assert_eq!(t.execution_time, Some(1_200_000));
    assert!(matches!(t.status, TestStatus::Failed,));
    assert_eq!(
        t.failure_message,
        Some("something bad happened".to_string())
    );
    assert_eq!(t.suite_name, Some("a suite name".to_string()));
}

#[test]
fn markdown_for_failed_test_shows_time_and_message() {
    let t = TestResult {
        name: "SomeTest".to_string(),
        suite_name: Some("A test suite".to_string()),
        execution_time: Some(2_400_000),
        status: TestStatus::Failed,
        failure_message: Some("A timeout occurred".to_string()),
    };
    assert_eq!(
        t.to_markdown_string(),
        "❌ _SomeTest_ *failed* (`2.4s`): ```A timeout occurred```"
    );
}

#[test]
fn markdown_for_skipped_test_has_no_time() {
    let t = TestResult {
        name: "AnotherTest".to_string(),
        suite_name: Some("A test suite".to_string()),
        execution_time: None,
        status: TestStatus::Skipped,
        failure_message: None,
    };
    assert_eq!(t.to_markdown_string(), "⏭️ _AnotherTest_ was *skipped*");
}

#[test]
fn markdown_for_passed_test_shows_time() {
    let t = TestResult {
        name: "PassedTest".to_string(),
        suite_name: Some("A test suite".to_string()),
        execution_time: Some(2_400_000),
        status: TestStatus::Passed,
        failure_message: None,
    };
    assert_eq!(t.to_markdown_string(), "✅ _PassedTest_ *passed* (`2.4s`)");
}

#[test]
fn markdown_for_failed_test_without_message_uses_placeholder() {
    let t = TestResult {
        name: "Broken".to_string(),
        suite_name: None,
        execution_time: None,
        status: TestStatus::Failed,
        failure_message: None,
    };
    assert_eq!(
        t.to_markdown_string(),
        "❌ _Broken_ *failed* (`0s`): ```⚠️ missing failure message```"
    );
}

#[test]
fn default_status_is_failed() {
    assert_eq!(TestStatus::default(), TestStatus::Failed);
}

#[test]
fn status_ordering_is_worst_first() {
    assert!(TestStatus::Failed < TestStatus::Skipped);
    assert!(TestStatus::Skipped < TestStatus::Passed);
}

#[test]
fn parse_time_reads_plain_decimal_seconds() {
    assert_eq!(parse_time(&"0.982".chars().collect()), Some(982_000));
    assert_eq!(parse_time(&"2.113871".chars().collect()), Some(2_113_871));
    assert_eq!(parse_time(&"15".chars().collect()), Some(15_000_000));
    assert_eq!(parse_time(&".5".chars().collect()), Some(500_000));
    assert_eq!(parse_time(&"3.".chars().collect()), Some(3_000_000));
    assert_eq!(parse_time(&"+1.5".chars().collect()), Some(1_500_000));
    // digits beyond the sixth fractional place are truncated
    assert_eq!(parse_time(&"0.1234567".chars().collect()), Some(123_456));
}

#[test]
fn parse_time_reads_exponent_forms() {
    assert_eq!(parse_time(&"1e3".chars().collect()), Some(1_000_000_000));
    assert_eq!(parse_time(&"1E2".chars().collect()), Some(100_000_000));
    assert_eq!(parse_time(&"1e+2".chars().collect()), Some(100_000_000));
    assert_eq!(parse_time(&"2e-3".chars().collect()), Some(2_000));
    assert_eq!(parse_time(&"1.5e1".chars().collect()), Some(15_000_000));
    assert_eq!(parse_time(&".5e1".chars().collect()), Some(5_000_000));
    assert_eq!(parse_time(&"25e-7".chars().collect()), Some(2));
    // exponents of any magnitude decide cleanly
    let huge = "0e999999999999999999999999999999999999999";
    assert_eq!(parse_time(&huge.chars().collect()), Some(0));
    let tiny = "7e-999999999999999999999999999999999999999";
    assert_eq!(parse_time(&tiny.chars().collect()), Some(0));
    // one hundred quintillion seconds of microseconds exceed u64
    assert_eq!(parse_time(&"1e20".chars().collect()), None);
}

#[test]
fn parse_time_rejects_everything_else() {
    assert_eq!(parse_time(&"".chars().collect()), None);
    assert_eq!(parse_time(&".".chars().collect()), None);
    assert_eq!(parse_time(&"-1".chars().collect()), None);
    assert_eq!(parse_time(&"abc".chars().collect()), None);
    assert_eq!(parse_time(&"1.2.3".chars().collect()), None);
    assert_eq!(parse_time(&"1e".chars().collect()), None);
    assert_eq!(parse_time(&"e3".chars().collect()), None);
    assert_eq!(parse_time(&"1e2.5".chars().collect()), None);
    assert_eq!(parse_time(&"1e--2".chars().collect()), None);
    assert_eq!(parse_time(&"inf".chars().collect()), None);
    assert_eq!(parse_time(&"nan".chars().collect()), None);
    // a value too large for a u64 count of microseconds
    assert_eq!(
        parse_time(&"99999999999999999999".chars().collect()),
        None
    );
}
