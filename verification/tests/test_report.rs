use testvox::models::test_report::{PrettyPrint, ReportBuilder};
use testvox::models::test_result::TestResult;
use testvox::models::test_status::TestStatus;
use testvox::reporters::Reporter;
use url::Url;

#[test]
fn test_report_should_build_a_default_report_builder() {
    let rb = ReportBuilder::new();

    assert_eq!(rb.title, "");
    assert!(rb.test_results.is_empty());
    assert_eq!(rb.reportable_statuses.len(), 1);
    assert!(rb.reportable_statuses.contains(&TestStatus::Failed));
    assert!(rb.link.is_none())
}

#[test]
fn should_build_a_report_with_given_details() {
    let test_results: Vec<TestResult> = vec![
        TestResult::builder()
            .with_name("a-test-passed".to_string())
            .with_status(TestStatus::Passed)
            .build(),
        TestResult::builder()
            .with_name("a-test-failed".to_string())
            .with_status(TestStatus::Failed)
            .build(),
        TestResult::builder()
            .with_name("a-test-skipped".to_string())
            .with_status(TestStatus::Skipped)
            .build(),
    ];
    let report = ReportBuilder::new()
        .with_title("a-report".to_string())
        .with_test_results(test_results)
        .include_passed()
        .include_skipped()
        .with_link(Url::parse("http://localhost/test-run").unwrap().to_string())
        .build::<CustomReport>();

    assert_eq!(
        report.to_string_pretty(),
        "a-report=[(\"a-test-failed\", \"Failed\"), (\"a-test-skipped\", \"Skipped\"), (\"a-test-passed\", \"Passed\")]");
}

#[test]
fn list_should_be_ordered_based_on_status() {
    let mut test_results = vec![
        TestResult::builder()
            .with_status(TestStatus::Skipped)
            .build(),
        TestResult::builder()
            .with_status(TestStatus::Passed)
            .build(),
        TestResult::builder()
            .with_status(TestStatus::Failed)
            .build(),
    ];

    test_results.sort_by(|a, b| a.status.cmp(&b.status));

    assert!(matches!(
        test_results.first().unwrap().status,
        TestStatus::Failed
    ),);
    assert!(matches!(
        test_results.get(1).unwrap().status,
        TestStatus::Skipped
    ),);
    assert!(matches!(
        test_results.get(2).unwrap().status,
        TestStatus::Passed
    ),);
}

#[test]
fn finalize_retains_only_selected_statuses() {
    let results = vec![
        TestResult::builder()
            .with_name("p1".to_string())
            .with_status(TestStatus::Passed)
            .build(),
        TestResult::builder()
            .with_name("f1".to_string())
            .with_status(TestStatus::Failed)
            .build(),
        TestResult::builder()
            .with_name("s1".to_string())
            .with_status(TestStatus::Skipped)
            .build(),
        TestResult::builder()
            .with_name("f2".to_string())
            .with_status(TestStatus::Failed)
            .build(),
    ];
    let finalized = ReportBuilder::new().with_test_results(results).finalize();

    // only Failed is selected by default, in original relative order
    assert_eq!(finalized.test_results.len(), 2);
    assert_eq!(finalized.test_results[0].name, "f1");
    assert_eq!(finalized.test_results[1].name, "f2");
}

#[test]
fn finalize_sorts_stably_by_status() {
    let results = vec![
        TestResult::builder()
            .with_name("p1".to_string())
            .with_status(TestStatus::Passed)
            .build(),
        TestResult::builder()
            .with_name("s1".to_string())
            .with_status(TestStatus::Skipped)
            .build(),
        TestResult::builder()
            .with_name("f1".to_string())
            .with_status(TestStatus::Failed)
            .build(),
        TestResult::builder()
            .with_name("p2".to_string())
            .with_status(TestStatus::Passed)
            .build(),
        TestResult::builder()
            .with_name("s2".to_string())
            .with_status(TestStatus::Skipped)
            .build(),
    ];
    let finalized = ReportBuilder::new()
        .with_test_results(results)
        .include_passed()
        .include_skipped()
        .finalize();

    let names: Vec<&str> = finalized
        .test_results
        .iter()
        .map(|t| t.name.as_str())
        .collect();
    // non-decreasing by Failed < Skipped < Passed, equal statuses in input order
    assert_eq!(names, vec!["f1", "s1", "s2", "p1", "p2"]);
}

struct CustomReport {
    title: String,
    link: String,
    test_results: Vec<(String, String)>,
}

impl Reporter for CustomReport {
    fn from_builder(value: ReportBuilder) -> Self {
        let test_results: Vec<(String, String)> = value
            .test_results
            .into_iter()
            .map(|tr| (tr.name, format!("{:?}", tr.status)))
            .collect();

        Self {
            title: value.title,
            test_results,
            link: value.link.expect("missing link"),
        }
    }
}

impl PrettyPrint for CustomReport {
    fn to_string_pretty(&self) -> String {
        let _ = &self.link;
        format!("{}={:?}", self.title, self.test_results)
    }
}
