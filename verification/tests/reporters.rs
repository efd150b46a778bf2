use serde_json::Value;
use testvox::models::test_report::{PrettyPrint, ReportBuilder};
use testvox::models::test_result::TestResult;
use testvox::models::test_status::TestStatus;
use testvox::reporters::slack::SlackReport;
use testvox::reporters::Reporter;
use url::Url;

#[test]
fn mod_should_build_a_default_report_builder() {
    let rb = ReportBuilder::new();

    assert_eq!(rb.title, "");
    assert!(rb.test_results.is_empty());
    assert_eq!(rb.reportable_statuses.len(), 1);
    assert!(rb.reportable_statuses.contains(&TestStatus::Failed))
}

#[test]
fn should_build_a_report_with_given_title_and_test_results() {
    let test_results: Vec<TestResult> = vec![
        TestResult::builder()
            .with_name("a-test-passed".to_string())
            .with_status(TestStatus::Passed)
            .build(),
        TestResult::builder()
            .with_name("a-test-failed".to_string())
            .with_status(TestStatus::Failed)
            .build(),
        TestResult::builder()
            .with_name("a-test-skipped".to_string())
            .with_status(TestStatus::Skipped)
            .build(),
    ];
    let report = ReportBuilder::new()
        .with_title("a-report".to_string())
        .with_test_results(test_results)
        .include_passed()
        .include_skipped()
        .build::<CustomReport>();

    assert_eq!(
        report.to_string_pretty(),
        "a-report=[(\"a-test-failed\", \"Failed\"), (\"a-test-skipped\", \"Skipped\"), (\"a-test-passed\", \"Passed\")]");
}

#[test]
fn should_create_report_in_slack_format_empty() {
    let title = "An empty Slack report";
    let report = ReportBuilder::new()
        .with_title(title.to_string())
        .build::<SlackReport>();

    let json: Value = serde_json::from_str(&report.to_string_pretty()).expect("invalid JSON");
    let blocks = json["blocks"].as_array().expect("missing blocks");
    assert_eq!(blocks.len(), 3);
    assert_eq!(blocks[0]["type"], "header");
    assert_eq!(blocks[0]["text"]["type"], "plain_text");
    assert_eq!(blocks[0]["text"]["text"], title);
    assert_eq!(blocks[0]["text"]["emoji"], true);
    assert_eq!(blocks[1]["type"], "divider");
    assert_eq!(blocks[2]["type"], "section");
    assert_eq!(blocks[2]["text"]["type"], "mrkdwn");
    assert_eq!(blocks[2]["text"]["text"], "⚠️ unable to find test results");
}

#[test]
fn should_create_report_in_slack_format() {
    let title = "A Slack report";
    let test_failed = TestResult::builder()
        .with_name("a test failed".to_string())
        .with_status(TestStatus::Failed)
        .with_failure_message("A failure".to_string())
        .with_execution_time(1_200_000)
        .build();
    let test_skipped = TestResult::builder()
        .with_name("a test skipped".to_string())
        .with_status(TestStatus::Skipped)
        .build();
    let test_passed = TestResult::builder()
        .with_name("a test passed".to_string())
        .with_status(TestStatus::Passed)
        .with_execution_time(3_300_000)
        .build();
    let link = Url::parse("http://localhost/run/123").expect("unable to parse url");

    let report: SlackReport = ReportBuilder::new()
        .with_title(title.to_string())
        .include_passed()
        .include_skipped()
        .with_test_results(vec![
            test_failed.clone(),
            test_passed.clone(),
            test_skipped.clone(),
        ])
        .with_link(link.to_string())
        .build();

    let json: Value = serde_json::from_str(&report.to_string_pretty()).expect("invalid JSON");
    let blocks = json["blocks"].as_array().expect("missing blocks");
    assert_eq!(blocks.len(), 9);

    assert_eq!(blocks[0]["type"], "header");
    assert_eq!(blocks[0]["text"]["type"], "plain_text");
    assert_eq!(blocks[0]["text"]["text"], title);
    assert_eq!(blocks[0]["text"]["emoji"], true);

    assert_eq!(blocks[1]["type"], "divider");
    assert_eq!(blocks[2]["type"], "section");
    assert_eq!(blocks[2]["text"]["type"], "mrkdwn");
    assert_eq!(blocks[2]["text"]["text"], test_failed.to_markdown_string());

    assert_eq!(blocks[3]["type"], "divider");
    assert_eq!(blocks[4]["type"], "section");
    assert_eq!(blocks[4]["text"]["text"], test_skipped.to_markdown_string());

    assert_eq!(blocks[5]["type"], "divider");
    assert_eq!(blocks[6]["type"], "section");
    assert_eq!(blocks[6]["text"]["text"], test_passed.to_markdown_string());

    assert_eq!(blocks[7]["type"], "divider");
    assert_eq!(blocks[8]["type"], "actions");
    let elements = blocks[8]["elements"].as_array().expect("missing elements");
    assert_eq!(elements.len(), 1);
    assert_eq!(elements[0]["type"], "button");
    assert_eq!(elements[0]["text"]["type"], "plain_text");
    assert_eq!(elements[0]["text"]["text"], ":link:  View details");
    assert_eq!(elements[0]["text"]["emoji"], true);
    assert_eq!(elements[0]["url"], "http://localhost/run/123");
}

#[test]
fn omitting_the_link_renders_no_actions_block() {
    let report = ReportBuilder::new()
        .with_title("t".to_string())
        .with_test_results(vec![TestResult::builder()
            .with_name("f".to_string())
            .with_status(TestStatus::Failed)
            .build()])
        .build::<SlackReport>();

    let json: Value = serde_json::from_str(&report.to_string_pretty()).expect("invalid JSON");
    let blocks = json["blocks"].as_array().expect("missing blocks");
    assert!(blocks.iter().all(|b| b["type"] != "actions"));
}

#[test]
fn message_with_quotes_and_newlines_survives_json_escaping() {
    let message = "expected \"a\\b\"\n\tgot \u{1}control";
    let report = ReportBuilder::new()
        .with_title("t".to_string())
        .with_test_results(vec![TestResult::builder()
            .with_name("f".to_string())
            .with_status(TestStatus::Failed)
            .with_failure_message(message.to_string())
            .build()])
        .build::<SlackReport>();

    let json: Value = serde_json::from_str(&report.to_string_pretty()).expect("invalid JSON");
    let text = json["blocks"][2]["text"]["text"].as_str().unwrap();
    assert!(text.contains(message));
}

struct CustomReport {
    report_title: String,
    test_results: Vec<(String, String)>,
}

impl Reporter for CustomReport {
    fn from_builder(value: ReportBuilder) -> Self {
        let test_results: Vec<(String, String)> = value
            .test_results
            .into_iter()
            .map(|tr| (tr.name, format!("{:?}", tr.status)))
            .collect();

        Self {
            report_title: value.title,
            test_results,
        }
    }
}

impl PrettyPrint for CustomReport {
    fn to_string_pretty(&self) -> String {
        format!("{}={:?}", self.report_title, self.test_results)
    }
}
