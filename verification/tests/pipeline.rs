use serde_json::Value;
use testvox::models::test_report::PrettyPrint;
use testvox::reporters::slack::SlackReport;
use testvox::{create_test_report, CreateTestReportRequest};

fn junit_report_content() -> String {
    r#"<?xml version="1.0" encoding="UTF-8"?>
<testsuite name="Tests" time="15.682687">
    <testcase name="It should create a new user" time="2.113871" />
    <testcase name="It should update the password" time="0.982">
        <failure message="bad credentials" type="AssertionError" />
    </testcase>
    <testcase name="It should login the user">
        <skipped/>
    </testcase>
    <testcase name="It should fail due to user already existing" time="1.051" />
    <testcase name="It should fail due to bad credentials" time="0.781" />
</testsuite>"#
        .to_string()
}

#[test]
fn should_create_a_slack_report_from_junit_results() {
    let req = CreateTestReportRequest {
        title: "My cool test report".to_string(),
        reports_contents: vec![junit_report_content()],
        include_passed: true,
        include_skipped: true,
        link: None,
    };

    let report: SlackReport = create_test_report(req);

    let json: Value = serde_json::from_str(&report.to_string_pretty()).expect("invalid JSON");
    let blocks = json["blocks"].as_array().expect("missing blocks");
    assert_eq!(blocks.len(), 11);

    assert_eq!(blocks[0]["type"], "header");
    assert_eq!(blocks[0]["text"]["type"], "plain_text");
    assert_eq!(blocks[0]["text"]["text"], "My cool test report");
    assert_eq!(blocks[0]["text"]["emoji"], true);

    let expected_sections = vec![
        "❌ _It should update the password_ *failed* (`0.982s`): ```bad credentials```",
        "⏭️ _It should login the user_ was *skipped*",
        "✅ _It should create a new user_ *passed* (`2.113871s`)",
        "✅ _It should fail due to user already existing_ *passed* (`1.051s`)",
        "✅ _It should fail due to bad credentials_ *passed* (`0.781s`)",
    ];
    for (k, expected) in expected_sections.iter().enumerate() {
        assert_eq!(blocks[1 + 2 * k]["type"], "divider");
        assert_eq!(blocks[2 + 2 * k]["type"], "section");
        assert_eq!(blocks[2 + 2 * k]["text"]["type"], "mrkdwn");
        assert_eq!(blocks[2 + 2 * k]["text"]["text"], *expected);
    }
}

#[test]
fn identical_input_and_configuration_render_byte_identical_output() {
    let request = || CreateTestReportRequest {
        title: "Nightly".to_string(),
        reports_contents: vec![junit_report_content()],
        include_passed: true,
        include_skipped: false,
        link: Some("http://localhost/run/7".to_string()),
    };

    let a: SlackReport = create_test_report(request());
    let b: SlackReport = create_test_report(request());

    assert_eq!(a.to_string_pretty(), b.to_string_pretty());
}

#[test]
fn input_filtered_down_to_nothing_renders_the_warning_section() {
    // all tests passed, but only failures are reportable by default
    let req = CreateTestReportRequest {
        title: "Quiet run".to_string(),
        reports_contents: vec![
            "<testsuite name=\"S\"><testcase name=\"ok\" time=\"0.1\"/></testsuite>".to_string(),
        ],
        include_passed: false,
        include_skipped: false,
        link: None,
    };

    let report: SlackReport = create_test_report(req);

    let json: Value = serde_json::from_str(&report.to_string_pretty()).expect("invalid JSON");
    let blocks = json["blocks"].as_array().expect("missing blocks");
    assert_eq!(blocks.len(), 3);
    assert_eq!(blocks[0]["type"], "header");
    assert_eq!(blocks[1]["type"], "divider");
    assert_eq!(blocks[2]["type"], "section");
    assert_eq!(blocks[2]["text"]["text"], "⚠️ unable to find test results");
}

#[test]
fn a_malformed_file_is_skipped_and_the_rest_reported() {
    let req = CreateTestReportRequest {
        title: "Partial".to_string(),
        reports_contents: vec![
            "<not xml".to_string(),
            "<testsuite><testcase name=\"boom\"><failure message=\"x\"/></testcase></testsuite>"
                .to_string(),
        ],
        include_passed: false,
        include_skipped: false,
        link: None,
    };

    let report: SlackReport = create_test_report(req);

    let json: Value = serde_json::from_str(&report.to_string_pretty()).expect("invalid JSON");
    let blocks = json["blocks"].as_array().expect("missing blocks");
    assert_eq!(blocks.len(), 3);
    assert_eq!(
        blocks[2]["text"]["text"],
        "❌ _boom_ *failed* (`0s`): ```x```"
    );
}

#[test]
fn a_link_renders_exactly_one_trailing_actions_pair() {
    let req = CreateTestReportRequest {
        title: "Linked".to_string(),
        reports_contents: vec![junit_report_content()],
        include_passed: false,
        include_skipped: false,
        link: Some("http://localhost/details/9".to_string()),
    };

    let report: SlackReport = create_test_report(req);

    let json: Value = serde_json::from_str(&report.to_string_pretty()).expect("invalid JSON");
    let blocks = json["blocks"].as_array().expect("missing blocks");
    let actions: Vec<usize> = blocks
        .iter()
        .enumerate()
        .filter(|(_, b)| b["type"] == "actions")
        .map(|(i, _)| i)
        .collect();
    assert_eq!(actions.len(), 1);
    assert_eq!(actions[0], blocks.len() - 1);
    assert_eq!(blocks[blocks.len() - 2]["type"], "divider");
    assert_eq!(
        blocks[actions[0]]["elements"][0]["url"],
        "http://localhost/details/9"
    );
}
