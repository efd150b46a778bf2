use testvox::models::test_status::TestStatus;
use testvox::parsers::junit::JunitTestParser;
use testvox::parsers::mocha_json::MochaJsonTestParser;
use testvox::parsers::{ParseError, TestParser};

#[test]
fn should_parse_junit_test_report_into_test_results() {
    let junit_test_results_contents = r#"<?xml version="1.0" encoding="UTF-8"?>
<testsuites time="15.682687">
    <testsuite name="Tests.Registration" time="6.605871">
        <testcase name="testCase1" classname="Tests.Registration" time="2.113871" />
    </testsuite>
    <testsuite name="Tests.Authentication">
        <testsuite name="Tests.Authentication.Login">
            <testcase name="testCase4" classname="Tests.Authentication.Login" >
                <skipped/>
            </testcase>
        </testsuite>
        <testcase name="testCase9" classname="Tests.Authentication" time="0.982">
            <failure message="Assertion error message" type="AssertionError">
                <!-- Call stack printed here -->
            </failure>
        </testcase>
    </testsuite>
</testsuites>"#;
    let junit_parser = JunitTestParser::from(junit_test_results_contents.to_string());

    let test_results = junit_parser
        .parse()
        .expect("Unable to parse test results content");

    assert_eq!(test_results.len(), 3);
    assert_eq!(
        test_results
            .iter()
            .filter(|t| t.status == TestStatus::Passed)
            .count(),
        1
    );
    assert_eq!(
        test_results
            .iter()
            .filter(|t| t.status == TestStatus::Skipped)
            .count(),
        1
    );
    assert_eq!(
        test_results
            .iter()
            .filter(|t| t.status == TestStatus::Failed)
            .count(),
        1
    );

    let first = test_results
        .iter()
        .find(|t| t.name == "testCase9")
        .expect("Failed to find expected test");
    assert_eq!(first.suite_name, Some("Tests.Authentication".to_string()));
    assert!(matches!(first.status, TestStatus::Failed,));
    assert_eq!(
        first.failure_message,
        Some("Assertion error message".to_string())
    );
    assert_eq!(first.execution_time, Some(982_000));

    let second = test_results
        .iter()
        .find(|t| t.name == "testCase4")
        .expect("Failed to find expected test");
    assert_eq!(
        second.suite_name,
        Some("Tests.Authentication.Login".to_string())
    );
    assert!(matches!(second.status, TestStatus::Skipped,));
    assert!(second.failure_message.is_none());
    assert!(second.execution_time.is_none());

    let third = test_results
        .iter()
        .find(|t| t.name == "testCase1")
        .expect("Failed to find expected test");
    assert_eq!(third.suite_name, Some("Tests.Registration".to_string()));
    assert!(matches!(third.status, TestStatus::Passed,));
    assert!(third.failure_message.is_none());
    assert_eq!(third.execution_time, Some(2_113_871));
}

#[test]
fn should_parse_mocha_test_report_into_test_results() {
    let mocha_test_results_contents = r#"
    {
        "stats": {
            "suites": 1,
            "tests": 3,
            "passes": 1,
            "pending": 1,
            "failures": 1,
            "start": "2024-06-04T12:00:00.000Z",
            "end": "2024-06-04T12:00:10.000Z",
            "duration": 10000
        },
        "tests": [
            {
                "title": "should pass this test",
                "fullTitle": "My Suite should pass this test",
                "file": "test/sampleTest.js",
                "duration": 10,
                "currentRetry": 0,
                "err": {},
                "state": "passed"
            },
            {
                "title": "should fail this test",
                "fullTitle": "My Suite should fail this test",
                "file": "test/sampleTest.js",
                "duration": 5,
                "currentRetry": 0,
                "err": {
                "message": "Expected true to be false",
                "stack": "AssertionError: Expected true to be false\n    at Context.<anonymous> (test/sampleTest.js:10:15)"
                },
                "state": "failed"
            },
            {
                "title": "should be a pending test",
                "fullTitle": "My Suite should be a pending test",
                "file": "test/sampleTest.js",
                "duration": 0,
                "currentRetry": 0,
                "state": "pending"
            }
        ]
    }"#;

    let mocha_json_parser = MochaJsonTestParser::from(mocha_test_results_contents.to_string());

    let test_results = mocha_json_parser
        .parse()
        .expect("Unable to parse test results content");

    assert_eq!(test_results.len(), 3);
    assert_eq!(
        test_results
            .iter()
            .filter(|t| t.status == TestStatus::Passed)
            .count(),
        1
    );
    assert_eq!(
        test_results
            .iter()
            .filter(|t| t.status == TestStatus::Skipped)
            .count(),
        1
    );
    assert_eq!(
        test_results
            .iter()
            .filter(|t| t.status == TestStatus::Failed)
            .count(),
        1
    );

    let first = test_results
        .iter()
        .find(|t| t.name == "should fail this test")
        .expect("Failed to find expected test");
    assert_eq!(first.suite_name, Some("My Suite ".to_string()));
    assert!(matches!(first.status, TestStatus::Failed,));
    assert_eq!(
        first.failure_message,
        Some("Expected true to be false".to_string())
    );
    assert!(first.execution_time.is_none());

    let second = test_results
        .iter()
        .find(|t| t.name == "should be a pending test")
        .expect("Failed to find expected test");
    assert_eq!(second.suite_name, Some("My Suite ".to_string()));
    assert!(matches!(second.status, TestStatus::Skipped,));
    assert!(second.failure_message.is_none());
    assert!(second.execution_time.is_none());

    let third = test_results
        .iter()
        .find(|t| t.name == "should pass this test")
        .expect("Failed to find expected test");
    assert_eq!(third.suite_name, Some("My Suite ".to_string()));
    assert!(matches!(third.status, TestStatus::Passed,));
    assert!(third.failure_message.is_none());
    assert!(third.execution_time.is_none());
}

#[test]
fn junit_parser_rejects_malformed_xml() {
    let parser = JunitTestParser::from("<testsuite><testcase/></wrong>".to_string());
    let err = parser.parse().unwrap_err();
    assert!(matches!(err, ParseError::MalformedXml));
    assert_eq!(err.message(), "unable to parse test results content as XML");
}

#[test]
fn junit_parser_rejects_multiple_roots() {
    let parser = JunitTestParser::from("<a></a><b></b>".to_string());
    assert!(parser.parse().is_err());
}

#[test]
fn mocha_parser_rejects_malformed_json() {
    let parser = MochaJsonTestParser::from("{\"tests\": [".to_string());
    let err = parser.parse().unwrap_err();
    assert!(matches!(err, ParseError::MalformedJson));
    assert_eq!(
        err.message(),
        "unable to parse test results content as JSON"
    );
}

#[test]
fn junit_parser_decodes_attribute_entities() {
    let content = "<testsuite name=\"S\">\
        <testcase name=\"less &lt; more &amp; &quot;quoted&quot; &apos;x&apos; &gt;\"/>\
        </testsuite>";
    let results = JunitTestParser::from(content.to_string()).parse().unwrap();
    assert_eq!(results.len(), 1);
    assert_eq!(results[0].name, "less < more & \"quoted\" 'x' >");
}

#[test]
fn junit_parser_substitutes_missing_test_name() {
    let content = "<testsuite name=\"S\"><testcase time=\"1.5\"/></testsuite>";
    let results = JunitTestParser::from(content.to_string()).parse().unwrap();
    assert_eq!(results.len(), 1);
    assert_eq!(results[0].name, "⚠️ missing test name");
    assert_eq!(results[0].execution_time, Some(1_500_000));
    assert!(matches!(results[0].status, TestStatus::Passed));
}

#[test]
fn junit_parser_leaves_unparseable_time_absent() {
    let content = "<testsuite><testcase name=\"t\" time=\"fast\"/></testsuite>";
    let results = JunitTestParser::from(content.to_string()).parse().unwrap();
    assert_eq!(results.len(), 1);
    assert!(results[0].execution_time.is_none());
}

#[test]
fn junit_parser_keeps_failure_message_absent_when_missing() {
    let content = "<testsuite><testcase name=\"t\"><failure/></testcase></testsuite>";
    let results = JunitTestParser::from(content.to_string()).parse().unwrap();
    assert_eq!(results.len(), 1);
    assert!(matches!(results[0].status, TestStatus::Failed));
    assert!(results[0].failure_message.is_none());
}

#[test]
fn mocha_parser_decodes_unicode_escapes() {
    let content = r#"{"tests": [{"title": "café 😀 \n end",
        "fullTitle": "S café 😀 \n end", "state": "passed"}]}"#;
    let results = MochaJsonTestParser::from(content.to_string())
        .parse()
        .unwrap();
    assert_eq!(results.len(), 1);
    assert_eq!(results[0].name, "café 😀 \n end");
    assert_eq!(results[0].suite_name, Some("S ".to_string()));
}

#[test]
fn mocha_parser_rejects_lone_surrogate_escape() {
    let content = r#"{"tests": [{"title": "\ud800", "state": "passed"}]}"#;
    assert!(MochaJsonTestParser::from(content.to_string())
        .parse()
        .is_err());
}

#[test]
fn mocha_parser_skips_entries_that_are_not_objects() {
    let content = r#"{"tests": [17, {"title": "t", "state": "passed"}, "x"]}"#;
    let results = MochaJsonTestParser::from(content.to_string())
        .parse()
        .unwrap();
    assert_eq!(results.len(), 1);
    assert_eq!(results[0].name, "t");
}

#[test]
fn mocha_parser_defaults_unknown_state_to_failed() {
    let content = r#"{"tests": [{"title": "t", "state": "exploded"}, {"title": "u"}]}"#;
    let results = MochaJsonTestParser::from(content.to_string())
        .parse()
        .unwrap();
    assert_eq!(results.len(), 2);
    assert!(matches!(results[0].status, TestStatus::Failed));
    assert!(matches!(results[1].status, TestStatus::Failed));
}

#[test]
fn mocha_parser_yields_nothing_without_tests_array() {
    let results = MochaJsonTestParser::from("{\"stats\": {}}".to_string())
        .parse()
        .unwrap();
    assert!(results.is_empty());
    let results = MochaJsonTestParser::from("[1, 2, 3]".to_string())
        .parse()
        .unwrap();
    assert!(results.is_empty());
}

#[test]
fn junit_parser_skips_comments_cdata_and_processing_instructions() {
    let content = "<?xml version=\"1.0\"?>\
        <testsuite name=\"S\"><!-- a comment -->\
        <![CDATA[ stray <data> ]]>\
        <?pi target?>\
        <testcase name=\"t\"/></testsuite>";
    let results = JunitTestParser::from(content.to_string()).parse().unwrap();
    assert_eq!(results.len(), 1);
    assert_eq!(results[0].name, "t");
}

#[test]
fn junit_parser_rejects_doctype() {
    let content = "<!DOCTYPE suite><testsuite><testcase name=\"t\"/></testsuite>";
    assert!(JunitTestParser::from(content.to_string()).parse().is_err());
}

#[test]
fn junit_parser_leaves_suite_name_absent_when_suite_is_nameless() {
    let content = "<testsuite><testcase name=\"t\"/></testsuite>";
    let results = JunitTestParser::from(content.to_string()).parse().unwrap();
    assert_eq!(results.len(), 1);
    assert!(results[0].suite_name.is_none());
}

#[test]
fn junit_parser_decodes_numeric_character_references() {
    let content = "<testsuite name=\"S\">\
        <testcase name=\"line&#10;break &#65; &#x41; &#x1F600;\"/>\
        </testsuite>";
    let results = JunitTestParser::from(content.to_string()).parse().unwrap();
    assert_eq!(results.len(), 1);
    assert_eq!(results[0].name, "line\nbreak A A 😀");
}

#[test]
fn junit_parser_rejects_character_references_outside_unicode() {
    let surrogate = "<testsuite><testcase name=\"&#xD800;\"/></testsuite>";
    assert!(JunitTestParser::from(surrogate.to_string()).parse().is_err());
    let huge = "<testsuite><testcase name=\"&#99999999999999999999;\"/></testsuite>";
    assert!(JunitTestParser::from(huge.to_string()).parse().is_err());
    let empty = "<testsuite><testcase name=\"&#;\"/></testsuite>";
    assert!(JunitTestParser::from(empty.to_string()).parse().is_err());
}
