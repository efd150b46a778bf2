//! Turns machine-generated test reports (JUnit-style XML, Mocha-style JSON)
//! into human readable messages ready to be shared on common messaging apps.

use vstd::prelude::*;

use crate::models::test_report::{
    finalize_seq, PrettyPrint, ReportBuilder, ReportBuilderView, StatusSet,
};
use crate::models::test_result::{TestResult, TestResultView};
use crate::parsers::junit::{junit_results, JunitTestParser};
use crate::parsers::{AnyParser, TestParser};
use crate::reporters::Reporter;

/// basic models of the library
pub mod models;
/// generic and custom parser types
pub mod parsers;
/// generic and custom reporter types
pub mod reporters;
/// character, decimal and JSON-text utilities shared by parsers and reporters
pub mod text;

verus! {

/// A struct that describes the request for creating a report.
pub struct CreateTestReportRequest {
    /// the title that the generated report should have
    pub title: String,
    /// the contents of the test results to parse
    pub reports_contents: Vec<String>,
    /// whether to include passed tests in the generated report
    pub include_passed: bool,
    /// whether to include skipped tests in the generated report
    pub include_skipped: bool,
    /// optional link to more details about the run, as an absolute URL
    pub link: Option<String>,
}

/// Selects the parser for the given report content. Every file is
/// currently read as a JUnit-style XML report; choosing by the content's
/// shape is a named extension point of the parser family.
fn detect_parser(report_content: String) -> (p: AnyParser)
    ensures
        (match p {
            AnyParser::Junit(j) => j.content@ == report_content@,
            _ => false,
        }),
{
    AnyParser::Junit(JunitTestParser::from(report_content))
}

/// The results that a list of report contents yields: each file read by
/// the detected parser (currently the JUnit-style one), files with a
/// structural error contributing nothing, the rest concatenated in file
/// order.
pub open spec fn collected_results(contents: Seq<Seq<char>>) -> Seq<TestResultView>
    decreases contents.len(),
{
    if contents.len() == 0 {
        Seq::empty()
    } else {
        let pre = collected_results(contents.drop_last());
        match junit_results(contents.last()) {
            Some(rs) => pre + rs,
            None => pre,
        }
    }
}

/// The views of a list of report contents.
pub open spec fn strs_view(s: Seq<String>) -> Seq<Seq<char>> {
    Seq::new(s.len(), |i: int| s[i]@)
}

/// Parses every report content with the detected parser and concatenates
/// the results in file order; a file whose document is malformed is
/// skipped, as per-file failures never spoil the other files.
pub fn collect_test_results(reports_contents: Vec<String>) -> (r: Vec<TestResult>)
    ensures
        r.deep_view() == collected_results(reports_contents.deep_view()),
{
    let ghost cv = reports_contents.deep_view();
    proof {
        assert(cv =~= strs_view(reports_contents@));
    }
    let mut out: Vec<TestResult> = Vec::new();
    proof {
        assert(out.deep_view() =~= Seq::<TestResultView>::empty());
        assert(collected_results(cv.take(0)) =~= Seq::<TestResultView>::empty()) by {
            assert(cv.take(0) =~= Seq::<Seq<char>>::empty());
        }
    }
    for content in it: reports_contents.into_iter()
        invariant
            cv == strs_view(it.seq()),
            cv.len() == it.seq().len(),
            out.deep_view() == collected_results(cv.take(it.index() as int)),
        {
            let ghost i = it.index() as int;
            proof {
                assert(cv[i] == content@);
                assert(cv.take(i + 1).drop_last() =~= cv.take(i));
                assert(cv.take(i + 1).last() == content@);
            }
            let parser = detect_parser(content);
            match parser.parse() {
                Ok(mut rs) => {
                    let ghost out0 = out.deep_view();
                    let ghost rs0 = rs.deep_view();
                    out.append(&mut rs);
                    proof {
                        assert(out.deep_view() =~= out0 + rs0);
                    }
                },
                Err(_) => {},
            }
        }
    proof {
        assert(cv.take(cv.len() as int) =~= cv);
    }
    out
}

/// Utility to create a test report of the desired format. The generic type
/// `T` holds the logic of how the normalized results should be laid out
/// and pretty printed; the concrete reporters state exactly what they
/// produce. The result is whatever `T`'s converter promises of the exact
/// finalized state below: the parsed and concatenated results of the
/// request's contents, filtered to the requested statuses (failures
/// always), stably grouped worst-first, under the request's title and
/// link.
pub fn create_test_report<T: Reporter + PrettyPrint>(request: CreateTestReportRequest) -> (r: T)
    ensures
        exists|b: ReportBuilder|
            call_ensures(T::from_builder, (b,), r) && b@ == (ReportBuilderView {
                title: request.title@,
                test_results: finalize_seq(
                    collected_results(request.reports_contents.deep_view()),
                    StatusSet {
                        failed: true,
                        skipped: request.include_skipped,
                        passed: request.include_passed,
                    },
                ),
                reportable_statuses: StatusSet {
                    failed: true,
                    skipped: request.include_skipped,
                    passed: request.include_passed,
                },
                link: request.link.deep_view(),
            }),
{
    let test_results = collect_test_results(request.reports_contents);
    let mut report_builder = ReportBuilder::new().with_title(request.title).with_test_results(
        test_results,
    );
    if request.include_passed {
        report_builder = report_builder.include_passed();
    }
    if request.include_skipped {
        report_builder = report_builder.include_skipped();
    }
    match request.link {
        Some(link) => {
            report_builder = report_builder.with_link(link);
        },
        None => {},
    }
    report_builder.build::<T>()
}

} // verus!
