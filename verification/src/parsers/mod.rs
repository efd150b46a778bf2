use vstd::prelude::*;

use crate::models::test_result::{TestResult, TestResultView};

/// the Mocha-style JSON parser
pub mod mocha_json;
/// the verified JSON parser that the Mocha parser builds on
pub mod json;
/// the JUnit-style XML parser
pub mod junit;
/// the verified XML-subset parser that the JUnit parser builds on
pub mod xml;

verus! {

/// A structural parse failure: the document itself could not be read. It is
/// fatal for the file it came from and for that file only; a malformed
/// single entry inside a well-formed document never raises it.
#[derive(Debug, Clone, Copy, PartialEq, Eq, Structural)]
pub enum ParseError {
    /// the content is not well formed under the XML subset this crate reads
    MalformedXml,
    /// the content is not well formed JSON
    MalformedJson,
}

impl ParseError {
    /// A short human readable description of the failure.
    pub fn message(&self) -> (r: &'static str)
        ensures
            r@ == (match self {
                ParseError::MalformedXml => "unable to parse test results content as XML"@,
                ParseError::MalformedJson => "unable to parse test results content as JSON"@,
            }),
    {
        match self {
            ParseError::MalformedXml => "unable to parse test results content as XML",
            ParseError::MalformedJson => "unable to parse test results content as JSON",
        }
    }
}

/// A parser of any of the formats this crate reads, chosen per file.
pub enum AnyParser {
    Junit(crate::parsers::junit::JunitTestParser),
    MochaJson(crate::parsers::mocha_json::MochaJsonTestParser),
}

/// Generic trait describing all test parsers' common contract: a parser
/// holds one file's content and turns it into the normalized results that
/// `results_spec` names, or reports that the document is malformed, exactly
/// when `results_spec` is `None`.
pub trait TestParser {
    /// The results this parser's content denotes, or `None` when the
    /// content is structurally malformed.
    spec fn results_spec(&self) -> Option<Seq<TestResultView>>;

    /// Parses the content into a list of domain `TestResult` objects.
    fn parse(&self) -> (r: Result<Vec<TestResult>, ParseError>)
        ensures
            (match r {
                Ok(res) => self.results_spec() == Some(res.deep_view()),
                Err(_) => self.results_spec() is None,
            }),
    ;
}

impl TestParser for AnyParser {
    open spec fn results_spec(&self) -> Option<Seq<TestResultView>> {
        match self {
            AnyParser::Junit(p) => p.results_spec(),
            AnyParser::MochaJson(p) => p.results_spec(),
        }
    }

    fn parse(&self) -> (r: Result<Vec<TestResult>, ParseError>) {
        match self {
            AnyParser::Junit(p) => p.parse(),
            AnyParser::MochaJson(p) => p.parse(),
        }
    }
}

} // verus!
