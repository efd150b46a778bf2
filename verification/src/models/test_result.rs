use vstd::prelude::*;

use crate::models::test_status::TestStatus;
use crate::text::{append_str, chars_to_string, seconds_chars, secs_str};

verus! {

/// Mathematical image of a test result: every text field as its character
/// sequence.
pub struct TestResultView {
    pub name: Seq<char>,
    pub suite_name: Option<Seq<char>>,
    pub execution_time: Option<u64>,
    pub status: TestStatus,
    pub failure_message: Option<Seq<char>>,
}

/// The domain object for one normalized test case outcome.
///
/// `execution_time` is a duration in whole microseconds; it is absent when
/// the source report carried no usable duration. A `Failed` result without a
/// `failure_message` is tolerated and rendered with a placeholder.
#[derive(Debug)]
pub struct TestResult {
    /// Name of the test
    pub name: String,
    /// Optional name of the suite in which the test is contained
    pub suite_name: Option<String>,
    /// Optional execution time associated to the test, in microseconds
    pub execution_time: Option<u64>,
    /// The status of the test
    pub status: TestStatus,
    /// Optional failure message related to a failed test
    pub failure_message: Option<String>,
}

impl View for TestResult {
    type V = TestResultView;

    open spec fn view(&self) -> TestResultView {
        TestResultView {
            name: self.name@,
            suite_name: self.suite_name.deep_view(),
            execution_time: self.execution_time,
            status: self.status,
            failure_message: self.failure_message.deep_view(),
        }
    }
}

impl DeepView for TestResult {
    type V = TestResultView;

    open spec fn deep_view(&self) -> TestResultView {
        self.view()
    }
}

impl Clone for TestResult {
    fn clone(&self) -> (r: Self)
        ensures
            r == *self,
    {
        TestResult {
            name: self.name.clone(),
            suite_name: match &self.suite_name {
                Some(s) => Some(s.clone()),
                None => None,
            },
            execution_time: self.execution_time,
            status: self.status,
            failure_message: match &self.failure_message {
                Some(s) => Some(s.clone()),
                None => None,
            },
        }
    }
}

impl TestResult {
    /// Yields a builder of instances of the `TestResult` type.
    pub fn builder() -> (r: TestResultBuilder)
        ensures
            r@ == (TestResultView {
                name: Seq::<char>::empty(),
                suite_name: None,
                execution_time: None,
                status: TestStatus::Failed,
                failure_message: None,
            }),
    {
        TestResultBuilder {
            name: String::new(),
            suite_name: None,
            execution_time: None,
            status: TestStatus::Failed,
            failure_message: None,
        }
    }
}

/// Builder for the domain `TestResult` type.
pub struct TestResultBuilder {
    name: String,
    suite_name: Option<String>,
    execution_time: Option<u64>,
    status: TestStatus,
    failure_message: Option<String>,
}

impl View for TestResultBuilder {
    type V = TestResultView;

    closed spec fn view(&self) -> TestResultView {
        TestResultView {
            name: self.name@,
            suite_name: self.suite_name.deep_view(),
            execution_time: self.execution_time,
            status: self.status,
            failure_message: self.failure_message.deep_view(),
        }
    }
}

impl TestResultBuilder {
    pub fn with_name(self, name: String) -> (r: TestResultBuilder)
        ensures
            r@ == (TestResultView { name: name@, ..self@ }),
    {
        TestResultBuilder { name, ..self }
    }

    pub fn with_suite_name(self, suite_name: String) -> (r: TestResultBuilder)
        ensures
            r@ == (TestResultView { suite_name: Some(suite_name@), ..self@ }),
    {
        TestResultBuilder { suite_name: Some(suite_name), ..self }
    }

    /// Records the execution time as a count of whole microseconds.
    pub fn with_execution_time(self, execution_time: u64) -> (r: TestResultBuilder)
        ensures
            r@ == (TestResultView { execution_time: Some(execution_time), ..self@ }),
    {
        TestResultBuilder { execution_time: Some(execution_time), ..self }
    }

    pub fn with_status(self, status: TestStatus) -> (r: TestResultBuilder)
        ensures
            r@ == (TestResultView { status: status, ..self@ }),
    {
        TestResultBuilder { status, ..self }
    }

    pub fn with_failure_message(self, failure_message: String) -> (r: TestResultBuilder)
        ensures
            r@ == (TestResultView { failure_message: Some(failure_message@), ..self@ }),
    {
        TestResultBuilder { failure_message: Some(failure_message), ..self }
    }

    pub fn build(self) -> (r: TestResult)
        ensures
            r@ == self@,
    {
        TestResult {
            name: self.name,
            suite_name: self.suite_name,
            execution_time: self.execution_time,
            status: self.status,
            failure_message: self.failure_message,
        }
    }
}

/// The rendered execution time: decimal seconds, `0` when absent.
pub open spec fn time_str(t: Option<u64>) -> Seq<char> {
    match t {
        Some(m) => secs_str(m as nat),
        None => seq!['0'],
    }
}

/// The rendered failure message: the message itself, or the placeholder when
/// a failed test carries none.
pub open spec fn msg_str(m: Option<Seq<char>>) -> Seq<char> {
    match m {
        Some(s) => s,
        None => "⚠️ missing failure message"@,
    }
}

/// The exact markdown line for a result, chosen by status.
pub open spec fn markdown_str(t: TestResultView) -> Seq<char> {
    match t.status {
        TestStatus::Passed => "✅ _"@ + t.name + "_ *passed* (`"@ + time_str(t.execution_time)
            + "s`)"@,
        TestStatus::Failed => "❌ _"@ + t.name + "_ *failed* (`"@ + time_str(t.execution_time)
            + "s`): ```"@ + msg_str(t.failure_message) + "```"@,
        TestStatus::Skipped => "⏭️ _"@ + t.name + "_ was *skipped*"@,
    }
}

/// A `Failed` result that carries no failure message renders its message
/// part as the placeholder `⚠️ missing failure message`; rendering never
/// rejects such a result.
pub proof fn lemma_missing_failure_message_renders_placeholder(t: TestResultView)
    requires
        t.status == TestStatus::Failed,
        t.failure_message is None,
    ensures
        markdown_str(t) == "❌ _"@ + t.name + "_ *failed* (`"@ + time_str(t.execution_time)
            + "s`): ```"@ + "⚠️ missing failure message"@ + "```"@,
{
}

impl TestResult {
    /// Pretty prints the test message, using markdown syntax.
    pub fn to_markdown_string(&self) -> (r: String)
        ensures
            r@ == markdown_str(self@),
    {
        let mut out: Vec<char> = Vec::new();
        match self.status {
            TestStatus::Passed => {
                append_str(&mut out, "✅ _");
                append_str(&mut out, self.name.as_str());
                append_str(&mut out, "_ *passed* (`");
                self.append_time(&mut out);
                append_str(&mut out, "s`)");
            },
            TestStatus::Failed => {
                append_str(&mut out, "❌ _");
                append_str(&mut out, self.name.as_str());
                append_str(&mut out, "_ *failed* (`");
                self.append_time(&mut out);
                append_str(&mut out, "s`): ```");
                match &self.failure_message {
                    Some(m) => append_str(&mut out, m.as_str()),
                    None => append_str(&mut out, "⚠️ missing failure message"),
                }
                append_str(&mut out, "```");
            },
            TestStatus::Skipped => {
                append_str(&mut out, "⏭️ _");
                append_str(&mut out, self.name.as_str());
                append_str(&mut out, "_ was *skipped*");
            },
        }
        proof {
            assert(out@ =~= markdown_str(self@));
        }
        chars_to_string(&out)
    }

    fn append_time(&self, out: &mut Vec<char>)
        ensures
            final(out)@ == old(out)@ + time_str(self@.execution_time),
    {
        match self.execution_time {
            Some(m) => {
                let mut t = seconds_chars(m);
                out.append(&mut t);
            },
            None => {
                out.push('0');
                proof {
                    assert(out@ =~= old(out)@ + seq!['0']);
                }
            },
        }
    }
}

} // verus!
