//! The Mocha-style JSON parser: reads the `tests` array of a Mocha report
//! and turns every object entry into a normalized result.

use vstd::prelude::*;

use crate::models::test_result::{TestResult, TestResultView};
use crate::models::test_status::TestStatus;
use crate::parsers::json::{
    json_doc, json_view, jsons_view, lemma_json_view_shape, members_view, parse_json, JsonValue,
    JsonView,
};
use crate::parsers::{ParseError, TestParser};
use crate::text::{chars_eq_str, chars_to_string, copy_chars, copy_range, ends_with_chars,
    str_to_chars, string_from};

verus! {

/// The value of the last member named `k`, if any: later bindings of a
/// repeated key shadow earlier ones, as JSON maps commonly resolve them.
pub open spec fn member_of(ps: Seq<(Seq<char>, JsonView)>, k: Seq<char>) -> Option<JsonView>
    decreases ps.len(),
{
    if ps.len() == 0 {
        None
    } else if ps.last().0 == k {
        Some(ps.last().1)
    } else {
        member_of(ps.drop_last(), k)
    }
}

/// The normalized result of one entry of the `tests` array:
/// - `title` names the test, with a placeholder when it is missing or not
///   a string;
/// - when `fullTitle` strictly extends `title` at the end, the leading
///   part is the suite name;
/// - `state` maps `failed`, `pending` and `passed` to the three statuses,
///   anything else (or a missing state) counting as failed;
/// - `err.message`, when present, is the failure message;
/// - Mocha durations are not recorded.
pub open spec fn entry_view(ps: Seq<(Seq<char>, JsonView)>) -> TestResultView {
    let title = match member_of(ps, "title"@) {
        Some(JsonView::Text(t)) => Some(t),
        _ => None,
    };
    let full = match member_of(ps, "fullTitle"@) {
        Some(JsonView::Text(f)) => Some(f),
        _ => None,
    };
    let name = match title {
        Some(t) => t,
        None => "⚠️ missing test name"@,
    };
    let suite = match (title, full) {
        (Some(t), Some(f)) => if f.len() > t.len() && f.subrange(
            f.len() - t.len(),
            f.len() as int,
        ) == t {
            Some(f.take(f.len() - t.len()))
        } else {
            None
        },
        _ => None,
    };
    let status = match member_of(ps, "state"@) {
        Some(JsonView::Text(st)) => if st == "failed"@ {
            TestStatus::Failed
        } else if st == "pending"@ {
            TestStatus::Skipped
        } else if st == "passed"@ {
            TestStatus::Passed
        } else {
            TestStatus::Failed
        },
        _ => TestStatus::Failed,
    };
    let msg = match member_of(ps, "err"@) {
        Some(JsonView::Object(eps)) => match member_of(eps, "message"@) {
            Some(JsonView::Text(m)) => Some(m),
            _ => None,
        },
        _ => None,
    };
    TestResultView {
        name,
        suite_name: suite,
        execution_time: None,
        status,
        failure_message: msg,
    }
}

/// The results of the entries from index `i` on; entries that are not
/// objects are skipped.
pub open spec fn entries_from(es: Seq<JsonView>, i: int) -> Seq<TestResultView>
    decreases es.len() - i,
{
    if i < 0 || i >= es.len() {
        Seq::empty()
    } else {
        let rest = entries_from(es, i + 1);
        match es[i] {
            JsonView::Object(ps) => seq![entry_view(ps)] + rest,
            _ => rest,
        }
    }
}

/// What parsing a Mocha-style document yields: `None` exactly when the
/// JSON is malformed; otherwise the entries of the top-level `tests`
/// array, or no results at all when the document is not an object or has
/// no `tests` array.
pub open spec fn mocha_results(s: Seq<char>) -> Option<Seq<TestResultView>> {
    match json_doc(s) {
        None => None,
        Some(doc) => Some(
            match doc {
                JsonView::Object(ps) => match member_of(ps, "tests"@) {
                    Some(JsonView::Array(es)) => entries_from(es, 0),
                    _ => Seq::empty(),
                },
                _ => Seq::empty(),
            },
        ),
    }
}

fn member_exec<'a>(ps: &'a Vec<(Vec<char>, JsonValue)>, k: &str) -> (r: Option<&'a JsonValue>)
    ensures
        (match r {
            Some(v) => member_of(members_view(ps@), k@) == Some(json_view(*v)),
            None => member_of(members_view(ps@), k@) is None,
        }),
{
    let ghost mv = members_view(ps@);
    proof {
        assert(mv.take(ps@.len() as int) =~= mv);
    }
    let mut i: usize = ps.len();
    while i > 0
        invariant
            0 <= i <= ps@.len(),
            mv == members_view(ps@),
            mv.len() == ps@.len(),
            member_of(mv, k@) == member_of(mv.take(i as int), k@),
        decreases i,
    {
        proof {
            assert(mv.take(i as int).last() == mv[i - 1]);
            assert(mv.take(i as int).drop_last() =~= mv.take(i - 1));
        }
        if chars_eq_str(&ps[i - 1].0, k) {
            return Some(&ps[i - 1].1);
        }
        i = i - 1;
    }
    proof {
        assert(mv.take(0) =~= Seq::<(Seq<char>, JsonView)>::empty());
    }
    None
}

fn entry_exec(ps: &Vec<(Vec<char>, JsonValue)>) -> (r: TestResult)
    ensures
        r@ == entry_view(members_view(ps@)),
{
    let title: Option<Vec<char>> = match member_exec(ps, "title") {
        Some(JsonValue::Text(t)) => Some(copy_chars(t)),
        _ => None,
    };
    let full: Option<Vec<char>> = match member_exec(ps, "fullTitle") {
        Some(JsonValue::Text(f)) => Some(copy_chars(f)),
        _ => None,
    };
    let name: String = match &title {
        Some(t) => chars_to_string(t),
        None => string_from("⚠️ missing test name"),
    };
    let suite_name: Option<String> = match (&title, &full) {
        (Some(t), Some(f)) => {
            if f.len() > t.len() && ends_with_chars(f, t) {
                let cut = f.len() - t.len();
                let lead = copy_range(f, 0, cut);
                Some(chars_to_string(&lead))
            } else {
                None
            }
        },
        _ => None,
    };
    let status: TestStatus = match member_exec(ps, "state") {
        Some(JsonValue::Text(st)) => {
            if chars_eq_str(st, "failed") {
                TestStatus::Failed
            } else if chars_eq_str(st, "pending") {
                TestStatus::Skipped
            } else if chars_eq_str(st, "passed") {
                TestStatus::Passed
            } else {
                TestStatus::Failed
            }
        },
        _ => TestStatus::Failed,
    };
    let failure_message: Option<String> = match member_exec(ps, "err") {
        Some(e) => {
            match e {
                JsonValue::Object(eps) => {
                    proof {
                        lemma_json_view_shape(*e);
                    }
                    match member_exec(eps, "message") {
                        Some(JsonValue::Text(m)) => Some(chars_to_string(m)),
                        _ => None,
                    }
                },
                _ => None,
            }
        },
        None => None,
    };
    TestResult { name, suite_name, execution_time: None, status, failure_message }
}

/// The Mocha-style JSON test parser: holds one report file's content.
pub struct MochaJsonTestParser {
    pub content: String,
}

impl MochaJsonTestParser {
    /// A parser over the given report content.
    pub fn from(content: String) -> (r: Self)
        ensures
            r.content@ == content@,
    {
        Self { content }
    }
}

impl TestParser for MochaJsonTestParser {
    open spec fn results_spec(&self) -> Option<Seq<TestResultView>> {
        mocha_results(self.content@)
    }

    fn parse(&self) -> (r: Result<Vec<TestResult>, ParseError>) {
        let cs = str_to_chars(self.content.as_str());
        match parse_json(&cs) {
            None => Err(ParseError::MalformedJson),
            Some(doc) => {
                match &doc {
                    JsonValue::Object(ps) => {
                        proof {
                            lemma_json_view_shape(doc);
                        }
                        match member_exec(ps, "tests") {
                            Some(arr) => {
                                match arr {
                                    JsonValue::Array(es) => {
                                        proof {
                                            lemma_json_view_shape(*arr);
                                        }
                                        Ok(collect_entries(es))
                                    },
                                    _ => Ok(empty_results()),
                                }
                            },
                            None => Ok(empty_results()),
                        }
                    },
                    _ => Ok(empty_results()),
                }
            },
        }
    }
}

fn empty_results() -> (r: Vec<TestResult>)
    ensures
        r.deep_view() == Seq::<TestResultView>::empty(),
{
    let r: Vec<TestResult> = Vec::new();
    proof {
        assert(r.deep_view() =~= Seq::<TestResultView>::empty());
    }
    r
}

fn collect_entries(es: &Vec<JsonValue>) -> (r: Vec<TestResult>)
    ensures
        r.deep_view() == entries_from(jsons_view(es@), 0),
{
    let ghost ev = jsons_view(es@);
    let mut out: Vec<TestResult> = Vec::new();
    let n = es.len();
    proof {
        assert(out.deep_view() =~= Seq::<TestResultView>::empty());
    }
    let mut j: usize = 0;
    while j < n
        invariant
            0 <= j <= n,
            n == es@.len(),
            ev == jsons_view(es@),
            ev.len() == n,
            out.deep_view() + entries_from(ev, j as int) == entries_from(ev, 0),
        decreases n - j,
    {
        proof {
            assert(ev[j as int] == json_view(es@[j as int]));
        }
        match &es[j] {
            JsonValue::Object(ps) => {
                proof {
                    lemma_json_view_shape(es@[j as int]);
                }
                let t = entry_exec(ps);
                let ghost out0 = out.deep_view();
                out.push(t);
                proof {
                    assert(out.deep_view() =~= out0.push(t@));
                    assert(out0 + (seq![t@] + entries_from(ev, j + 1)) =~= out0.push(t@)
                        + entries_from(ev, j + 1));
                }
            },
            _ => {},
        }
        j = j + 1;
    }
    proof {
        assert(entries_from(ev, n as int) =~= Seq::<TestResultView>::empty());
        assert(out.deep_view() + Seq::<TestResultView>::empty() =~= out.deep_view());
    }
    out
}

} // verus!
