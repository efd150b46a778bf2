//! The JUnit-style XML parser: walks every `testsuite` element of the
//! document, however deeply nested, and turns each of its direct `testcase`
//! children into a normalized result.

use vstd::prelude::*;

use crate::models::test_result::{TestResult, TestResultView};
use crate::models::test_status::TestStatus;
use crate::parsers::xml::{attrs_view, elem_view, parse_document, xml_doc, XmlElem, XmlElemView};
use crate::parsers::{ParseError, TestParser};
use crate::text::{
    chars_eq_str, chars_to_string, copy_chars, parse_time, str_to_chars, string_from, time_micros,
};

verus! {

/// The value of the first attribute named `name`, if any.
pub open spec fn attr_of(attrs: Seq<(Seq<char>, Seq<char>)>, name: Seq<char>) -> Option<Seq<char>>
    decreases attrs.len(),
{
    if attrs.len() == 0 {
        None
    } else if attrs[0].0 == name {
        Some(attrs[0].1)
    } else {
        attr_of(attrs.drop_first(), name)
    }
}

/// The first child element with the given tag name, if any.
pub open spec fn first_child_named(children: Seq<XmlElemView>, name: Seq<char>) -> Option<
    XmlElemView,
>
    decreases children.len(),
{
    if children.len() == 0 {
        None
    } else if children[0].name == name {
        Some(children[0])
    } else {
        first_child_named(children.drop_first(), name)
    }
}

/// The normalized result of one `testcase` element inside a suite:
/// - the `name` attribute, or a placeholder when it is missing;
/// - a `failure` child makes it `Failed`, with the failure's `message`
///   attribute when present;
/// - otherwise a `skipped` child makes it `Skipped`;
/// - otherwise it `Passed`;
/// - the `time` attribute is recorded when it parses as a non-negative
///   number of seconds, in plain or exponent decimal form, and left absent
///   otherwise.
pub open spec fn case_view(c: XmlElemView, suite: Option<Seq<char>>) -> TestResultView {
    let name = match attr_of(c.attrs, "name"@) {
        Some(n) => n,
        None => "⚠️ missing test name"@,
    };
    let time = match attr_of(c.attrs, "time"@) {
        Some(t) => time_micros(t),
        None => None,
    };
    match first_child_named(c.children, "failure"@) {
        Some(f) => TestResultView {
            name,
            suite_name: suite,
            execution_time: time,
            status: TestStatus::Failed,
            failure_message: attr_of(f.attrs, "message"@),
        },
        None => if first_child_named(c.children, "skipped"@) is Some {
            TestResultView {
                name,
                suite_name: suite,
                execution_time: time,
                status: TestStatus::Skipped,
                failure_message: None,
            }
        } else {
            TestResultView {
                name,
                suite_name: suite,
                execution_time: time,
                status: TestStatus::Passed,
                failure_message: None,
            }
        },
    }
}

/// The results of the `testcase` children of one suite, in document order.
pub open spec fn suite_cases(children: Seq<XmlElemView>, suite: Option<Seq<char>>) -> Seq<
    TestResultView,
>
    decreases children.len(),
{
    if children.len() == 0 {
        Seq::empty()
    } else {
        let pre = suite_cases(children.drop_last(), suite);
        if children.last().name == "testcase"@ {
            pre.push(case_view(children.last(), suite))
        } else {
            pre
        }
    }
}

/// The results contributed by an element and all of its descendants, in
/// document order: each `testsuite` element contributes its own `testcase`
/// children, under its `name` attribute as the suite name.
pub open spec fn walk_results(e: XmlElemView) -> Seq<TestResultView>
    decreases e, 0int,
{
    let own = if e.name == "testsuite"@ {
        suite_cases(e.children, attr_of(e.attrs, "name"@))
    } else {
        Seq::empty()
    };
    own + walk_list(e.children, 0)
}

pub open spec fn walk_list(es: Seq<XmlElemView>, i: int) -> Seq<TestResultView>
    decreases es, es.len() - i,
{
    if i < 0 || i >= es.len() {
        Seq::empty()
    } else {
        walk_results(es[i]) + walk_list(es, i + 1)
    }
}

/// What parsing a JUnit-style document yields: `None` exactly when the
/// document is not well formed, and the results of the document-order walk
/// otherwise.
pub open spec fn junit_results(s: Seq<char>) -> Option<Seq<TestResultView>> {
    match xml_doc(s) {
        None => None,
        Some(root) => Some(walk_results(root)),
    }
}

fn attr_exec(attrs: &Vec<(Vec<char>, Vec<char>)>, name: &str) -> (r: Option<Vec<char>>)
    ensures
        (match r {
            Some(val) => attr_of(attrs_view(attrs@), name@) == Some(val@),
            None => attr_of(attrs_view(attrs@), name@) is None,
        }),
{
    let ghost av = attrs_view(attrs@);
    proof {
        assert(av.skip(0) =~= av);
    }
    let mut i: usize = 0;
    while i < attrs.len()
        invariant
            0 <= i <= attrs@.len(),
            av == attrs_view(attrs@),
            av.len() == attrs@.len(),
            attr_of(av, name@) == attr_of(av.skip(i as int), name@),
        decreases attrs@.len() - i,
    {
        proof {
            assert(av.skip(i as int)[0] == av[i as int]);
            assert(av.skip(i as int).drop_first() =~= av.skip(i + 1));
        }
        if chars_eq_str(&attrs[i].0, name) {
            return Some(copy_chars(&attrs[i].1));
        }
        i = i + 1;
    }
    proof {
        assert(av.skip(attrs@.len() as int) =~= Seq::<(Seq<char>, Seq<char>)>::empty());
    }
    None
}

fn first_child_exec(children: &Vec<XmlElem>, name: &str) -> (r: Option<usize>)
    ensures
        (match r {
            Some(ix) => ix < children@.len() && first_child_named(
                crate::parsers::xml::elems_view(children@),
                name@,
            ) == Some(elem_view(children@[ix as int])),
            None => first_child_named(crate::parsers::xml::elems_view(children@), name@) is None,
        }),
{
    let ghost cv = crate::parsers::xml::elems_view(children@);
    proof {
        assert(cv.skip(0) =~= cv);
    }
    let mut i: usize = 0;
    while i < children.len()
        invariant
            0 <= i <= children@.len(),
            cv == crate::parsers::xml::elems_view(children@),
            cv.len() == children@.len(),
            first_child_named(cv, name@) == first_child_named(cv.skip(i as int), name@),
        decreases children@.len() - i,
    {
        proof {
            assert(cv.skip(i as int)[0] == cv[i as int]);
            assert(cv.skip(i as int).drop_first() =~= cv.skip(i + 1));
        }
        if chars_eq_str(&children[i].name, name) {
            return Some(i);
        }
        i = i + 1;
    }
    proof {
        assert(cv.skip(children@.len() as int) =~= Seq::<XmlElemView>::empty());
    }
    None
}

fn case_exec(c: &XmlElem, suite: &Option<String>) -> (r: TestResult)
    ensures
        r@ == case_view(elem_view(*c), suite.deep_view()),
{
    let name: String = match attr_exec(&c.attrs, "name") {
        Some(n) => chars_to_string(&n),
        None => string_from("⚠️ missing test name"),
    };
    let time: Option<u64> = match attr_exec(&c.attrs, "time") {
        Some(t) => parse_time(&t),
        None => None,
    };
    let suite_name: Option<String> = match suite {
        Some(s) => Some(s.clone()),
        None => None,
    };
    proof {
        assert(elem_view(*c).children =~= crate::parsers::xml::elems_view(c.children@));
        assert(suite_name.deep_view() == suite.deep_view());
    }
    match first_child_exec(&c.children, "failure") {
        Some(ix) => {
            let message: Option<String> = match attr_exec(&c.children[ix].attrs, "message") {
                Some(m) => Some(chars_to_string(&m)),
                None => None,
            };
            TestResult {
                name,
                suite_name,
                execution_time: time,
                status: TestStatus::Failed,
                failure_message: message,
            }
        },
        None => {
            match first_child_exec(&c.children, "skipped") {
                Some(_) => TestResult {
                    name,
                    suite_name,
                    execution_time: time,
                    status: TestStatus::Skipped,
                    failure_message: None,
                },
                None => TestResult {
                    name,
                    suite_name,
                    execution_time: time,
                    status: TestStatus::Passed,
                    failure_message: None,
                },
            }
        },
    }
}

fn walk_exec(e: &XmlElem) -> (r: Vec<TestResult>)
    ensures
        r.deep_view() == walk_results(elem_view(*e)),
    decreases *e,
{
    let ghost ev = elem_view(*e);
    let mut out: Vec<TestResult> = Vec::new();
    if chars_eq_str(&e.name, "testsuite") {
        let suite: Option<String> = match attr_exec(&e.attrs, "name") {
            Some(n) => Some(chars_to_string(&n)),
            None => None,
        };
        let ghost sv = attr_of(ev.attrs, "name"@);
        proof {
            assert(suite.deep_view() == sv);
        }
        let n = e.children.len();
        let mut i: usize = 0;
        while i < n
            invariant
                0 <= i <= n,
                n == e.children@.len(),
                ev == elem_view(*e),
                ev.children.len() == n,
                suite.deep_view() == sv,
                out.deep_view() == suite_cases(ev.children.take(i as int), sv),
            decreases n - i,
        {
            proof {
                assert(ev.children[i as int] == elem_view(e.children@[i as int]));
                assert(ev.children.take(i + 1).drop_last() =~= ev.children.take(i as int));
                assert(ev.children.take(i + 1).last() == ev.children[i as int]);
            }
            if chars_eq_str(&e.children[i].name, "testcase") {
                let t = case_exec(&e.children[i], &suite);
                let ghost out0 = out.deep_view();
                out.push(t);
                proof {
                    assert(out.deep_view() =~= out0.push(t@));
                }
            }
            i = i + 1;
        }
        proof {
            assert(ev.children.take(n as int) =~= ev.children);
        }
    }
    proof {
        assert(out.deep_view() + walk_list(ev.children, 0) == walk_results(ev)) by {
            if ev.name == "testsuite"@ {
            } else {
                assert(out.deep_view() =~= Seq::<TestResultView>::empty());
                assert(Seq::<TestResultView>::empty() + walk_list(ev.children, 0) =~= walk_list(
                    ev.children,
                    0,
                ));
                assert(walk_results(ev) == Seq::<TestResultView>::empty() + walk_list(
                    ev.children,
                    0,
                ));
            }
        }
    }
    let n = e.children.len();
    let mut i: usize = 0;
    while i < n
        invariant
            0 <= i <= n,
            n == e.children@.len(),
            ev == elem_view(*e),
            ev.children.len() == n,
            out.deep_view() + walk_list(ev.children, i as int) == walk_results(ev),
        decreases n - i,
    {
        proof {
            assert(ev.children[i as int] == elem_view(e.children@[i as int]));
            assert(decreases_to!(*e => e.children));
            vstd::std_specs::vec::axiom_vec_decreases_to_view(e.children);
            vstd::seq::axiom_seq_index_decreases(e.children@, i as int);
        }
        let mut sub = walk_exec(&e.children[i]);
        let ghost out0 = out.deep_view();
        let ghost sub0 = sub.deep_view();
        out.append(&mut sub);
        proof {
            assert(out.deep_view() =~= out0 + sub0);
            assert(out0 + (sub0 + walk_list(ev.children, i + 1)) =~= (out0 + sub0) + walk_list(
                ev.children,
                i + 1,
            ));
        }
        i = i + 1;
    }
    proof {
        assert(walk_list(ev.children, n as int) =~= Seq::<TestResultView>::empty());
        assert(out.deep_view() + Seq::<TestResultView>::empty() =~= out.deep_view());
    }
    out
}

/// The JUnit-style XML test parser: holds one report file's content.
pub struct JunitTestParser {
    pub content: String,
}

impl JunitTestParser {
    /// A parser over the given report content.
    pub fn from(content: String) -> (r: Self)
        ensures
            r.content@ == content@,
    {
        Self { content }
    }
}

impl TestParser for JunitTestParser {
    open spec fn results_spec(&self) -> Option<Seq<TestResultView>> {
        junit_results(self.content@)
    }

    fn parse(&self) -> (r: Result<Vec<TestResult>, ParseError>) {
        let cs = str_to_chars(self.content.as_str());
        match parse_document(&cs) {
            None => Err(ParseError::MalformedXml),
            Some(root) => Ok(walk_exec(&root)),
        }
    }
}

} // verus!
