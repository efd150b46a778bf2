use vstd::prelude::*;

use crate::models::test_result::{TestResult, TestResultView};
use crate::models::test_status::{rank, TestStatus};
use crate::reporters::Reporter;

verus! {

/// The set of statuses that a report should include, as one flag per status.
#[derive(PartialEq, Eq, Structural, Clone, Copy, Debug)]
pub struct StatusSet {
    pub failed: bool,
    pub skipped: bool,
    pub passed: bool,
}

impl StatusSet {
    /// Whether the set holds the given status.
    pub open spec fn has(self, status: TestStatus) -> bool {
        match status {
            TestStatus::Failed => self.failed,
            TestStatus::Skipped => self.skipped,
            TestStatus::Passed => self.passed,
        }
    }

    /// How many statuses the set holds.
    pub open spec fn count(self) -> int {
        (if self.failed {
            1int
        } else {
            0int
        }) + (if self.skipped {
            1int
        } else {
            0int
        }) + (if self.passed {
            1int
        } else {
            0int
        })
    }

    pub fn contains(&self, status: &TestStatus) -> (r: bool)
        ensures
            r == self.has(*status),
    {
        match status {
            TestStatus::Failed => self.failed,
            TestStatus::Skipped => self.skipped,
            TestStatus::Passed => self.passed,
        }
    }

    pub fn len(&self) -> (n: usize)
        ensures
            n == self.count(),
    {
        let mut n: usize = 0;
        if self.failed {
            n = n + 1;
        }
        if self.skipped {
            n = n + 1;
        }
        if self.passed {
            n = n + 1;
        }
        n
    }
}

/// Mathematical image of a report builder's state.
pub struct ReportBuilderView {
    pub title: Seq<char>,
    pub test_results: Seq<TestResultView>,
    pub reportable_statuses: StatusSet,
    pub link: Option<Seq<char>>,
}

/// Responsible for building the report domain object.
///
/// A builder is created fresh per report request, configured through a chain
/// of calls that each consume and return it, and consumed exactly once by
/// `build`, which filters, sorts and converts it into a target report type.
pub struct ReportBuilder {
    /// the title of the report
    pub title: String,
    /// the test results to report on
    pub test_results: Vec<TestResult>,
    /// the test statuses that should be included in the report
    pub reportable_statuses: StatusSet,
    /// optional link to the test report on CI or other systems
    pub link: Option<String>,
}

impl View for ReportBuilder {
    type V = ReportBuilderView;

    open spec fn view(&self) -> ReportBuilderView {
        ReportBuilderView {
            title: self.title@,
            test_results: self.test_results.deep_view(),
            reportable_statuses: self.reportable_statuses,
            link: self.link.deep_view(),
        }
    }
}

/// The views of a sequence of results.
pub open spec fn views_of(s: Seq<TestResult>) -> Seq<TestResultView> {
    s.map_values(|t: TestResult| t@)
}

/// The subsequence of `rs` whose status is `st`, in their original order.
pub open spec fn keep_status(rs: Seq<TestResultView>, st: TestStatus) -> Seq<TestResultView>
    decreases rs.len(),
{
    if rs.len() == 0 {
        Seq::empty()
    } else {
        let pre = keep_status(rs.drop_last(), st);
        if rs.last().status == st {
            pre.push(rs.last())
        } else {
            pre
        }
    }
}

/// The results of status `st` that the selection retains: all of them, in
/// order, when `st` is selected, none otherwise.
pub open spec fn selected_part(
    rs: Seq<TestResultView>,
    sel: StatusSet,
    st: TestStatus,
) -> Seq<TestResultView> {
    if sel.has(st) {
        keep_status(rs, st)
    } else {
        Seq::empty()
    }
}

/// What finalizing a builder leaves: only the selected statuses, grouped by
/// the domain ranking `Failed < Skipped < Passed`, each group in its
/// original relative order (a stable sort by status of the retained
/// results).
pub open spec fn finalize_seq(rs: Seq<TestResultView>, sel: StatusSet) -> Seq<TestResultView> {
    selected_part(rs, sel, TestStatus::Failed) + selected_part(rs, sel, TestStatus::Skipped)
        + selected_part(rs, sel, TestStatus::Passed)
}

impl ReportBuilder {
    /// A fresh builder: no results, no link, an empty title, and only
    /// `Failed` selected for reporting.
    pub fn new() -> (r: ReportBuilder)
        ensures
            r@ == (ReportBuilderView {
                title: Seq::<char>::empty(),
                test_results: Seq::<TestResultView>::empty(),
                reportable_statuses: StatusSet { failed: true, skipped: false, passed: false },
                link: None,
            }),
    {
        let r = ReportBuilder {
            title: String::new(),
            test_results: Vec::new(),
            reportable_statuses: StatusSet { failed: true, skipped: false, passed: false },
            link: None,
        };
        proof {
            assert(r@.test_results =~= Seq::<TestResultView>::empty());
        }
        r
    }

    pub fn with_title(self, title: String) -> (r: ReportBuilder)
        ensures
            r@ == (ReportBuilderView { title: title@, ..self@ }),
    {
        ReportBuilder { title, ..self }
    }

    /// Replaces the builder's results wholesale; nothing is merged.
    pub fn with_test_results(self, test_results: Vec<TestResult>) -> (r: ReportBuilder)
        ensures
            r@ == (ReportBuilderView { test_results: test_results.deep_view(), ..self@ }),
    {
        ReportBuilder { test_results, ..self }
    }

    /// Adds `Passed` to the reportable statuses; idempotent.
    pub fn include_passed(self) -> (r: ReportBuilder)
        ensures
            r@ == (ReportBuilderView {
                reportable_statuses: StatusSet { passed: true, ..self@.reportable_statuses },
                ..self@
            }),
    {
        ReportBuilder {
            reportable_statuses: StatusSet { passed: true, ..self.reportable_statuses },
            ..self
        }
    }

    /// Adds `Skipped` to the reportable statuses; idempotent.
    pub fn include_skipped(self) -> (r: ReportBuilder)
        ensures
            r@ == (ReportBuilderView {
                reportable_statuses: StatusSet { skipped: true, ..self@.reportable_statuses },
                ..self@
            }),
    {
        ReportBuilder {
            reportable_statuses: StatusSet { skipped: true, ..self.reportable_statuses },
            ..self
        }
    }

    pub fn with_link(self, link: String) -> (r: ReportBuilder)
        ensures
            r@ == (ReportBuilderView { link: Some(link@), ..self@ }),
    {
        ReportBuilder { link: Some(link), ..self }
    }

    /// Retains only the results whose status is selected and stably sorts
    /// them by status, worst outcome first.
    pub fn finalize(self) -> (r: ReportBuilder)
        ensures
            r@ == (ReportBuilderView {
                test_results: finalize_seq(self@.test_results, self@.reportable_statuses),
                ..self@
            }),
    {
        let sel = self.reportable_statuses;
        let ghost orig = views_of(self.test_results@);
        proof {
            assert(self.test_results.deep_view() =~= orig);
        }
        let mut failed: Vec<TestResult> = Vec::new();
        let mut skipped: Vec<TestResult> = Vec::new();
        let mut passed: Vec<TestResult> = Vec::new();
        let n = self.test_results.len();
        let mut i: usize = 0;
        while i < n
            invariant
                0 <= i <= n,
                n == self.test_results.len(),
                orig == views_of(self.test_results@),
                orig.len() == n,
                sel == self.reportable_statuses,
                views_of(failed@) == selected_part(orig.take(i as int), sel, TestStatus::Failed),
                views_of(skipped@) == selected_part(orig.take(i as int), sel, TestStatus::Skipped),
                views_of(passed@) == selected_part(orig.take(i as int), sel, TestStatus::Passed),
            decreases n - i,
        {
            let t = self.test_results[i].clone();
            proof {
                assert(orig.take(i + 1).drop_last() =~= orig.take(i as int));
                assert(orig.take(i + 1).last() == t@);
            }
            match t.status {
                TestStatus::Failed => {
                    if sel.failed {
                        failed.push(t);
                    }
                },
                TestStatus::Skipped => {
                    if sel.skipped {
                        skipped.push(t);
                    }
                },
                TestStatus::Passed => {
                    if sel.passed {
                        passed.push(t);
                    }
                },
            }
            proof {
                assert(views_of(failed@) =~= selected_part(
                    orig.take(i + 1),
                    sel,
                    TestStatus::Failed,
                ));
                assert(views_of(skipped@) =~= selected_part(
                    orig.take(i + 1),
                    sel,
                    TestStatus::Skipped,
                ));
                assert(views_of(passed@) =~= selected_part(
                    orig.take(i + 1),
                    sel,
                    TestStatus::Passed,
                ));
            }
            i = i + 1;
        }
        proof {
            assert(orig.take(n as int) =~= orig);
        }
        let ghost f0 = failed@;
        let ghost s0 = skipped@;
        let ghost p0 = passed@;
        let mut out = failed;
        out.append(&mut skipped);
        out.append(&mut passed);
        let r = ReportBuilder {
            title: self.title,
            test_results: out,
            reportable_statuses: self.reportable_statuses,
            link: self.link,
        };
        proof {
            assert(views_of(f0 + s0 + p0) =~= views_of(f0) + views_of(s0) + views_of(p0));
            assert(r.test_results.deep_view() =~= views_of(f0 + s0 + p0));
            assert(self.test_results.deep_view() =~= orig);
        }
        r
    }

    /// Finalizes the builder and converts it into the target report type:
    /// the result is whatever `T`'s converter promises of the finalized
    /// state (only the retained statuses, stably grouped worst-first).
    pub fn build<T: Reporter + PrettyPrint>(self) -> (r: T)
        ensures
            exists|b: ReportBuilder|
                call_ensures(T::from_builder, (b,), r) && b@ == (ReportBuilderView {
                    test_results: finalize_seq(self@.test_results, self@.reportable_statuses),
                    ..self@
                }),
    {
        let finalized = self.finalize();
        let ghost b = finalized;
        let r = T::from_builder(finalized);
        proof {
            assert(call_ensures(T::from_builder, (b,), r));
        }
        r
    }
}

/// Trait that defines the function that should be implemented for pretty
/// printing a report. It is a capability: any target type may implement it,
/// inside or outside this crate, so it promises nothing by itself; the
/// shipped implementations state what they return.
pub trait PrettyPrint {
    /// Produces the report in its final textual format.
    fn to_string_pretty(&self) -> String;
}

/// Every finalized result's status was selected: finalizing retains no
/// result whose status is outside the reportable set.
pub proof fn lemma_finalize_statuses_selected(rs: Seq<TestResultView>, sel: StatusSet)
    ensures
        forall|i: int|
            0 <= i < finalize_seq(rs, sel).len() ==> sel.has(
                #[trigger] finalize_seq(rs, sel)[i].status,
            ),
{
    lemma_keep_status_elements(rs, TestStatus::Failed);
    lemma_keep_status_elements(rs, TestStatus::Skipped);
    lemma_keep_status_elements(rs, TestStatus::Passed);
}

/// Finalizing retains exactly the results of each selected status, in their
/// original relative order, and none of an unselected status: the stable
/// filter part of the finalize contract.
pub proof fn lemma_finalize_stable(rs: Seq<TestResultView>, sel: StatusSet, st: TestStatus)
    ensures
        keep_status(finalize_seq(rs, sel), st) == selected_part(rs, sel, st),
{
    let pf = selected_part(rs, sel, TestStatus::Failed);
    let ps = selected_part(rs, sel, TestStatus::Skipped);
    let pp = selected_part(rs, sel, TestStatus::Passed);
    lemma_keep_status_concat(pf + ps, pp, st);
    lemma_keep_status_concat(pf, ps, st);
    lemma_keep_status_of_part(rs, sel, TestStatus::Failed, st);
    lemma_keep_status_of_part(rs, sel, TestStatus::Skipped, st);
    lemma_keep_status_of_part(rs, sel, TestStatus::Passed, st);
    assert(keep_status(finalize_seq(rs, sel), st) =~= keep_status(pf, st) + keep_status(ps, st)
        + keep_status(pp, st));
}

/// The finalized sequence is non-decreasing under the domain ranking
/// `Failed < Skipped < Passed`.
pub proof fn lemma_finalize_ordered(rs: Seq<TestResultView>, sel: StatusSet)
    ensures
        forall|i: int, j: int|
            0 <= i <= j < finalize_seq(rs, sel).len() ==> rank(
                #[trigger] finalize_seq(rs, sel)[i].status,
            ) <= rank(#[trigger] finalize_seq(rs, sel)[j].status),
{
    let fin = finalize_seq(rs, sel);
    let lf = selected_part(rs, sel, TestStatus::Failed).len();
    let ls = selected_part(rs, sel, TestStatus::Skipped).len();
    lemma_keep_status_elements(rs, TestStatus::Failed);
    lemma_keep_status_elements(rs, TestStatus::Skipped);
    lemma_keep_status_elements(rs, TestStatus::Passed);
    assert forall|i: int, j: int| 0 <= i <= j < fin.len() implies rank(#[trigger] fin[i].status)
        <= rank(#[trigger] fin[j].status) by {
        assert(i < lf ==> rank(fin[i].status) == 0);
        assert(lf <= i < lf + ls ==> rank(fin[i].status) == 1);
        assert(lf + ls <= i ==> rank(fin[i].status) == 2);
        assert(j < lf ==> rank(fin[j].status) == 0);
        assert(lf <= j < lf + ls ==> rank(fin[j].status) == 1);
        assert(lf + ls <= j ==> rank(fin[j].status) == 2);
    }
}

/// Every element kept by `keep_status` has the status that was kept.
proof fn lemma_keep_status_elements(rs: Seq<TestResultView>, st: TestStatus)
    ensures
        forall|i: int|
            0 <= i < keep_status(rs, st).len() ==> #[trigger] keep_status(rs, st)[i].status == st,
    decreases rs.len(),
{
    if rs.len() > 0 {
        lemma_keep_status_elements(rs.drop_last(), st);
    }
}

/// `keep_status` distributes over concatenation.
proof fn lemma_keep_status_concat(a: Seq<TestResultView>, b: Seq<TestResultView>, st: TestStatus)
    ensures
        keep_status(a + b, st) == keep_status(a, st) + keep_status(b, st),
    decreases b.len(),
{
    if b.len() == 0 {
        assert(a + b =~= a);
        assert(keep_status(a, st) + keep_status(b, st) =~= keep_status(a, st));
    } else {
        lemma_keep_status_concat(a, b.drop_last(), st);
        assert((a + b).drop_last() =~= a + b.drop_last());
        assert((a + b).last() == b.last());
        if b.last().status == st {
            assert(keep_status(a, st) + keep_status(b, st) =~= (keep_status(a, st) + keep_status(
                b.drop_last(),
                st,
            )).push(b.last()));
        }
    }
}

/// Filtering a selected part by a status gives the whole part when the
/// statuses agree and is empty otherwise.
proof fn lemma_keep_status_of_part(
    rs: Seq<TestResultView>,
    sel: StatusSet,
    part_st: TestStatus,
    st: TestStatus,
)
    ensures
        keep_status(selected_part(rs, sel, part_st), st) == (if part_st == st {
            selected_part(rs, sel, st)
        } else {
            Seq::<TestResultView>::empty()
        }),
    decreases rs.len(),
{
    if sel.has(part_st) {
        lemma_keep_status_of_keep(rs, part_st, st);
    }
}

proof fn lemma_keep_status_of_keep(rs: Seq<TestResultView>, st1: TestStatus, st2: TestStatus)
    ensures
        keep_status(keep_status(rs, st1), st2) == (if st1 == st2 {
            keep_status(rs, st1)
        } else {
            Seq::<TestResultView>::empty()
        }),
    decreases rs.len(),
{
    if rs.len() > 0 {
        lemma_keep_status_of_keep(rs.drop_last(), st1, st2);
        let pre = keep_status(rs.drop_last(), st1);
        if rs.last().status == st1 {
            assert(pre.push(rs.last()).drop_last() =~= pre);
            assert(pre.push(rs.last()).last() == rs.last());
        }
    }
}

} // verus!
