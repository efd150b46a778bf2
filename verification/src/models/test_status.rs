use vstd::prelude::*;

verus! {

/// The outcome of a single test case.
///
/// The declaration order doubles as the domain ranking used when a report is
/// finalized: the worst outcome comes first, so `Failed < Skipped < Passed`.
/// This is a domain ordering, not an alphabetical one.
#[derive(PartialEq, Eq, Structural, Clone, Copy, Debug, Hash, Default, PartialOrd, Ord)]
pub enum TestStatus {
    #[default]
    Failed,
    Skipped,
    Passed,
}

/// Position of a status in the domain ordering `Failed < Skipped < Passed`.
pub open spec fn rank(status: TestStatus) -> int {
    match status {
        TestStatus::Failed => 0,
        TestStatus::Skipped => 1,
        TestStatus::Passed => 2,
    }
}

} // verus!
