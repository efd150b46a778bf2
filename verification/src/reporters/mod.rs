use vstd::prelude::*;

use crate::models::test_report::ReportBuilder;

/// the Slack renderer
pub mod slack;

verus! {

/// Capability of report targets: a reporter is any type that can be
/// constructed from a finalized `ReportBuilder`. It is deliberately free of
/// promises, so that any target format, inside or outside this crate, can
/// provide it; the shipped implementations state exactly what they build.
pub trait Reporter: Sized {
    /// Converts the finalized builder state into the target report type.
    fn from_builder(builder: ReportBuilder) -> Self;
}

} // verus!
