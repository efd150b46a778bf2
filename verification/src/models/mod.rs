/// the report builder and its finalize contract
pub mod test_report;
/// the normalized result of one test case
pub mod test_result;
/// the status of one test case
pub mod test_status;
