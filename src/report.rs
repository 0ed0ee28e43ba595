//! What a batch hands to its caller: the next step, and a report for each
//! application.

use crate::platform::{RemoteError, RemoteErrorView, Request};
use vstd::prelude::*;

verus! {

/// What the caller does next in a batch.
#[derive(Debug)]
pub enum Step {
    /// Send this request and hand back what came of it.
    Send(Request),
    /// Every application has a report.
    Done,
}

/// What an outcome is, as a value.
pub enum OutcomeView {
    Skipped,
    Succeeded(Seq<Seq<char>>),
    Failed(RemoteErrorView),
}

/// What a report is, as a value.
pub struct ReportView {
    pub name: Seq<char>,
    pub outcome: OutcomeView,
}

/// The terminal state of one application in a batch.
#[derive(Debug)]
pub enum Outcome {
    /// Nothing was to be sent: no remote call was made.
    Skipped,
    /// The operation took effect; the snapshot records that came back.
    Succeeded(Vec<String>),
    /// The operation failed.
    Failed(RemoteError),
}

/// The outcome of one application, by name.
#[derive(Debug)]
pub struct AppReport {
    pub name: String,
    pub outcome: Outcome,
}

impl View for Outcome {
    type V = OutcomeView;

    open spec fn view(&self) -> OutcomeView {
        match self {
            Outcome::Skipped => OutcomeView::Skipped,
            Outcome::Succeeded(v) => OutcomeView::Succeeded(v.deep_view()),
            Outcome::Failed(e) => OutcomeView::Failed(e@),
        }
    }
}

impl View for AppReport {
    type V = ReportView;

    open spec fn view(&self) -> ReportView {
        ReportView { name: self.name@, outcome: self.outcome@ }
    }
}

pub open spec fn reports_view(rs: Seq<AppReport>) -> Seq<ReportView> {
    rs.map_values(|r: AppReport| r@)
}

/// The outcome that a classified answer gives.
pub open spec fn outcome_of(r: Result<Seq<Seq<char>>, RemoteErrorView>) -> OutcomeView {
    match r {
        Ok(s) => OutcomeView::Succeeded(s),
        Err(e) => OutcomeView::Failed(e),
    }
}

pub open spec fn any_failed(rs: Seq<ReportView>) -> bool {
    exists|i: int| 0 <= i < rs.len() && rs[i].outcome is Failed
}

/// Whether some application of the batch failed. Skipped applications do
/// not count as failures.
pub fn batch_failed(reports: &Vec<AppReport>) -> (r: bool)
    ensures
        r == any_failed(reports_view(reports@)),
{
    let n = reports.len();
    let mut i: usize = 0;
    while i < n
        invariant
            n == reports@.len(),
            i <= n,
            forall|k: int| 0 <= k < i ==> !(reports_view(reports@)[k].outcome is Failed),
        decreases n - i,
    {
        if let Outcome::Failed(_) = &reports[i].outcome {
            assert(reports_view(reports@)[i as int].outcome is Failed);
            return true;
        }
        i = i + 1;
    }
    false
}

} // verus!
