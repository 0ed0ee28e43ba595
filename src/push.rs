//! The push batch: every application's settings are sent in turn, one
//! failure never stopping the rest.

use crate::config::{app_names, config_valid, names_check, names_valid, App, AppView, Config, ConfigError};
use crate::platform::{is_patch_request, read_response, response_result, Exchange, PlatformAPI, RemoteErrorView};
use crate::report::{outcome_of, reports_view, AppReport, Outcome, OutcomeView, ReportView, Step};
use vstd::prelude::*;

verus! {

/// An application that declares no setting: pushing it is skipped.
pub open spec fn has_no_settings(a: AppView) -> bool {
    a.settings == Map::<Seq<char>, Seq<char>>::empty()
}

/// The applications that a push of `apps` sends a request for, in order.
pub open spec fn push_requested(apps: Seq<AppView>) -> Seq<AppView>
    decreases apps.len(),
{
    if apps.len() == 0 {
        Seq::empty()
    } else if has_no_settings(apps.last()) {
        push_requested(apps.drop_last())
    } else {
        push_requested(apps.drop_last()).push(apps.last())
    }
}

/// The reports of a push of `apps`, where `exchanges[k]` is what came of the
/// `k`-th request sent.
pub open spec fn push_reports(apps: Seq<AppView>, exchanges: Seq<Exchange>) -> Seq<ReportView>
    decreases apps.len(),
{
    if apps.len() == 0 {
        Seq::empty()
    } else {
        let init = apps.drop_last();
        let a = apps.last();
        let outcome = if has_no_settings(a) {
            OutcomeView::Skipped
        } else {
            outcome_of(response_result(exchanges[push_requested(init).len() as int]))
        };
        push_reports(init, exchanges).push(ReportView { name: a.name, outcome })
    }
}

pub open spec fn apps_view(apps: Seq<App>) -> Seq<AppView> {
    apps.map_values(|a: App| a@)
}

/// Only the first `push_requested(apps).len()` exchanges matter.
pub proof fn lemma_push_reports_prefix(apps: Seq<AppView>, e1: Seq<Exchange>, e2: Seq<Exchange>)
    requires
        forall|k: int| 0 <= k < push_requested(apps).len() ==> e1[k] == e2[k],
    ensures
        push_reports(apps, e1) == push_reports(apps, e2),
    decreases apps.len(),
{
    if apps.len() > 0 {
        let init = apps.drop_last();
        assert(push_requested(init).len() <= push_requested(apps).len());
        lemma_push_reports_prefix(init, e1, e2);
    }
}

/// How many requests a push sends for the applications before index `i`.
pub open spec fn requested_before(apps: Seq<AppView>, i: int) -> int {
    push_requested(apps.take(i)).len() as int
}

proof fn lemma_requested_before_step(apps: Seq<AppView>, i: int)
    requires
        0 <= i < apps.len(),
    ensures
        requested_before(apps, i + 1) == requested_before(apps, i) + if has_no_settings(apps[i]) {
            0int
        } else {
            1int
        },
        !has_no_settings(apps[i]) ==> push_requested(apps.take(i + 1)) == push_requested(
            apps.take(i),
        ).push(apps[i]),
        has_no_settings(apps[i]) ==> push_requested(apps.take(i + 1)) == push_requested(apps.take(i)),
{
    assert(apps.take(i + 1).drop_last() =~= apps.take(i));
}

proof fn lemma_requested_before_monotonic(apps: Seq<AppView>, a: int, b: int)
    requires
        0 <= a <= b <= apps.len(),
    ensures
        requested_before(apps, a) <= requested_before(apps, b),
        a < b && !has_no_settings(apps[a]) ==> requested_before(apps, a) < requested_before(apps, b),
    decreases b - a,
{
    if a < b {
        lemma_requested_before_step(apps, a);
        lemma_requested_before_monotonic(apps, a + 1, b);
    }
}

/// The report of application `i` of a push.
pub proof fn lemma_push_report_at(apps: Seq<AppView>, exchanges: Seq<Exchange>, i: int)
    requires
        0 <= i < apps.len(),
    ensures
        push_reports(apps, exchanges).len() == apps.len(),
        push_reports(apps, exchanges)[i] == (ReportView {
            name: apps[i].name,
            outcome: if has_no_settings(apps[i]) {
                OutcomeView::Skipped
            } else {
                outcome_of(response_result(exchanges[requested_before(apps, i)]))
            },
        }),
    decreases apps.len(),
{
    lemma_push_reports_len(apps, exchanges);
    if i < apps.len() - 1 {
        lemma_push_report_at(apps.drop_last(), exchanges, i);
        assert(apps.drop_last().take(i) =~= apps.take(i));
    } else {
        assert(apps.drop_last() =~= apps.take(i));
    }
}

proof fn lemma_push_reports_len(apps: Seq<AppView>, exchanges: Seq<Exchange>)
    ensures
        push_reports(apps, exchanges).len() == apps.len(),
    decreases apps.len(),
{
    if apps.len() > 0 {
        lemma_push_reports_len(apps.drop_last(), exchanges);
    }
}

/// The `k`-th request of a push is for the application at some index `i`
/// that has settings and has `k` requests before it.
proof fn lemma_requested_index(apps: Seq<AppView>, k: int) -> (i: int)
    requires
        0 <= k < push_requested(apps).len(),
    ensures
        0 <= i < apps.len(),
        !has_no_settings(apps[i]),
        push_requested(apps)[k] == apps[i],
        requested_before(apps, i) == k,
    decreases apps.len(),
{
    let init = apps.drop_last();
    assert(apps.take(apps.len() - 1) =~= init);
    if k < push_requested(init).len() {
        let i = lemma_requested_index(init, k);
        assert(init.take(i) =~= apps.take(i));
        i
    } else {
        apps.len() - 1
    }
}

/// An application with no setting is reported as skipped, and no request
/// of the push is for it: every request goes to an application of another
/// name.
pub proof fn lemma_no_settings_no_request(apps: Seq<AppView>, exchanges: Seq<Exchange>, i: int)
    requires
        0 <= i < apps.len(),
        has_no_settings(apps[i]),
        names_valid(app_names(apps)),
    ensures
        push_reports(apps, exchanges).len() == apps.len(),
        push_reports(apps, exchanges)[i] == (ReportView { name: apps[i].name, outcome: OutcomeView::Skipped }),
        forall|k: int| 0 <= k < push_requested(apps).len() ==> (#[trigger] push_requested(apps)[k]).name != apps[i].name,
{
    lemma_push_report_at(apps, exchanges, i);
    assert forall|k: int| 0 <= k < push_requested(apps).len() implies (#[trigger] push_requested(apps)[k]).name != apps[i].name by {
        let j = lemma_requested_index(apps, k);
        assert(j != i);
        assert(app_names(apps)[i] == apps[i].name);
        assert(app_names(apps)[j] == apps[j].name);
        if j < i {
            assert(app_names(apps)[j] != app_names(apps)[i]);
        } else {
            assert(app_names(apps)[i] != app_names(apps)[j]);
        }
    }
}

/// When exactly one request of a push fails, with a platform error, every
/// application still gets its report, in the order of the configuration:
/// the one that request was for carries the error, and every other one is
/// skipped or succeeded.
pub proof fn lemma_one_failure_isolated(apps: Seq<AppView>, exchanges: Seq<Exchange>, j: int)
    requires
        exchanges.len() == push_requested(apps).len(),
        0 <= j < exchanges.len(),
        response_result(exchanges[j]) matches Err(RemoteErrorView::Platform(_)),
        forall|k: int| 0 <= k < exchanges.len() && k != j ==> (#[trigger] response_result(exchanges[k])) is Ok,
    ensures
        push_reports(apps, exchanges).len() == apps.len(),
        forall|i: int| 0 <= i < apps.len() ==> (#[trigger] push_reports(apps, exchanges)[i]).name == apps[i].name,
        exists|f: int|
            {
                &&& 0 <= f < apps.len()
                &&& apps[f] == push_requested(apps)[j]
                &&& push_reports(apps, exchanges)[f].outcome == outcome_of(response_result(exchanges[j]))
                &&& forall|i: int|
                    0 <= i < apps.len() && i != f ==> {
                        ||| (#[trigger] push_reports(apps, exchanges)[i]).outcome is Skipped
                        ||| push_reports(apps, exchanges)[i].outcome is Succeeded
                    }
            },
{
    lemma_push_reports_len(apps, exchanges);
    assert forall|i: int| 0 <= i < apps.len() implies (#[trigger] push_reports(apps, exchanges)[i]).name == apps[i].name by {
        lemma_push_report_at(apps, exchanges, i);
    }
    let f = lemma_requested_index(apps, j);
    lemma_push_report_at(apps, exchanges, f);
    assert(apps.take(apps.len() as int) =~= apps);
    assert forall|i: int| 0 <= i < apps.len() && i != f implies {
        ||| (#[trigger] push_reports(apps, exchanges)[i]).outcome is Skipped
        ||| push_reports(apps, exchanges)[i].outcome is Succeeded
    } by {
        lemma_push_report_at(apps, exchanges, i);
        if !has_no_settings(apps[i]) {
            lemma_requested_before_monotonic(apps, i, apps.len() as int);
            if i < f {
                lemma_requested_before_monotonic(apps, i, f);
            } else {
                lemma_requested_before_monotonic(apps, f, i);
            }
            assert(response_result(exchanges[requested_before(apps, i)]) is Ok);
        }
    }
}

/// A push in progress. The caller sends each request that `next_step`
/// hands out and gives back what came of it with `receive`.
pub struct PushRun {
    api: PlatformAPI,
    apps: Vec<App>,
    next: usize,
    awaiting: bool,
    reports: Vec<AppReport>,
    received: Ghost<Seq<Exchange>>,
}

impl PushRun {
    /// The applications of the batch.
    pub closed spec fn apps(&self) -> Seq<App> {
        self.apps@
    }

    /// The token that the requests carry.
    pub closed spec fn token(&self) -> Seq<char> {
        self.api.token@
    }

    /// How many applications have reached a terminal state.
    pub closed spec fn position(&self) -> int {
        self.next as int
    }

    /// Whether a request was handed out and its answer is awaited.
    pub closed spec fn awaiting(&self) -> bool {
        self.awaiting
    }

    /// What came of each request sent so far.
    pub closed spec fn received(&self) -> Seq<Exchange> {
        self.received@
    }

    /// The reports so far.
    pub closed spec fn reports(&self) -> Seq<ReportView> {
        reports_view(self.reports@)
    }

    pub closed spec fn wf(&self) -> bool {
        let apps = apps_view(self.apps@);
        &&& self.next <= self.apps@.len()
        &&& self.awaiting ==> self.next < self.apps@.len() && !has_no_settings(apps[self.next as int])
        &&& self.received@.len() == push_requested(apps.take(self.next as int)).len()
        &&& reports_view(self.reports@) == push_reports(apps.take(self.next as int), self.received@)
    }

    /// Starts a push of `config`, refused before any request when its
    /// application names are empty or repeated.
    pub fn start(api: PlatformAPI, config: Config) -> (r: Result<PushRun, ConfigError>)
        ensures
            r is Ok <==> config_valid(config@),
            r matches Err(e) ==> Err::<(), ConfigError>(e) == names_check(
                crate::config::app_names(config@.apps),
            ),
            r matches Ok(run) ==> {
                &&& run.wf()
                &&& run.apps() == config.apps@
                &&& run.token() == api.token@
                &&& run.position() == 0
                &&& !run.awaiting()
                &&& run.received() == Seq::<Exchange>::empty()
                &&& run.reports() == Seq::<ReportView>::empty()
            },
    {
        match config.validate() {
            Err(e) => Err(e),
            Ok(()) => {
                let run = PushRun {
                    api,
                    apps: config.apps,
                    next: 0,
                    awaiting: false,
                    reports: Vec::new(),
                    received: Ghost(Seq::empty()),
                };
                assert(apps_view(run.apps@).take(0) =~= Seq::<AppView>::empty());
                assert(run.reports() =~= Seq::<ReportView>::empty());
                Ok(run)
            },
        }
    }

    /// Whether a request was handed out and its answer is awaited.
    pub fn is_awaiting(&self) -> (r: bool)
        ensures
            r == self.awaiting(),
    {
        self.awaiting
    }

    /// Passes over the applications with no setting, reporting them as
    /// skipped, and hands out the request for the next one; `Done` when
    /// every application has a report. While an answer is awaited, hands
    /// out the same request again.
    pub fn next_step(&mut self) -> (s: Step)
        requires
            old(self).wf(),
        ensures
            final(self).wf(),
            final(self).apps() == old(self).apps(),
            final(self).token() == old(self).token(),
            final(self).received() == old(self).received(),
            old(self).position() <= final(self).position(),
            forall|j: int|
                old(self).position() <= j < final(self).position() ==> has_no_settings(
                    #[trigger] final(self).apps()[j]@,
                ),
            final(self).reports() == push_reports(
                apps_view(final(self).apps()).take(final(self).position()),
                final(self).received(),
            ),
            match s {
                Step::Send(req) => {
                    let a = final(self).apps()[final(self).position()];
                    &&& final(self).awaiting()
                    &&& final(self).position() < final(self).apps().len()
                    &&& !has_no_settings(a@)
                    &&& is_patch_request(req, final(self).token(), a.name@, a.settings.pairs())
                },
                Step::Done => !final(self).awaiting() && final(self).position() == final(self).apps().len(),
            },
    {
        if self.awaiting {
            let i = self.next;
            return Step::Send(self.api.patch_request(self.apps[i].name.as_str(), &self.apps[i].settings));
        }
        let n = self.apps.len();
        let ghost apps = apps_view(self.apps@);
        let ghost start = self.next as int;
        while self.next < n && self.apps[self.next].settings.is_empty()
            invariant
                self.wf(),
                !self.awaiting,
                n == self.apps@.len(),
                apps == apps_view(self.apps@),
                self.api == old(self).api,
                self.apps == old(self).apps,
                self.received == old(self).received,
                start <= self.next,
                forall|j: int| start <= j < self.next ==> has_no_settings(#[trigger] self.apps@[j]@),
            decreases n - self.next,
        {
            let i = self.next;
            let name = self.apps[i].name.clone();
            self.reports.push(AppReport { name, outcome: Outcome::Skipped });
            self.next = i + 1;
            proof {
                let pre = apps.take(i as int);
                let post = apps.take(i + 1);
                assert(post.drop_last() =~= pre);
                assert(post.last() == apps[i as int]);
                assert(reports_view(self.reports@) =~= push_reports(post, self.received@));
            }
        }
        if self.next < n {
            let i = self.next;
            let req = self.api.patch_request(self.apps[i].name.as_str(), &self.apps[i].settings);
            self.awaiting = true;
            Step::Send(req)
        } else {
            Step::Done
        }
    }

    /// Records what came of the request handed out last: the application
    /// it was for reaches its terminal state. With no request awaited, does
    /// nothing.
    pub fn receive(&mut self, ex: Exchange)
        requires
            old(self).wf(),
        ensures
            final(self).wf(),
            final(self).apps() == old(self).apps(),
            final(self).token() == old(self).token(),
            !final(self).awaiting(),
            final(self).reports() == push_reports(
                apps_view(final(self).apps()).take(final(self).position()),
                final(self).received(),
            ),
            old(self).awaiting() ==> {
                &&& final(self).position() == old(self).position() + 1
                &&& final(self).received() == old(self).received().push(ex)
                &&& final(self).reports() == old(self).reports().push(
                    ReportView {
                        name: old(self).apps()[old(self).position()].name@,
                        outcome: outcome_of(response_result(ex)),
                    },
                )
            },
            !old(self).awaiting() ==> *final(self) == *old(self),
    {
        if !self.awaiting {
            return;
        }
        let ghost apps = apps_view(self.apps@);
        let i = self.next;
        let n = self.apps.len();
        assert(i < n);
        let outcome = match read_response(&ex) {
            Ok(records) => Outcome::Succeeded(records),
            Err(e) => Outcome::Failed(e),
        };
        let name = self.apps[i].name.clone();
        self.reports.push(AppReport { name, outcome });
        let ghost old_received = self.received@;
        self.received = Ghost(self.received@.push(ex));
        self.next = i + 1;
        self.awaiting = false;
        proof {
            let pre = apps.take(i as int);
            let post = apps.take(i + 1);
            assert(post.drop_last() =~= pre);
            assert(post.last() == apps[i as int]);
            lemma_push_reports_prefix(pre, old_received, self.received@);
            assert(self.received@[old_received.len() as int] == ex);
            assert(reports_view(self.reports@) =~= push_reports(post, self.received@));
        }
    }

    /// The reports of the applications that reached a terminal state, in
    /// the order of the configuration.
    pub fn finish(self) -> (r: Vec<AppReport>)
        requires
            self.wf(),
        ensures
            reports_view(r@) == self.reports(),
            reports_view(r@) == push_reports(apps_view(self.apps()).take(self.position()), self.received()),
    {
        self.reports
    }
}

} // verus!
