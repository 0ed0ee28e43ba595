//! The pull batch: every named application's settings are read in turn and
//! gathered into a configuration.

use crate::config::{app_names, check_names, config_valid, names_valid, names_check, schema_version, App, AppView, Config, ConfigError, ConfigView};
use crate::platform::{is_fetch_request, is_success_status, record_of, read_response, response_result, Exchange, PlatformAPI, RemoteError, RemoteErrorView};
use crate::report::{reports_view, AppReport, Outcome, OutcomeView, ReportView, Step};
use crate::json::json_object_members;
use crate::settings::{map_of_pairs, Settings};
use vstd::prelude::*;
use vstd::string::*;

verus! {

/// `i` is the position of the first `=` in `r`.
pub open spec fn is_first_eq(r: Seq<char>, i: int) -> bool {
    &&& 0 <= i < r.len()
    &&& r[i] == '='
    &&& forall|j: int| 0 <= j < i ==> r[j] != '='
}

/// A record split on its first `=`: key before, value after.
pub open spec fn split_record(r: Seq<char>) -> Option<(Seq<char>, Seq<char>)> {
    if exists|i: int| is_first_eq(r, i) {
        let i = choose|i: int| is_first_eq(r, i);
        Some((r.take(i), r.skip(i + 1)))
    } else {
        None
    }
}

/// The settings that snapshot records denote: defined when every record
/// holds a `=`; a later record overrides an earlier one with the same key.
pub open spec fn settings_of_records(rs: Seq<Seq<char>>) -> Option<Map<Seq<char>, Seq<char>>>
    decreases rs.len(),
{
    if rs.len() == 0 {
        Some(Map::empty())
    } else {
        match (settings_of_records(rs.drop_last()), split_record(rs.last())) {
            (Some(m), Some(kv)) => Some(m.insert(kv.0, kv.1)),
            _ => None,
        }
    }
}

/// What pulling one application gives: its records and settings, or why
/// it failed.
pub open spec fn pull_result(ex: Exchange) -> Result<(Seq<Seq<char>>, Map<Seq<char>, Seq<char>>), RemoteErrorView> {
    match response_result(ex) {
        Ok(records) => match settings_of_records(records) {
            Some(m) => Ok((records, m)),
            None => Err(RemoteErrorView::MalformedRecord),
        },
        Err(e) => Err(e),
    }
}

pub open spec fn pull_report(name: Seq<char>, ex: Exchange) -> ReportView {
    ReportView {
        name,
        outcome: match pull_result(ex) {
            Ok(p) => OutcomeView::Succeeded(p.0),
            Err(e) => OutcomeView::Failed(e),
        },
    }
}

/// The reports of a pull of `names`, where `exchanges[i]` is what came of
/// the request for `names[i]`.
pub open spec fn pull_reports(names: Seq<Seq<char>>, exchanges: Seq<Exchange>) -> Seq<ReportView> {
    Seq::new(names.len(), |i: int| pull_report(names[i], exchanges[i]))
}

/// The applications that a pull of `names` gathers: those pulled without
/// failure, in order.
pub open spec fn pulled_apps(names: Seq<Seq<char>>, exchanges: Seq<Exchange>) -> Seq<AppView>
    decreases names.len(),
{
    if names.len() == 0 {
        Seq::empty()
    } else {
        let prev = pulled_apps(names.drop_last(), exchanges);
        match pull_result(exchanges[names.len() - 1]) {
            Ok(p) => prev.push(AppView { name: names.last(), settings: p.1 }),
            Err(_) => prev,
        }
    }
}

/// Splits a record on its first `=`.
pub fn split_record_exec(r: &str) -> (res: Option<(String, String)>)
    ensures
        split_record(r@) == match res {
            Some(kv) => Some((kv.0@, kv.1@)),
            None => None::<(Seq<char>, Seq<char>)>,
        },
{
    let n = r.unicode_len();
    let mut i: usize = 0;
    while i < n
        invariant
            n == r@.len(),
            i <= n,
            forall|j: int| 0 <= j < i ==> r@[j] != '=',
        decreases n - i,
    {
        if r.get_char(i) == '=' {
            assert(is_first_eq(r@, i as int));
            proof {
                let c = choose|c: int| is_first_eq(r@, c);
                assert(c == i) by {
                    if c < i {
                        assert(r@[c] != '=');
                    } else if c > i {
                        assert(r@[i as int] != '=');
                    }
                }
            }
            let key = String::from_str(r.substring_char(0, i));
            let value = String::from_str(r.substring_char(i + 1, n));
            return Some((key, value));
        }
        i = i + 1;
    }
    assert(!exists|c: int| is_first_eq(r@, c));
    None
}

/// The settings of snapshot records, when every record holds a `=`.
pub fn settings_from_records(records: &Vec<String>) -> (r: Option<Settings>)
    ensures
        settings_of_records(records.deep_view()) == match r {
            Some(s) => Some(s@),
            None => None::<Map<Seq<char>, Seq<char>>>,
        },
{
    let ghost rs = records.deep_view();
    let mut settings = Settings::new();
    let n = records.len();
    let mut i: usize = 0;
    while i < n
        invariant
            n == records@.len(),
            rs == records.deep_view(),
            i <= n,
            settings_of_records(rs.take(i as int)) == Some(settings@),
        decreases n - i,
    {
        assert(rs.take(i + 1).drop_last() =~= rs.take(i as int));
        match split_record_exec(records[i].as_str()) {
            Some(kv) => {
                let (k, v) = kv;
                settings.insert(k, v);
            },
            None => {
                proof {
                    lemma_records_none_extends(rs, i as int);
                }
                return None;
            },
        }
        i = i + 1;
    }
    assert(rs.take(n as int) =~= rs);
    Some(settings)
}

/// Once a record holds no `=`, no longer list of records denotes settings.
proof fn lemma_records_none_extends(rs: Seq<Seq<char>>, i: int)
    requires
        0 <= i < rs.len(),
        split_record(rs[i]) is None,
    ensures
        settings_of_records(rs) is None,
    decreases rs.len(),
{
    if i < rs.len() - 1 {
        lemma_records_none_extends(rs.drop_last(), i);
    }
}

/// `k` holds no `=`.
pub open spec fn has_no_eq(k: Seq<char>) -> bool {
    forall|j: int| 0 <= j < k.len() ==> k[j] != '='
}

/// The snapshot records of a list of pairs.
pub open spec fn records_of_pairs(ps: Seq<(Seq<char>, Seq<char>)>) -> Seq<Seq<char>> {
    Seq::new(ps.len(), |i: int| record_of(ps[i].0, ps[i].1))
}

proof fn lemma_split_record_of(k: Seq<char>, v: Seq<char>)
    requires
        has_no_eq(k),
    ensures
        split_record(record_of(k, v)) == Some((k, v)),
{
    reveal_strlit("=");
    let r = record_of(k, v);
    let n = k.len() as int;
    assert(r[n] == '=');
    assert(is_first_eq(r, n));
    let c = choose|c: int| is_first_eq(r, c);
    assert(c == n) by {
        if c < n {
            assert(r[c] == k[c]);
        } else if c > n {
            assert(r[n] != '=');
        }
    }
    assert(r.take(n) =~= k);
    assert(r.skip(n + 1) =~= v);
}

proof fn lemma_settings_of_records_of_pairs(ps: Seq<(Seq<char>, Seq<char>)>)
    requires
        forall|k: int| 0 <= k < ps.len() ==> has_no_eq(#[trigger] ps[k].0),
    ensures
        settings_of_records(records_of_pairs(ps)) == Some(map_of_pairs(ps)),
    decreases ps.len(),
{
    if ps.len() > 0 {
        let init = ps.drop_last();
        assert(records_of_pairs(ps).drop_last() =~= records_of_pairs(init));
        lemma_settings_of_records_of_pairs(init);
        lemma_split_record_of(ps.last().0, ps.last().1);
    }
}

/// Pulling an application whose settings come back as members with string
/// values and keys free of `=` gathers exactly those members as settings.
pub proof fn lemma_pull_reads_members(status: u16, body: String, ps: Seq<(Seq<char>, Seq<char>)>)
    requires
        is_success_status(status),
        json_object_members(body@) == Some(ps.map_values(|p: (Seq<char>, Seq<char>)| (p.0, Some(p.1)))),
        forall|k: int| 0 <= k < ps.len() ==> has_no_eq(#[trigger] ps[k].0),
    ensures
        pull_result(Exchange::Answered { status, body }) == Ok::<
            (Seq<Seq<char>>, Map<Seq<char>, Seq<char>>),
            RemoteErrorView,
        >((records_of_pairs(ps), map_of_pairs(ps))),
{
    let ms = ps.map_values(|p: (Seq<char>, Seq<char>)| (p.0, Some(p.1)));
    assert(forall|i: int| 0 <= i < ms.len() ==> (#[trigger] ms[i]).1 is Some);
    assert(crate::platform::snapshot_of_members(ms)->Some_0 =~= records_of_pairs(ps));
    lemma_settings_of_records_of_pairs(ps);
}

/// A pull in progress. The caller sends each request that `next_step`
/// hands out and gives back what came of it with `receive`.
pub struct PullRun {
    api: PlatformAPI,
    names: Vec<String>,
    next: usize,
    awaiting: bool,
    reports: Vec<AppReport>,
    apps: Vec<App>,
    received: Ghost<Seq<Exchange>>,
}

impl PullRun {
    /// The names of the applications to pull.
    pub closed spec fn names(&self) -> Seq<Seq<char>> {
        self.names.deep_view()
    }

    /// The token that the requests carry.
    pub closed spec fn token(&self) -> Seq<char> {
        self.api.token@
    }

    /// How many applications have reached a terminal state.
    pub closed spec fn position(&self) -> int {
        self.next as int
    }

    /// Whether a request was handed out and its answer is awaited.
    pub closed spec fn awaiting(&self) -> bool {
        self.awaiting
    }

    /// What came of each request sent so far.
    pub closed spec fn received(&self) -> Seq<Exchange> {
        self.received@
    }

    /// The reports so far.
    pub closed spec fn reports(&self) -> Seq<ReportView> {
        reports_view(self.reports@)
    }

    /// The applications gathered so far.
    pub closed spec fn gathered(&self) -> Seq<AppView> {
        self.apps@.map_values(|a: App| a@)
    }

    pub closed spec fn wf(&self) -> bool {
        let names = self.names.deep_view();
        &&& self.next <= names.len()
        &&& self.awaiting ==> self.next < names.len()
        &&& self.received@.len() == self.next
        &&& reports_view(self.reports@) == pull_reports(names.take(self.next as int), self.received@)
        &&& self.gathered() == pulled_apps(names.take(self.next as int), self.received@)
    }

    /// Starts a pull of the applications `names`, refused before any
    /// request when there is none, or a name is empty or repeated.
    pub fn start(api: PlatformAPI, names: Vec<String>) -> (r: Result<PullRun, ConfigError>)
        ensures
            r matches Err(e) ==> if names@.len() == 0 {
                e == ConfigError::NoApps
            } else {
                Err::<(), ConfigError>(e) == names_check(names.deep_view())
            },
            r is Ok <==> names@.len() > 0 && names_check(names.deep_view()) is Ok,
            r matches Ok(run) ==> {
                &&& run.wf()
                &&& run.names() == names.deep_view()
                &&& run.token() == api.token@
                &&& run.position() == 0
                &&& !run.awaiting()
                &&& run.received() == Seq::<Exchange>::empty()
                &&& run.reports() == Seq::<ReportView>::empty()
                &&& run.gathered() == Seq::<AppView>::empty()
            },
    {
        if names.len() == 0 {
            return Err(ConfigError::NoApps);
        }
        match check_names(&names) {
            Err(e) => Err(e),
            Ok(()) => {
                let run = PullRun {
                    api,
                    names,
                    next: 0,
                    awaiting: false,
                    reports: Vec::new(),
                    apps: Vec::new(),
                    received: Ghost(Seq::empty()),
                };
                assert(run.reports() =~= Seq::<ReportView>::empty());
                assert(run.gathered() =~= Seq::<AppView>::empty());
                assert(pull_reports(run.names().take(0), Seq::empty()) =~= Seq::<ReportView>::empty());
                Ok(run)
            },
        }
    }

    /// Whether a request was handed out and its answer is awaited.
    pub fn is_awaiting(&self) -> (r: bool)
        ensures
            r == self.awaiting(),
    {
        self.awaiting
    }

    /// Hands out the request for the next application; `Done` when every
    /// application has a report. While an answer is awaited, hands out the
    /// same request again.
    pub fn next_step(&mut self) -> (s: Step)
        requires
            old(self).wf(),
        ensures
            final(self).wf(),
            final(self).names() == old(self).names(),
            final(self).token() == old(self).token(),
            final(self).received() == old(self).received(),
            final(self).position() == old(self).position(),
            final(self).reports() == old(self).reports(),
            final(self).gathered() == old(self).gathered(),
            match s {
                Step::Send(req) => {
                    &&& final(self).awaiting()
                    &&& final(self).position() < final(self).names().len()
                    &&& is_fetch_request(req, final(self).token(), final(self).names()[final(self).position()])
                },
                Step::Done => !final(self).awaiting() && final(self).position() == final(self).names().len(),
            },
    {
        if self.awaiting || self.next < self.names.len() {
            let req = self.api.fetch_request(self.names[self.next].as_str());
            self.awaiting = true;
            Step::Send(req)
        } else {
            Step::Done
        }
    }

    /// Records what came of the request handed out last: the application
    /// it was for reaches its terminal state, and joins the configuration
    /// when it was read without failure. With no request awaited, does
    /// nothing.
    pub fn receive(&mut self, ex: Exchange)
        requires
            old(self).wf(),
        ensures
            final(self).wf(),
            final(self).names() == old(self).names(),
            final(self).token() == old(self).token(),
            !final(self).awaiting(),
            old(self).awaiting() ==> {
                &&& final(self).position() == old(self).position() + 1
                &&& final(self).received() == old(self).received().push(ex)
                &&& final(self).reports() == old(self).reports().push(
                    pull_report(old(self).names()[old(self).position()], ex),
                )
                &&& final(self).gathered() == match pull_result(ex) {
                    Ok(p) => old(self).gathered().push(
                        AppView { name: old(self).names()[old(self).position()], settings: p.1 },
                    ),
                    Err(_) => old(self).gathered(),
                }
            },
            !old(self).awaiting() ==> *final(self) == *old(self),
    {
        if !self.awaiting {
            return;
        }
        let ghost names = self.names.deep_view();
        let ghost old_gathered = self.gathered();
        let ghost old_reports = self.reports@;
        let ghost old_received = self.received@;
        let i = self.next;
        let n = self.names.len();
        assert(i < n);
        let name = self.names[i].clone();
        let outcome = match read_response(&ex) {
            Ok(records) => match settings_from_records(&records) {
                Some(settings) => {
                    self.apps.push(App { name: name.clone(), settings });
                    Outcome::Succeeded(records)
                },
                None => Outcome::Failed(RemoteError::MalformedRecord),
            },
            Err(e) => Outcome::Failed(e),
        };
        let report = AppReport { name, outcome };
        let ghost new_report = report;
        self.reports.push(report);
        self.received = Ghost(self.received@.push(ex));
        self.next = i + 1;
        self.awaiting = false;
        proof {
            let pre = names.take(i as int);
            assert(self.reports@ == old_reports.push(new_report));
            assert(reports_view(old_reports) == pull_reports(pre, old_received));
            assert(pre.len() == i);
            assert(pull_reports(pre, old_received).len() == i);
            assert(reports_view(old_reports).len() == old_reports.len());
            assert(old_reports.len() == i);
            let post = names.take(i + 1);
            assert(post.drop_last() =~= pre);
            assert(post.last() == names[i as int]);
            lemma_pulled_apps_prefix(pre, old_received, self.received@);
            assert(self.gathered() =~= pulled_apps(post, self.received@));
            assert(reports_view(self.reports@).last() == pull_report(names[i as int], ex));
            assert forall|k: int| 0 <= k < i implies reports_view(self.reports@)[k] == pull_reports(post, self.received@)[k] by {
                assert(self.received@[k] == old_received[k]);
                assert(self.reports@[k] == old_reports[k]);
                assert(reports_view(self.reports@)[k] == reports_view(old_reports)[k]);
            }
            assert(reports_view(self.reports@) =~= pull_reports(post, self.received@));
        }
    }

    /// The configuration gathered and the report of every application that
    /// reached a terminal state, in the order of the names.
    pub fn finish(self) -> (r: (Config, Vec<AppReport>))
        requires
            self.wf(),
        ensures
            r.0@ == (ConfigView { version: schema_version(), apps: self.gathered() }),
            self.gathered() == pulled_apps(self.names().take(self.position()), self.received()),
            reports_view(r.1@) == self.reports(),
            reports_view(r.1@) == pull_reports(self.names().take(self.position()), self.received()),
    {
        let mut config = Config::new();
        config.apps = self.apps;
        (config, self.reports)
    }
}

/// Only the first `names.len()` exchanges matter.
pub proof fn lemma_pulled_apps_prefix(names: Seq<Seq<char>>, e1: Seq<Exchange>, e2: Seq<Exchange>)
    requires
        forall|k: int| 0 <= k < names.len() ==> e1[k] == e2[k],
    ensures
        pulled_apps(names, e1) == pulled_apps(names, e2),
    decreases names.len(),
{
    if names.len() > 0 {
        lemma_pulled_apps_prefix(names.drop_last(), e1, e2);
    }
}

proof fn lemma_pulled_names_from(names: Seq<Seq<char>>, exchanges: Seq<Exchange>, k: int)
    requires
        0 <= k < pulled_apps(names, exchanges).len(),
    ensures
        exists|i: int| 0 <= i < names.len() && names[i] == pulled_apps(names, exchanges)[k].name,
    decreases names.len(),
{
    let init = names.drop_last();
    if k < pulled_apps(init, exchanges).len() {
        lemma_pulled_names_from(init, exchanges, k);
        let i = choose|i: int| 0 <= i < init.len() && init[i] == pulled_apps(init, exchanges)[k].name;
        assert(names[i] == init[i]);
    } else {
        assert(names[names.len() - 1] == pulled_apps(names, exchanges)[k].name);
    }
}

/// A pull of valid names gathers a configuration that a push accepts: its
/// application names are non-empty and unique.
pub proof fn lemma_pulled_config_valid(names: Seq<Seq<char>>, exchanges: Seq<Exchange>)
    requires
        names_valid(names),
    ensures
        config_valid(ConfigView { version: schema_version(), apps: pulled_apps(names, exchanges) }),
    decreases names.len(),
{
    let apps = pulled_apps(names, exchanges);
    if names.len() > 0 {
        let init = names.drop_last();
        assert(names_valid(init)) by {
            assert forall|i: int| 0 <= i < init.len() implies init[i].len() > 0 by {
                assert(init[i] == names[i]);
            }
            assert forall|i: int, j: int| 0 <= i < j < init.len() implies init[i] != init[j] by {
                assert(init[i] == names[i] && init[j] == names[j]);
            }
        }
        lemma_pulled_config_valid(init, exchanges);
        let prev = pulled_apps(init, exchanges);
        if apps.len() > prev.len() {
            let last = names.len() - 1;
            assert forall|k: int| 0 <= k < prev.len() implies prev[k].name != names[last] by {
                lemma_pulled_names_from(init, exchanges, k);
                let i = choose|i: int| 0 <= i < init.len() && init[i] == prev[k].name;
                assert(names[i] == init[i]);
            }
            assert forall|i: int| 0 <= i < apps.len() implies app_names(apps)[i].len() > 0 by {
                if i < prev.len() {
                    assert(app_names(prev)[i] == app_names(apps)[i]);
                } else {
                    assert(names[last].len() > 0);
                }
            }
            assert forall|i: int, j: int| 0 <= i < j < apps.len() implies app_names(apps)[i] != app_names(apps)[j] by {
                assert(app_names(prev)[i] == app_names(apps)[i]);
                if j < prev.len() {
                    assert(app_names(prev)[j] == app_names(apps)[j]);
                }
            }
        } else {
            assert(app_names(apps) == app_names(prev));
        }
    } else {
        assert(app_names(apps) =~= Seq::<Seq<char>>::empty());
    }
}

} // verus!
