use heroku_env::config::{App, Config, ConfigError};
use heroku_env::platform::{Exchange, Method, PlatformAPI, RemoteError};
use heroku_env::push::PushRun;
use heroku_env::report::Step;
use heroku_env::report::{batch_failed, AppReport, Outcome};
use heroku_env::settings::Settings;

fn app(name: &str, pairs: &[(&str, &str)]) -> App {
    let mut settings = Settings::new();
    for (k, v) in pairs {
        settings.insert(k.to_string(), v.to_string());
    }
    App { name: name.to_string(), settings }
}

fn config(apps: Vec<App>) -> Config {
    let mut c = Config::new();
    c.apps = apps;
    c
}

/// Runs a push, answering the requests in turn; returns the URLs requested
/// and the reports.
fn run_push(c: Config, answers: Vec<Exchange>) -> (Vec<String>, Vec<AppReport>) {
    let mut run = PushRun::start(PlatformAPI::new("1234".to_string()), c).unwrap();
    let mut answers = answers.into_iter();
    let mut urls = Vec::new();
    loop {
        match run.next_step() {
            Step::Send(req) => {
                assert_eq!(req.method, Method::Patch);
                urls.push(req.url.clone());
                run.receive(answers.next().expect("an answer for every request"));
            }
            Step::Done => break,
        }
    }
    assert!(answers.next().is_none());
    (urls, run.finish())
}

fn ok(body: &str) -> Exchange {
    Exchange::Answered { status: 200, body: body.to_string() }
}

fn not_found() -> Exchange {
    Exchange::Answered {
        status: 404,
        body: "{\"id\":\"not_found\",\"message\":\"Couldn't find that app.\"}".to_string(),
    }
}

#[test]
fn push_reports_success_and_skip() {
    let c = config(vec![app("app-a", &[("FOO", "1")]), app("app-b", &[])]);
    let (urls, reports) = run_push(c, vec![ok("{\"FOO\":\"1\"}")]);
    assert_eq!(urls, vec!["https://api.heroku.com/apps/app-a/config-vars".to_string()]);
    assert_eq!(reports.len(), 2);
    assert_eq!(reports[0].name, "app-a");
    match &reports[0].outcome {
        Outcome::Succeeded(records) => assert_eq!(records, &vec!["FOO=1".to_string()]),
        other => panic!("unexpected {:?}", other),
    }
    assert_eq!(reports[1].name, "app-b");
    assert!(matches!(reports[1].outcome, Outcome::Skipped));
    assert!(!batch_failed(&reports));
}

#[test]
fn push_reports_platform_failure_and_skip() {
    let c = config(vec![app("app-a", &[("FOO", "1")]), app("app-b", &[])]);
    let (_, reports) = run_push(c, vec![not_found()]);
    assert_eq!(reports.len(), 2);
    assert_eq!(reports[0].name, "app-a");
    match &reports[0].outcome {
        Outcome::Failed(RemoteError::Platform(e)) => {
            assert_eq!(e.id, "not_found");
            assert_eq!(e.message, "Couldn't find that app.");
        }
        other => panic!("unexpected {:?}", other),
    }
    assert!(matches!(reports[1].outcome, Outcome::Skipped));
    assert!(batch_failed(&reports));
}

#[test]
fn push_sends_nothing_for_apps_without_settings() {
    let c = config(vec![app("empty-1", &[]), app("full", &[("K", "V")]), app("empty-2", &[])]);
    let (urls, reports) = run_push(c, vec![ok("{\"K\":\"V\"}")]);
    assert_eq!(urls, vec!["https://api.heroku.com/apps/full/config-vars".to_string()]);
    assert!(matches!(reports[0].outcome, Outcome::Skipped));
    assert!(matches!(reports[1].outcome, Outcome::Succeeded(_)));
    assert!(matches!(reports[2].outcome, Outcome::Skipped));
}

#[test]
fn push_goes_on_after_a_failure() {
    let c = config(vec![
        app("app-1", &[("A", "1")]),
        app("app-2", &[("B", "2")]),
        app("app-3", &[("C", "3")]),
    ]);
    let (urls, reports) = run_push(c, vec![ok("{\"A\":\"1\"}"), not_found(), ok("{\"C\":\"3\"}")]);
    assert_eq!(urls.len(), 3);
    assert!(urls[2].contains("app-3"));
    let names: Vec<&str> = reports.iter().map(|r| r.name.as_str()).collect();
    assert_eq!(names, vec!["app-1", "app-2", "app-3"]);
    assert!(matches!(reports[0].outcome, Outcome::Succeeded(_)));
    assert!(matches!(reports[1].outcome, Outcome::Failed(RemoteError::Platform(_))));
    assert!(matches!(reports[2].outcome, Outcome::Succeeded(_)));
    assert!(batch_failed(&reports));
}

#[test]
fn push_reports_a_broken_exchange_and_goes_on() {
    let c = config(vec![app("app-1", &[("A", "1")]), app("app-2", &[("B", "2")])]);
    let (_, reports) = run_push(
        c,
        vec![Exchange::Broken { reason: "timed out".to_string() }, ok("{\"B\":\"2\"}")],
    );
    assert!(matches!(&reports[0].outcome, Outcome::Failed(RemoteError::Connection(r)) if r == "timed out"));
    assert!(matches!(reports[1].outcome, Outcome::Succeeded(_)));
}

#[test]
fn push_of_an_empty_config_sends_nothing() {
    let (urls, reports) = run_push(Config::new(), vec![]);
    assert!(urls.is_empty());
    assert!(reports.is_empty());
    assert!(!batch_failed(&reports));
}

#[test]
fn push_refuses_repeated_names_before_any_request() {
    let c = config(vec![app("same", &[("A", "1")]), app("same", &[("B", "2")])]);
    let r = PushRun::start(PlatformAPI::new("1234".to_string()), c);
    assert!(matches!(r, Err(ConfigError::DuplicateAppName)));
}

#[test]
fn push_refuses_an_empty_name() {
    let c = config(vec![app("", &[("A", "1")])]);
    let r = PushRun::start(PlatformAPI::new("1234".to_string()), c);
    assert!(matches!(r, Err(ConfigError::EmptyAppName)));
}

#[test]
fn push_run_awaits_between_send_and_receive() {
    let c = config(vec![app("a", &[("A", "1")])]);
    let mut run = PushRun::start(PlatformAPI::new("1234".to_string()), c).unwrap();
    assert!(!run.is_awaiting());
    let step = run.next_step();
    assert!(matches!(step, Step::Send(_)));
    assert!(run.is_awaiting());
    run.receive(ok("{\"A\":\"1\"}"));
    assert!(!run.is_awaiting());
    assert!(matches!(run.next_step(), Step::Done));
}
