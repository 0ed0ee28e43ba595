use heroku_env::config::ConfigError;
use heroku_env::platform::{Exchange, Method, PlatformAPI, RemoteError};
use heroku_env::pull::{settings_from_records, split_record_exec, PullRun};
use heroku_env::report::Step;
use heroku_env::report::{batch_failed, Outcome};

fn run_pull(names: &[&str], answers: Vec<Exchange>) -> (heroku_env::config::Config, Vec<heroku_env::report::AppReport>) {
    let names: Vec<String> = names.iter().map(|n| n.to_string()).collect();
    let mut run = PullRun::start(PlatformAPI::new("1234".to_string()), names).unwrap();
    let mut answers = answers.into_iter();
    loop {
        match run.next_step() {
            Step::Send(req) => {
                assert_eq!(req.method, Method::Get);
                run.receive(answers.next().expect("an answer for every request"));
            }
            Step::Done => break,
        }
    }
    run.finish()
}

fn ok(body: &str) -> Exchange {
    Exchange::Answered { status: 200, body: body.to_string() }
}

#[test]
fn pull_one_app_gives_its_entry() {
    let (config, reports) = run_pull(&["x"], vec![ok("{\"KEY\":\"value\"}")]);
    assert_eq!(config.version, "1");
    assert_eq!(config.apps.len(), 1);
    assert_eq!(config.apps[0].name, "x");
    assert_eq!(config.apps[0].settings.len(), 1);
    assert_eq!(config.apps[0].settings.get("KEY"), Some(&"value".to_string()));
    assert_eq!(reports.len(), 1);
    assert!(!batch_failed(&reports));
}

#[test]
fn pull_two_apps_keeps_both_entries_in_order() {
    let (config, _) = run_pull(
        &["app-a", "app-b"],
        vec![ok("{\"FOO\":\"1\",\"BAR\":\"x=y\"}"), ok("{}")],
    );
    assert_eq!(config.apps.len(), 2);
    assert_eq!(config.apps[0].name, "app-a");
    assert_eq!(config.apps[0].settings.get("FOO"), Some(&"1".to_string()));
    assert_eq!(config.apps[0].settings.get("BAR"), Some(&"x=y".to_string()));
    assert_eq!(config.apps[1].name, "app-b");
    assert!(config.apps[1].settings.is_empty());
    assert_eq!(config.validate(), Ok(()));
}

#[test]
fn pull_leaves_out_failed_apps() {
    let (config, reports) = run_pull(
        &["gone", "here"],
        vec![
            Exchange::Answered {
                status: 404,
                body: "{\"id\":\"not_found\",\"message\":\"Couldn't find that app.\"}".to_string(),
            },
            ok("{\"A\":\"1\"}"),
        ],
    );
    assert_eq!(config.apps.len(), 1);
    assert_eq!(config.apps[0].name, "here");
    assert_eq!(reports.len(), 2);
    assert!(matches!(&reports[0].outcome, Outcome::Failed(RemoteError::Platform(e)) if e.id == "not_found"));
    assert!(matches!(reports[1].outcome, Outcome::Succeeded(_)));
    assert!(batch_failed(&reports));
}

#[test]
fn pull_refuses_no_names() {
    let r = PullRun::start(PlatformAPI::new("1234".to_string()), Vec::new());
    assert!(matches!(r, Err(ConfigError::NoApps)));
}

#[test]
fn pull_refuses_repeated_names() {
    let names = vec!["a".to_string(), "a".to_string()];
    let r = PullRun::start(PlatformAPI::new("1234".to_string()), names);
    assert!(matches!(r, Err(ConfigError::DuplicateAppName)));
}

#[test]
fn split_record_on_the_first_equals_sign() {
    assert_eq!(split_record_exec("A=b=c"), Some(("A".to_string(), "b=c".to_string())));
    assert_eq!(split_record_exec("A="), Some(("A".to_string(), "".to_string())));
    assert_eq!(split_record_exec("=v"), Some(("".to_string(), "v".to_string())));
    assert_eq!(split_record_exec("none"), None);
}

#[test]
fn records_without_separator_are_malformed() {
    let good = vec!["A=1".to_string(), "B=2".to_string()];
    let s = settings_from_records(&good).unwrap();
    assert_eq!(s.get("B"), Some(&"2".to_string()));
    let bad = vec!["A=1".to_string(), "B".to_string()];
    assert!(settings_from_records(&bad).is_none());
}

#[test]
fn pull_report_for_a_malformed_snapshot() {
    let (config, reports) = run_pull(&["x"], vec![ok("[1,2]")]);
    assert!(config.apps.is_empty());
    assert!(matches!(reports[0].outcome, Outcome::Failed(RemoteError::MalformedSnapshot)));
}
