//! The declarative model: a versioned list of applications, each with its
//! settings.

use crate::settings::Settings;
use vstd::prelude::*;
use vstd::string::*;

verus! {

/// The schema tag that new documents carry.
pub open spec fn schema_version() -> Seq<char> {
    "1"@
}

fn new_version() -> (r: String)
    ensures
        r@ == schema_version(),
{
    String::from_str("1")
}

/// What an application is, as a value.
pub struct AppView {
    pub name: Seq<char>,
    pub settings: Map<Seq<char>, Seq<char>>,
}

/// What a configuration is, as a value.
pub struct ConfigView {
    pub version: Seq<char>,
    pub apps: Seq<AppView>,
}

/// A named application and the settings declared for it.
#[derive(Debug)]
pub struct App {
    /// The name of the application
    pub name: String,
    /// Key-value pairs of settings
    pub settings: Settings,
}

impl View for App {
    type V = AppView;

    open spec fn view(&self) -> AppView {
        AppView { name: self.name@, settings: self.settings@ }
    }
}

/// A versioned, ordered list of applications.
#[derive(Debug)]
pub struct Config {
    /// The schema tag of the document
    pub version: String,
    /// The applications, in declaration order
    pub apps: Vec<App>,
}

impl View for Config {
    type V = ConfigView;

    open spec fn view(&self) -> ConfigView {
        ConfigView { version: self.version@, apps: self.apps@.map_values(|a: App| a@) }
    }
}

/// A batch that the engine refuses before any remote call.
#[derive(Debug, PartialEq, Eq, Structural, Clone, Copy)]
pub enum ConfigError {
    /// A pull was asked for no application at all.
    NoApps,
    /// An application name is empty.
    EmptyAppName,
    /// Two applications share a name.
    DuplicateAppName,
}

pub open spec fn has_empty_name(names: Seq<Seq<char>>) -> bool {
    exists|i: int| 0 <= i < names.len() && names[i].len() == 0
}

pub open spec fn has_duplicate_name(names: Seq<Seq<char>>) -> bool {
    exists|i: int, j: int| 0 <= i < j < names.len() && names[i] == names[j]
}

/// Names are non-empty and unique.
pub open spec fn names_valid(names: Seq<Seq<char>>) -> bool {
    !has_empty_name(names) && !has_duplicate_name(names)
}

pub open spec fn app_names(apps: Seq<AppView>) -> Seq<Seq<char>> {
    apps.map_values(|a: AppView| a.name)
}

/// The invariants that a configuration must meet before it is pushed.
pub open spec fn config_valid(c: ConfigView) -> bool {
    names_valid(app_names(c.apps))
}

/// The outcome of checking a list of names, by the rules of `names_valid`:
/// an empty name is reported before a duplicate.
pub open spec fn names_check(names: Seq<Seq<char>>) -> Result<(), ConfigError> {
    if has_empty_name(names) {
        Err(ConfigError::EmptyAppName)
    } else if has_duplicate_name(names) {
        Err(ConfigError::DuplicateAppName)
    } else {
        Ok(())
    }
}

/// Checks that the names are non-empty and unique.
pub fn check_names(names: &Vec<String>) -> (r: Result<(), ConfigError>)
    ensures
        r == names_check(names.deep_view()),
{
    let ghost ns = names.deep_view();
    let n = names.len();
    let mut i: usize = 0;
    while i < n
        invariant
            n == names@.len(),
            ns == names.deep_view(),
            i <= n,
            forall|k: int| 0 <= k < i ==> ns[k].len() > 0,
        decreases n - i,
    {
        if names[i].as_str().is_empty() {
            assert(ns[i as int].len() == 0);
            return Err(ConfigError::EmptyAppName);
        }
        i = i + 1;
    }
    let mut j: usize = 0;
    while j < n
        invariant
            n == names@.len(),
            ns == names.deep_view(),
            !has_empty_name(ns),
            j <= n,
            forall|a: int, b: int| 0 <= a < b < j ==> ns[a] != ns[b],
        decreases n - j,
    {
        let mut i: usize = 0;
        while i < j
            invariant
                n == names@.len(),
                ns == names.deep_view(),
                !has_empty_name(ns),
                i <= j < n,
                forall|a: int| 0 <= a < i ==> ns[a] != ns[j as int],
            decreases j - i,
        {
            if names[i] == names[j] {
                assert(ns[i as int] == ns[j as int]);
                return Err(ConfigError::DuplicateAppName);
            }
            i = i + 1;
        }
        j = j + 1;
    }
    Ok(())
}

impl App {
    /// An application with an empty name and no settings.
    pub fn new() -> (r: App)
        ensures
            r@.name == Seq::<char>::empty(),
            r@.settings == Map::<Seq<char>, Seq<char>>::empty(),
    {
        App { name: String::new(), settings: Settings::new() }
    }
}

impl Config {
    /// A configuration of the current schema version with no application.
    pub fn new() -> (r: Config)
        ensures
            r@.version == schema_version(),
            r@.apps == Seq::<AppView>::empty(),
            r.apps@ == Seq::<App>::empty(),
    {
        let r = Config { version: new_version(), apps: Vec::new() };
        assert(r@.apps =~= Seq::<AppView>::empty());
        r
    }

    /// A configuration that holds one application with the given settings.
    /// An empty name is refused.
    pub fn from_app(app_name: &str, settings: Settings) -> (r: Result<Config, String>)
        ensures
            r is Ok <==> app_name@.len() > 0,
            r matches Ok(c) ==> c@ == (ConfigView {
                version: schema_version(),
                apps: seq![AppView { name: app_name@, settings: settings@ }],
            }),
            r matches Ok(c) ==> c.apps@[0].settings.pairs() == settings.pairs(),
    {
        if app_name.is_empty() {
            return Err(String::from_str("the application name is empty"));
        }
        let app = App { name: String::from_str(app_name), settings };
        let mut apps: Vec<App> = Vec::new();
        apps.push(app);
        let c = Config { version: new_version(), apps };
        assert(c@.apps =~= seq![AppView { name: app_name@, settings: settings@ }]);
        Ok(c)
    }

    /// The application names, in order.
    pub fn app_names(&self) -> (r: Vec<String>)
        ensures
            r.deep_view() == app_names(self@.apps),
    {
        let mut r: Vec<String> = Vec::new();
        let n = self.apps.len();
        let mut i: usize = 0;
        while i < n
            invariant
                n == self.apps@.len(),
                i <= n,
                r@.len() == i,
                forall|k: int| 0 <= k < i ==> r@[k]@ == self.apps@[k].name@,
            decreases n - i,
        {
            r.push(self.apps[i].name.clone());
            i = i + 1;
        }
        assert(r.deep_view() =~= app_names(self@.apps));
        r
    }

    /// Checks the invariants that a configuration must meet before it is
    /// pushed: application names are non-empty and unique.
    pub fn validate(&self) -> (r: Result<(), ConfigError>)
        ensures
            r == names_check(app_names(self@.apps)),
            r is Ok <==> config_valid(self@),
    {
        let names = self.app_names();
        check_names(&names)
    }
}

} // verus!
