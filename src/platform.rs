//! The remote client: the requests sent to the platform API and the
//! classification of its answers.

use crate::json::{encode_json_object, json_object_members, json_object_text, parse_json_object};
use crate::settings::Settings;
use vstd::prelude::*;
use vstd::string::*;

verus! {

/// What a platform error is, as a value.
pub struct PlatformErrorView {
    pub id: Seq<char>,
    pub message: Seq<char>,
}

/// A failure that the remote store reported in a structured body.
#[derive(Debug)]
pub struct PlatformError {
    /// Id of the error message
    pub id: String,
    /// Body of the error message
    pub message: String,
}

impl View for PlatformError {
    type V = PlatformErrorView;

    open spec fn view(&self) -> PlatformErrorView {
        PlatformErrorView { id: self.id@, message: self.message@ }
    }
}

/// What a remote error is, as a value.
pub enum RemoteErrorView {
    Platform(PlatformErrorView),
    Connection(Seq<char>),
    MalformedSnapshot,
    MalformedError,
    MalformedRecord,
}

/// Why one application's remote operation failed.
#[derive(Debug)]
pub enum RemoteError {
    /// The remote store refused the operation and said why.
    Platform(PlatformError),
    /// The exchange did not complete.
    Connection(String),
    /// A success status came with a body that is not a flat JSON object of
    /// strings.
    MalformedSnapshot,
    /// A failure status came with a body that is not a platform error.
    MalformedError,
    /// A snapshot record holds no `=`.
    MalformedRecord,
}

impl View for RemoteError {
    type V = RemoteErrorView;

    open spec fn view(&self) -> RemoteErrorView {
        match self {
            RemoteError::Platform(e) => RemoteErrorView::Platform(e@),
            RemoteError::Connection(s) => RemoteErrorView::Connection(s@),
            RemoteError::MalformedSnapshot => RemoteErrorView::MalformedSnapshot,
            RemoteError::MalformedError => RemoteErrorView::MalformedError,
            RemoteError::MalformedRecord => RemoteErrorView::MalformedRecord,
        }
    }
}

impl RemoteError {
    /// Whether this is a transport or protocol failure rather than one that
    /// the remote store acknowledged.
    pub fn is_transport(&self) -> (r: bool)
        ensures
            r == !(self is Platform),
    {
        match self {
            RemoteError::Platform(_) => false,
            _ => true,
        }
    }
}

/// The HTTP method of a request.
#[derive(Debug, Clone, Copy, PartialEq, Eq, Structural)]
pub enum Method {
    Get,
    Patch,
}

/// One HTTP request to the platform API.
#[derive(Debug)]
pub struct Request {
    pub method: Method,
    pub url: String,
    pub headers: Vec<(String, String)>,
    pub body: Option<String>,
}

/// What came of sending a request.
#[derive(Debug)]
pub enum Exchange {
    /// The remote store answered with this status and body.
    Answered { status: u16, body: String },
    /// The exchange could not complete.
    Broken { reason: String },
}

pub open spec fn is_success_status(status: u16) -> bool {
    200 <= status <= 299
}

/// Whether an HTTP status is a success (2xx).
pub fn status_is_success(status: u16) -> (r: bool)
    ensures
        r == is_success_status(status),
{
    200 <= status && status <= 299
}

/// The headers of every request made with `token`.
pub open spec fn standard_headers(token: Seq<char>) -> Seq<(Seq<char>, Seq<char>)> {
    seq![
        ("Accept"@, "application/vnd.heroku+json; version=3"@),
        ("Content-Type"@, "application/json"@),
        ("Authorization"@, "Bearer "@ + token),
    ]
}

/// The settings resource of an application.
pub open spec fn config_vars_url(app_name: Seq<char>) -> Seq<char> {
    "https://api.heroku.com/apps/"@ + app_name + "/config-vars"@
}

/// The request that sets `pairs` on the application `app_name`.
pub open spec fn is_patch_request(
    r: Request,
    token: Seq<char>,
    app_name: Seq<char>,
    pairs: Seq<(Seq<char>, Seq<char>)>,
) -> bool {
    &&& r.method == Method::Patch
    &&& r.url@ == config_vars_url(app_name)
    &&& r.headers.deep_view() == standard_headers(token)
    &&& r.body.deep_view() == Some(json_object_text(pairs))
}

/// The request that reads the settings of the application `app_name`.
pub open spec fn is_fetch_request(r: Request, token: Seq<char>, app_name: Seq<char>) -> bool {
    &&& r.method == Method::Get
    &&& r.url@ == config_vars_url(app_name)
    &&& r.headers.deep_view() == standard_headers(token)
    &&& r.body is None
}

/// A snapshot record: a key and its value joined by `=`.
pub open spec fn record_of(key: Seq<char>, value: Seq<char>) -> Seq<char> {
    key + "="@ + value
}

/// The snapshot that a list of members denotes: defined when every value is
/// a string.
pub open spec fn snapshot_of_members(ms: Seq<(Seq<char>, Option<Seq<char>>)>) -> Option<Seq<Seq<char>>> {
    if forall|i: int| 0 <= i < ms.len() ==> (#[trigger] ms[i]).1 is Some {
        Some(Seq::new(ms.len(), |i: int| record_of(ms[i].0, ms[i].1->Some_0)))
    } else {
        None
    }
}

/// The string value of the last member named `key`.
pub open spec fn string_member(ms: Seq<(Seq<char>, Option<Seq<char>>)>, key: Seq<char>) -> Option<Seq<char>>
    decreases ms.len(),
{
    if ms.len() == 0 {
        None
    } else if ms.last().0 == key {
        ms.last().1
    } else {
        string_member(ms.drop_last(), key)
    }
}

/// The platform error that a list of members denotes: defined when `id`
/// and `message` are strings.
pub open spec fn platform_error_of_members(ms: Seq<(Seq<char>, Option<Seq<char>>)>) -> Option<PlatformErrorView> {
    match (string_member(ms, "id"@), string_member(ms, "message"@)) {
        (Some(id), Some(message)) => Some(PlatformErrorView { id, message }),
        _ => None,
    }
}

/// The snapshot that a response body holds, if it is a flat JSON object of
/// strings.
pub open spec fn snapshot_of_body(body: Seq<char>) -> Option<Seq<Seq<char>>> {
    match json_object_members(body) {
        Some(ms) => snapshot_of_members(ms),
        None => None,
    }
}

/// The platform error that a response body holds, if any.
pub open spec fn platform_error_of_body(body: Seq<char>) -> Option<PlatformErrorView> {
    match json_object_members(body) {
        Some(ms) => platform_error_of_members(ms),
        None => None,
    }
}

/// How an exchange is classified: by status first, then by the body's shape
/// in the branch that the status picked.
pub open spec fn response_result(ex: Exchange) -> Result<Seq<Seq<char>>, RemoteErrorView> {
    match ex {
        Exchange::Broken { reason } => Err(RemoteErrorView::Connection(reason@)),
        Exchange::Answered { status, body } => if is_success_status(status) {
            match snapshot_of_body(body@) {
                Some(s) => Ok(s),
                None => Err(RemoteErrorView::MalformedSnapshot),
            }
        } else {
            match platform_error_of_body(body@) {
                Some(e) => Err(RemoteErrorView::Platform(e)),
                None => Err(RemoteErrorView::MalformedError),
            }
        },
    }
}

/// A success status whose body is not a flat JSON object of strings is a
/// protocol failure, never a success.
pub proof fn lemma_success_needs_snapshot(status: u16, body: String)
    requires
        is_success_status(status),
        snapshot_of_body(body@) is None,
    ensures
        response_result(Exchange::Answered { status, body }) == Err::<Seq<Seq<char>>, RemoteErrorView>(
            RemoteErrorView::MalformedSnapshot,
        ),
{
}

pub open spec fn result_view(r: Result<Vec<String>, RemoteError>) -> Result<Seq<Seq<char>>, RemoteErrorView> {
    match r {
        Ok(v) => Ok(v.deep_view()),
        Err(e) => Err(e@),
    }
}

fn join_record(key: &String, value: &String) -> (r: String)
    ensures
        r@ == record_of(key@, value@),
{
    let mut r = key.clone();
    r.append("=");
    r.append(value.as_str());
    r
}

/// The snapshot records of a list of members, when every value is a string.
pub fn snapshot_from_members(members: &Vec<(String, Option<String>)>) -> (r: Option<Vec<String>>)
    ensures
        snapshot_of_members(members.deep_view()) == match r {
            Some(v) => Some(v.deep_view()),
            None => None::<Seq<Seq<char>>>,
        },
{
    let ghost ms = members.deep_view();
    let mut records: Vec<String> = Vec::new();
    let n = members.len();
    let mut i: usize = 0;
    while i < n
        invariant
            n == members@.len(),
            ms == members.deep_view(),
            i <= n,
            records@.len() == i,
            forall|k: int| 0 <= k < i ==> (#[trigger] ms[k]).1 is Some,
            forall|k: int| 0 <= k < i ==> (#[trigger] records@[k])@ == record_of(ms[k].0, ms[k].1->Some_0),
        decreases n - i,
    {
        match &members[i].1 {
            Some(v) => {
                records.push(join_record(&members[i].0, v));
            },
            None => {
                assert(ms[i as int].1 is None);
                return None;
            },
        }
        i = i + 1;
    }
    assert(records.deep_view() =~= snapshot_of_members(ms)->Some_0);
    Some(records)
}

/// The string value of the last member named `key`.
fn find_string_member(members: &Vec<(String, Option<String>)>, key: &str) -> (r: Option<String>)
    ensures
        r.deep_view() == string_member(members.deep_view(), key@),
{
    let ghost ms = members.deep_view();
    let k = String::from_str(key);
    let mut i: usize = members.len();
    assert(ms.take(i as int) =~= ms);
    while i > 0
        invariant
            i <= members@.len(),
            ms == members.deep_view(),
            k@ == key@,
            string_member(ms, key@) == string_member(ms.take(i as int), key@),
        decreases i,
    {
        i = i - 1;
        assert(ms.take(i + 1).drop_last() =~= ms.take(i as int));
        if members[i].0 == k {
            return match &members[i].1 {
                Some(v) => Some(v.clone()),
                None => None,
            };
        }
    }
    None
}

/// The platform error that a list of members denotes, when `id` and
/// `message` are strings.
pub fn platform_error_from_members(members: &Vec<(String, Option<String>)>) -> (r: Option<PlatformError>)
    ensures
        platform_error_of_members(members.deep_view()) == match r {
            Some(e) => Some(e@),
            None => None::<PlatformErrorView>,
        },
{
    let id = find_string_member(members, "id");
    let message = find_string_member(members, "message");
    match (id, message) {
        (Some(id), Some(message)) => Some(PlatformError { id, message }),
        _ => None,
    }
}

/// Classifies what came of one request: a success status must carry a
/// snapshot, any other status a platform error.
pub fn read_response(ex: &Exchange) -> (r: Result<Vec<String>, RemoteError>)
    ensures
        result_view(r) == response_result(*ex),
{
    match ex {
        Exchange::Broken { reason } => Err(RemoteError::Connection(reason.clone())),
        Exchange::Answered { status, body } => {
            let members = parse_json_object(body.as_str());
            if status_is_success(*status) {
                let snapshot = match &members {
                    Some(ms) => snapshot_from_members(ms),
                    None => None,
                };
                match snapshot {
                    Some(s) => Ok(s),
                    None => Err(RemoteError::MalformedSnapshot),
                }
            } else {
                let error = match &members {
                    Some(ms) => platform_error_from_members(ms),
                    None => None,
                };
                match error {
                    Some(e) => Err(RemoteError::Platform(e)),
                    None => Err(RemoteError::MalformedError),
                }
            }
        },
    }
}

/// The credentials of the remote client and the requests made with them.
pub struct PlatformAPI {
    /// The token to use with the platform API
    pub token: String,
}

impl PlatformAPI {
    /// A client that authenticates with `token`.
    pub fn new(token: String) -> (r: PlatformAPI)
        ensures
            r.token@ == token@,
    {
        PlatformAPI { token }
    }

    /// The headers of every request: the API version, the JSON content
    /// type and the bearer token.
    pub fn construct_headers(&mut self) -> (r: Vec<(String, String)>)
        ensures
            r.deep_view() == standard_headers(old(self).token@),
            *final(self) == *old(self),
    {
        self.headers()
    }

    fn headers(&self) -> (r: Vec<(String, String)>)
        ensures
            r.deep_view() == standard_headers(self.token@),
    {
        let mut bearer = String::from_str("Bearer ");
        bearer.append(self.token.as_str());
        let mut r: Vec<(String, String)> = Vec::new();
        r.push((String::from_str("Accept"), String::from_str("application/vnd.heroku+json; version=3")));
        r.push((String::from_str("Content-Type"), String::from_str("application/json")));
        r.push((String::from_str("Authorization"), bearer));
        assert(r.deep_view() =~= standard_headers(self.token@));
        r
    }

    fn url(app_name: &str) -> (r: String)
        ensures
            r@ == config_vars_url(app_name@),
    {
        let mut r = String::from_str("https://api.heroku.com/apps/");
        r.append(app_name);
        r.append("/config-vars");
        r
    }

    /// The request that sets `settings` on the application `app_name`,
    /// leaving its other keys as they are.
    pub fn patch_request(&self, app_name: &str, settings: &Settings) -> (r: Request)
        ensures
            is_patch_request(r, self.token@, app_name@, settings.pairs()),
    {
        let body = encode_json_object(settings.entries());
        Request { method: Method::Patch, url: Self::url(app_name), headers: self.headers(), body: Some(body) }
    }

    /// The request that reads the settings of the application `app_name`.
    pub fn fetch_request(&self, app_name: &str) -> (r: Request)
        ensures
            is_fetch_request(r, self.token@, app_name@),
    {
        Request { method: Method::Get, url: Self::url(app_name), headers: self.headers(), body: None }
    }

    /// The snapshot records of a success body, when it is a flat JSON object
    /// of strings.
    pub fn success_from_response(&mut self, response: &str) -> (r: Option<Vec<String>>)
        ensures
            snapshot_of_body(response@) == match r {
                Some(v) => Some(v.deep_view()),
                None => None::<Seq<Seq<char>>>,
            },
            *final(self) == *old(self),
    {
        match parse_json_object(response) {
            Some(ms) => snapshot_from_members(&ms),
            None => None,
        }
    }

    /// The platform error of a failure body, when it holds one.
    pub fn error_from_response(&mut self, response: &str) -> (r: Option<PlatformError>)
        ensures
            platform_error_of_body(response@) == match r {
                Some(e) => Some(e@),
                None => None::<PlatformErrorView>,
            },
            *final(self) == *old(self),
    {
        match parse_json_object(response) {
            Some(ms) => platform_error_from_members(&ms),
            None => None,
        }
    }
}

} // verus!
