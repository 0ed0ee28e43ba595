use heroku_env::platform::{read_response, status_is_success, Exchange, Method, PlatformAPI, PlatformError, RemoteError};
use heroku_env::settings::Settings;

fn header<'a>(headers: &'a [(String, String)], name: &str) -> Option<&'a str> {
    headers.iter().find(|(k, _)| k == name).map(|(_, v)| v.as_str())
}

#[test]
fn has_token() {
    let token = String::from("1234");
    let client_test = PlatformAPI::new(token);
    assert_eq!(client_test.token, "1234");
}

#[test]
fn has_headers() {
    let token = String::from("1234");
    let mut client_test = PlatformAPI::new(token);
    let headers = client_test.construct_headers();
    let auth = header(&headers, "Authorization").unwrap();
    let accept = header(&headers, "Accept").unwrap();
    let content_type = header(&headers, "Content-Type").unwrap();

    assert_eq!(auth, "Bearer 1234");
    assert_eq!(accept, "application/vnd.heroku+json; version=3");
    assert_eq!(content_type, "application/json");
}

#[test]
fn should_map_config_vars_as_vec() {
    let token = String::from("1234");
    let mut client = PlatformAPI::new(token);
    let http_response = "{ \"TEST\": \"VALUE\" }".to_string();
    let v: Vec<String> = client.success_from_response(&http_response).unwrap();
    assert_eq!(v[0], "TEST=VALUE");
}

#[test]
fn should_map_error_response() {
    let token = String::from("1234");
    let mut client = PlatformAPI::new(token);
    let http_response = "{ \"id\": \"Bad\", \"message\": \"This is bad\" }".to_string();
    let err: PlatformError = client.error_from_response(&http_response).unwrap();
    assert_eq!(err.id, "Bad");
    assert_eq!(err.message, "This is bad");
}

#[test]
fn error_body_may_carry_more_fields() {
    let mut client = PlatformAPI::new("1234".to_string());
    let body = "{\"id\":\"not_found\",\"message\":\"Couldn't find that app.\",\"resource\":\"app\",\"url\":null}";
    let err = client.error_from_response(body).unwrap();
    assert_eq!(err.id, "not_found");
    assert_eq!(err.message, "Couldn't find that app.");
}

#[test]
fn error_body_without_message_is_not_a_platform_error() {
    let mut client = PlatformAPI::new("1234".to_string());
    assert!(client.error_from_response("{\"id\":\"Bad\"}").is_none());
    assert!(client.error_from_response("{\"id\":\"Bad\",\"message\":3}").is_none());
}

#[test]
fn snapshot_needs_string_values() {
    let mut client = PlatformAPI::new("1234".to_string());
    assert!(client.success_from_response("{\"A\":\"1\",\"B\":2}").is_none());
    assert!(client.success_from_response("[\"A\"]").is_none());
    assert!(client.success_from_response("not json").is_none());
    assert_eq!(client.success_from_response("{}"), Some(Vec::new()));
}

#[test]
fn patch_request_carries_the_settings_as_json() {
    let api = PlatformAPI::new("1234".to_string());
    let mut settings = Settings::new();
    settings.insert("FOO".to_string(), "1".to_string());
    let req = api.patch_request("app-a", &settings);
    assert_eq!(req.method, Method::Patch);
    assert_eq!(req.url, "https://api.heroku.com/apps/app-a/config-vars");
    assert_eq!(req.body.as_deref(), Some("{\"FOO\":\"1\"}"));
    assert_eq!(header(&req.headers, "Authorization"), Some("Bearer 1234"));
}

#[test]
fn patch_body_escapes_json() {
    let api = PlatformAPI::new("t".to_string());
    let mut settings = Settings::new();
    settings.insert("Q".to_string(), "a\"b".to_string());
    let req = api.patch_request("x", &settings);
    assert_eq!(req.body.as_deref(), Some("{\"Q\":\"a\\\"b\"}"));
}

#[test]
fn fetch_request_has_no_body() {
    let api = PlatformAPI::new("1234".to_string());
    let req = api.fetch_request("app-b");
    assert_eq!(req.method, Method::Get);
    assert_eq!(req.url, "https://api.heroku.com/apps/app-b/config-vars");
    assert!(req.body.is_none());
    assert_eq!(header(&req.headers, "Accept"), Some("application/vnd.heroku+json; version=3"));
}

#[test]
fn success_status_is_2xx() {
    assert!(status_is_success(200));
    assert!(status_is_success(299));
    assert!(!status_is_success(199));
    assert!(!status_is_success(300));
    assert!(!status_is_success(404));
}

#[test]
fn read_response_success() {
    let ex = Exchange::Answered { status: 200, body: "{\"FOO\":\"1\"}".to_string() };
    assert_eq!(read_response(&ex).unwrap(), vec!["FOO=1".to_string()]);
}

#[test]
fn read_response_platform_error() {
    let ex = Exchange::Answered { status: 404, body: "{\"id\":\"not_found\",\"message\":\"Couldn't find that app.\"}".to_string() };
    match read_response(&ex) {
        Err(RemoteError::Platform(e)) => {
            assert_eq!(e.id, "not_found");
            assert_eq!(e.message, "Couldn't find that app.");
        }
        other => panic!("unexpected {:?}", other),
    }
}

#[test]
fn read_response_success_with_bad_body_is_a_protocol_error() {
    let ex = Exchange::Answered { status: 200, body: "{\"FOO\":{\"nested\":\"1\"}}".to_string() };
    let r = read_response(&ex);
    assert!(matches!(r, Err(RemoteError::MalformedSnapshot)));
    assert!(r.unwrap_err().is_transport());
}

#[test]
fn read_response_success_status_decides_even_for_an_error_shaped_body() {
    let ex = Exchange::Answered { status: 200, body: "{\"id\":\"x\",\"message\":5}".to_string() };
    assert!(matches!(read_response(&ex), Err(RemoteError::MalformedSnapshot)));
}

#[test]
fn read_response_failure_with_bad_body() {
    let ex = Exchange::Answered { status: 500, body: "<html>oops</html>".to_string() };
    let r = read_response(&ex);
    assert!(matches!(r, Err(RemoteError::MalformedError)));
    assert!(r.unwrap_err().is_transport());
}

#[test]
fn read_response_broken_exchange() {
    let ex = Exchange::Broken { reason: "connection refused".to_string() };
    match read_response(&ex) {
        Err(RemoteError::Connection(reason)) => assert_eq!(reason, "connection refused"),
        other => panic!("unexpected {:?}", other),
    }
}

#[test]
fn platform_error_is_not_transport() {
    let e = RemoteError::Platform(PlatformError { id: "a".to_string(), message: "b".to_string() });
    assert!(!e.is_transport());
}
