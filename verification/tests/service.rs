use todo_service::http::cors_allowed_headers;
use todo_service::http::create_reply;
use todo_service::http::list_reply;
use todo_service::http::plan_request;
use todo_service::http::route_of;
use todo_service::http::Plan;
use todo_service::http::Route;
use todo_service::Config;
use todo_service::StartupError;
use todo_service::Todo;

#[test]
fn create_success_answers_the_stored_item() {
    let rep = create_reply(Ok(Todo { id: 1, title: b"buy milk".to_vec(), completed: false }));
    assert_eq!(rep.status, 200);
    assert_eq!(rep.body, b"{\"id\":1,\"title\":\"buy milk\",\"completed\":false}".to_vec());
}

#[test]
fn create_failure_answers_the_error_body() {
    let rep = create_reply(Err(b"connection closed".to_vec()));
    assert_eq!(rep.status, 500);
    assert_eq!(rep.body, b"{\"error\":\"connection closed\"}".to_vec());
}

#[test]
fn list_on_empty_table_answers_empty_array() {
    let rep = list_reply(Ok(Vec::new()));
    assert_eq!(rep.status, 200);
    assert_eq!(rep.body, b"[]".to_vec());
}

#[test]
fn list_failure_answers_the_error_body() {
    let rep = list_reply(Err(b"backend unreachable".to_vec()));
    assert_eq!(rep.status, 500);
    assert_eq!(rep.body, b"{\"error\":\"backend unreachable\"}".to_vec());
}

#[test]
fn routes_the_two_operations() {
    assert!(matches!(route_of(b"POST", b"/"), Route::Create));
    assert!(matches!(route_of(b"GET", b"/"), Route::List));
    assert!(matches!(route_of(b"DELETE", b"/"), Route::NotFound));
    assert!(matches!(route_of(b"GET", b"/todos"), Route::NotFound));
    assert!(matches!(route_of(b"get", b"/"), Route::NotFound));
}

#[test]
fn plans_a_valid_create() {
    match plan_request(b"POST", b"/", b"{\"title\":\"x\",\"completed\":true}") {
        Plan::Create(ct) => {
            assert_eq!(ct.title, b"x".to_vec());
            assert!(ct.completed);
        },
        _ => panic!("expected a create plan"),
    }
}

#[test]
fn plans_a_list() {
    assert!(matches!(plan_request(b"GET", b"/", b""), Plan::List));
}

#[test]
fn malformed_create_is_rejected_before_the_operation() {
    // a payload without `completed` is a client error, not a backend failure
    match plan_request(b"POST", b"/", b"{\"title\":\"x\"}") {
        Plan::Reply(rep) => {
            assert_eq!(rep.status, 400);
            assert_eq!(rep.body, b"{\"error\":\"malformed request body\"}".to_vec());
        },
        _ => panic!("expected an immediate reply"),
    }
}

#[test]
fn unhandled_routes_answer_not_found() {
    match plan_request(b"PUT", b"/", b"") {
        Plan::Reply(rep) => {
            assert_eq!(rep.status, 404);
            assert_eq!(rep.body, b"{\"error\":\"not found\"}".to_vec());
        },
        _ => panic!("expected an immediate reply"),
    }
}

#[test]
fn cors_allow_list_names_the_five_headers() {
    let names = cors_allowed_headers();
    assert_eq!(names.len(), 5);
    assert_eq!(names[0], b"accept".to_vec());
    assert_eq!(names[1], b"accept-encoding".to_vec());
    assert_eq!(names[2], b"authorization".to_vec());
    assert_eq!(names[3], b"content-type".to_vec());
    assert_eq!(names[4], b"origin".to_vec());
}

#[test]
fn startup_requires_the_connection_string() {
    match Config::from_env(None, None) {
        Err(StartupError::MissingDatabaseUrl) => {},
        _ => panic!("expected the missing connection string error"),
    }
}

#[test]
fn startup_fills_the_defaults() {
    let c = Config::from_env(Some(b"postgres://localhost/todos".to_vec()), None).unwrap();
    assert_eq!(c.database_url, b"postgres://localhost/todos".to_vec());
    assert_eq!(c.commit_sha, b"development".to_vec());
    assert_eq!(c.max_connections, 5);
    assert_eq!(c.acquire_timeout_secs, 30);
}

#[test]
fn startup_keeps_a_given_commit_sha() {
    let c = Config::from_env(Some(b"postgres://db/x".to_vec()), Some(b"abc123".to_vec())).unwrap();
    assert_eq!(c.commit_sha, b"abc123".to_vec());
}
