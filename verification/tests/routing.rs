use bitforge::routing::{
    build_log_id, content_type, decode_component, parse_cursor, query_flag, query_value,
    requested_image, route_request, spa_candidate, task_cancel_id, task_detail_id, Route,
};

#[test]
fn ids_in_paths() {
    assert_eq!(task_detail_id("/api/tasks/42"), Some(42));
    assert_eq!(task_detail_id("/api/tasks/42/cancel"), None);
    assert_eq!(task_detail_id("/api/tasks/x"), None);
    assert_eq!(task_cancel_id("/api/tasks/7/cancel"), Some(7));
    assert_eq!(task_cancel_id("/api/tasks/7"), None);
    assert_eq!(build_log_id("/api/builds/-3/log"), Some(-3));
    assert_eq!(build_log_id("/api/builds/3"), None);
}

#[test]
fn query_strings() {
    assert_eq!(query_value("image=a&refresh=1", "refresh").as_deref(), Some("1"));
    assert_eq!(query_value("imagex=a&image=b", "image").as_deref(), Some("b"));
    assert_eq!(query_value("a=1", "b"), None);
    assert!(query_flag("force=1", "force"));
    assert!(!query_flag("force=yes", "force"));
    assert_eq!(parse_cursor("cursor=15&x=1"), 15);
    assert_eq!(parse_cursor("cursor=abc"), 0);
    assert_eq!(parse_cursor(""), 0);
    assert_eq!(decode_component("a%2Fb%2fc+d"), "a/b/c d");
    assert_eq!(requested_image("image=core-image%2Fx", None).as_deref(), Some("core-image/x"));
    assert_eq!(requested_image("", Some("def".into())).as_deref(), Some("def"));
}

#[test]
fn static_files() {
    assert_eq!(content_type("index.html"), "text/html; charset=utf-8");
    assert_eq!(content_type("assets/app.min.js"), "text/javascript; charset=utf-8");
    assert_eq!(content_type("logo.SVG"), "application/octet-stream");
    assert_eq!(content_type("noext"), "application/octet-stream");
    assert_eq!(spa_candidate("/"), "index.html");
    assert_eq!(spa_candidate("//assets/x.css"), "assets/x.css");
}

#[test]
fn routes() {
    assert_eq!(route_request("GET", "/api/events"), Route::Events);
    assert_eq!(route_request("GET", "/api/info"), Route::Info);
    assert_eq!(route_request("GET", "/api/poll"), Route::Poll);
    assert_eq!(route_request("GET", "/api/builds/5/log"), Route::BuildLog(5));
    assert_eq!(route_request("GET", "/api/tasks/5"), Route::TaskDetail(5));
    assert_eq!(route_request("POST", "/api/tasks/5/cancel"), Route::TaskCancel(5));
    assert_eq!(route_request("POST", "/api/tasks/cancel-all"), Route::CancelAllTasks);
    assert_eq!(route_request("GET", "/api/tasks"), Route::GetTasks);
    assert_eq!(route_request("POST", "/api/project"), Route::PostProject);
    assert_eq!(route_request("GET", "/api/recipetree"), Route::GetRecipeTree);
    assert_eq!(route_request("DELETE", "/api/project"), Route::NotFound);
    assert_eq!(route_request("GET", "/api/nothing"), Route::NotFound);
    assert_eq!(route_request("GET", "/index.html"), Route::Spa);
    assert_eq!(route_request("POST", "/index.html"), Route::MethodNotAllowed);
}
