//! Routing, dispatch, and the response wire format.

use budget_server::http_utils::{
    body_size_from_headers, content_too_large, empty_response, find_header_in_request, ok_json,
    serialize_response, unauthorized, ParsedRequest,
};
use budget_server::router::{Content, HandlerKind, NodeData, RouteError, RouteNode, Router};
use budget_server::http_utils::{content_type_for, ok_file};
use budget_server::server::{classify_request, request_fits, sanitize_filename, split_path, Dispatch};

fn req(method: &str, path: &str, headers: Vec<(String, String)>) -> ParsedRequest {
    ParsedRequest { method: String::from(method), path: String::from(path), headers }
}

#[test]
fn split_path_segments() {
    let segs = split_path("/users/register");
    assert_eq!(segs, vec![String::from("/"), String::from("users"), String::from("register")]);
    assert_eq!(split_path("/"), vec![String::from("/")]);
    assert_eq!(split_path(""), Vec::<String>::new());
    assert_eq!(split_path("/a//b"), vec![String::from("/"), String::from("a"), String::from("b")]);
}

#[test]
fn routes_resolve_to_their_actions() {
    let router = Router::new();
    let home = router.route("GET", &split_path("/home")).unwrap();
    assert_eq!(home.0, Content::HandlerFunction(HandlerKind::HomePage));
    let index = router.route("GET", &split_path("/")).unwrap();
    assert_eq!(index.0, Content::HandlerFunction(HandlerKind::IndexPage));
    let reg = router.route("POST", &split_path("/users/register")).unwrap();
    assert_eq!(reg.0, Content::RegisterRequest);
    let login = router.route("POST", &split_path("/users/login")).unwrap();
    assert_eq!(login.0, Content::LoginRequest);
    let logout = router.route("POST", &split_path("/users/logout")).unwrap();
    assert_eq!(logout.0, Content::LogoutRequest);
    let cmd = router.route("POST", &split_path("/user")).unwrap();
    assert_eq!(cmd.0, Content::UserCommand);
    let data = router.route("GET", &split_path("/user")).unwrap();
    assert_eq!(data.0, Content::UserDataRequest);
    let probe = router.route("GET", &split_path("/probe_telemetry")).unwrap();
    assert_eq!(probe.0, Content::TelemetryQuery);
}

#[test]
fn route_lookup_is_repeatable() {
    let router = Router::new();
    let first = router.route("GET", &split_path("/home"));
    let second = router.route("GET", &split_path("/home"));
    assert_eq!(first, second);
}

#[test]
fn unknown_route_and_method() {
    let router = Router::new();
    assert_eq!(router.route("GET", &split_path("/nowhere")), Err(RouteError::NotFound));
    assert_eq!(router.route("PUT", &split_path("/home")), Err(RouteError::MethodNotAllowed));
    assert!(router.route("get", &split_path("/home")).is_ok());
}

#[test]
fn file_route_keeps_the_remaining_path() {
    let router = Router::new();
    let file = router.route("GET", &split_path("/file/css/style.css")).unwrap();
    assert_eq!(file.0, Content::HandlerFunction(HandlerKind::FileFetch));
    assert_eq!(file.1, 2);
}

#[test]
fn classify_register_request() {
    let router = Router::new();
    let buf: Vec<u8> =
        b"POST /users/register HTTP/1.1\r\nContent-Length: 5\r\n\r\n".to_vec();
    let body = String::from("{\"username\":\"a\",\"password\":\"p\"}");
    let d = classify_request(&router, &buf, &body);
    assert!(matches!(d, Dispatch::Register { .. }));
}

#[test]
fn classify_command_needs_token_and_body() {
    let router = Router::new();
    let with_token: Vec<u8> =
        b"POST /user HTTP/1.1\r\nAuthorization: tok123\r\n\r\n".to_vec();
    let body = String::from("{\"command\":\"getpaid\"}");
    match classify_request(&router, &with_token, &body) {
        Dispatch::UserCommand { token, body: b } => {
            assert_eq!(token, "tok123");
            assert_eq!(b, "{\"command\":\"getpaid\"}");
        }
        _ => panic!("expected a user command dispatch"),
    }
    let no_token: Vec<u8> = b"POST /user HTTP/1.1\r\n\r\n".to_vec();
    let d2 = classify_request(&router, &no_token, &body);
    assert!(matches!(d2, Dispatch::RespondBadRequest));
    let empty_body = String::new();
    let d3 = classify_request(&router, &with_token, &empty_body);
    assert!(matches!(d3, Dispatch::RespondBadRequest));
}

#[test]
fn classify_garbage_is_a_bad_request() {
    let router = Router::new();
    let buf: Vec<u8> = b"\x01\x02 nonsense\r\n\r\n".to_vec();
    let d = classify_request(&router, &buf, &String::new());
    assert!(matches!(d, Dispatch::RespondBadRequest));
}

#[test]
fn classify_static_and_telemetry() {
    let router = Router::new();
    let idx: Vec<u8> = b"GET / HTTP/1.1\r\n\r\n".to_vec();
    match classify_request(&router, &idx, &String::new()) {
        Dispatch::StaticFile { filename } => assert_eq!(filename, "index.html"),
        _ => panic!("expected the index file"),
    }
    let f: Vec<u8> = b"GET /file/css/style.css HTTP/1.1\r\n\r\n".to_vec();
    match classify_request(&router, &f, &String::new()) {
        Dispatch::StaticFile { filename } => assert_eq!(filename, "css/style.css"),
        _ => panic!("expected a file path"),
    }
    let t: Vec<u8> = b"GET /probe_telemetry HTTP/1.1\r\n\r\n".to_vec();
    assert!(matches!(classify_request(&router, &t, &String::new()), Dispatch::TelemetryQuery));
}

#[test]
fn content_length_is_read_from_headers() {
    assert_eq!(body_size_from_headers("POST / HTTP/1.1\r\nContent-Length: 42\r\n\r\n"), 42);
    assert_eq!(body_size_from_headers("content-length:7\r\n"), 7);
    assert_eq!(body_size_from_headers("Content-Length:   13  \r\n"), 13);
    assert_eq!(body_size_from_headers("Host: x\r\n\r\n"), 0);
    assert_eq!(body_size_from_headers("Content-Length: many\r\n"), 0);
}

#[test]
fn oversized_request_is_refused() {
    assert!(request_fits(4096));
    assert!(!request_fits(8192));
    let bytes = serialize_response(&content_too_large());
    let text = String::from_utf8(bytes).unwrap();
    assert!(text.starts_with("HTTP/1.1 413 Payload Too Large\r\n"));
}

#[test]
fn response_wire_format_is_exact() {
    let r = ok_json(200, String::from("{}"));
    let bytes = serialize_response(&r);
    let text = String::from_utf8(bytes).unwrap();
    assert_eq!(
        text,
        "HTTP/1.1 200 OK\r\nContent-Type: application/json\r\nContent-Length: 2\r\n\r\n{}"
    );
}

#[test]
fn empty_responses_carry_their_codes() {
    let u = serialize_response(&unauthorized());
    assert_eq!(String::from_utf8(u).unwrap(), "HTTP/1.1 401 Unauthorized\r\n\r\n");
    let n = serialize_response(&empty_response(404));
    assert_eq!(String::from_utf8(n).unwrap(), "HTTP/1.1 404 Not Found\r\n\r\n");
}

#[test]
fn header_search_is_case_insensitive() {
    let r = req(
        "GET",
        "/user",
        vec![(String::from("AUTHORIZATION"), String::from("tok"))],
    );
    assert_eq!(find_header_in_request(&r, "authorization"), Some(String::from("tok")));
    assert_eq!(find_header_in_request(&r, "cookie"), None);
}

#[test]
fn filename_sanitizer_strips_climbing_prefixes() {
    assert_eq!(sanitize_filename("../../etc/passwd"), "etc/passwd");
    assert_eq!(sanitize_filename("style.css"), "style.css");
    assert_eq!(sanitize_filename("a/../b"), "a/../b");
}

#[test]
fn file_replies_use_the_extension_table() {
    assert_eq!(content_type_for("index.html"), Some(String::from("text/html; charset=utf-8")));
    assert_eq!(content_type_for("css/style.css"), Some(String::from("text/css")));
    assert_eq!(content_type_for("app.js"), Some(String::from("text/javascript")));
    assert_eq!(content_type_for("favicon.ico"), Some(String::from("image/ico")));
    assert_eq!(content_type_for("noext"), None);
    assert_eq!(content_type_for("odd.xyz"), None);
    let ok = ok_file(200, "a.png", vec![1u8, 2u8]).unwrap();
    assert_eq!(ok.status, 200);
    assert_eq!(ok.body, vec![1u8, 2u8]);
    assert!(ok_file(200, "noext", vec![]).is_err());
}

#[test]
fn adding_under_an_existing_id_replaces_the_child() {
    let n = RouteNode::branch()
        .add_child("x", RouteNode::leaf_node(Content::LoginRequest))
        .add_child("x", RouteNode::leaf_node(Content::LogoutRequest));
    assert_eq!(n.children.len(), 1);
    assert_eq!(n.select_child("x").unwrap().leaf, Some(Content::LogoutRequest));
    let m = n.add_and_select_child("x", NodeData::Leaf(Content::RegisterRequest));
    assert_eq!(m.children.len(), 1);
    assert_eq!(m.select_child("x").unwrap().leaf, Some(Content::RegisterRequest));
}

#[test]
fn replaced_route_wins_the_lookup() {
    let inner = RouteNode::branch()
        .add_child("probe", RouteNode::leaf_node(Content::UserDataRequest))
        .add_child("probe", RouteNode::leaf_node(Content::TelemetryQuery));
    let tree = RouteNode::branch().add_child("/", inner);
    let hit = tree.route(&split_path("/probe"), 0).unwrap();
    assert_eq!(hit.0, Content::TelemetryQuery);
}
