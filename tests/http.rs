use http_server::api::{
    api_router, failed_to_store, handle_delete, handle_get, handle_patch, handle_post, handle_put,
    not_found, reads_only, render_response, respond_read, respond_write, Endpoint, Response,
};
use http_server::session::SessionStore;
use http_server::dataset::{Dataset, Driver, Field, Team};
use http_server::request::{
    attach_body, parse_head, parse_header_line, parse_request_line, Body, ParseError, Request,
};
use http_server::router::{match_route, Router};
use http_server::text::{clean_string, decimal_text};

fn request(line: &str, headers: &[&str], body: &[u8]) -> Request {
    let lines: Vec<String> = headers.iter().map(|h| h.to_string()).collect();
    let head = parse_head(line, &lines).unwrap();
    attach_body(head, body).unwrap()
}

fn team(name: &str) -> Team {
    Team { name: name.to_string(), drivers: vec![] }
}

#[test]
fn clean_string_strips_quotes_and_backslashes() {
    assert_eq!(clean_string("\"a\\b\"c".to_string()), "abc");
    assert_eq!(clean_string(String::new()), "");
}

#[test]
fn decimal_text_writes_digits() {
    assert_eq!(decimal_text(0), "0");
    assert_eq!(decimal_text(60), "60");
    assert_eq!(decimal_text(u64::MAX), "18446744073709551615");
}

#[test]
fn request_line_needs_three_words() {
    let l = parse_request_line("GET  /api/escuderias\tHTTP/1.1\r\n").ok().unwrap();
    assert_eq!(l.method, "GET");
    assert_eq!(l.path, "/api/escuderias");
    assert_eq!(l.version, "HTTP/1.1");
    assert_eq!(parse_request_line("GET /x").err(), Some(ParseError::IncompleteRequestLine));
    assert_eq!(parse_request_line("").err(), Some(ParseError::IncompleteRequestLine));
}

#[test]
fn request_line_is_cleaned() {
    let l = parse_request_line("\"GET\" /a\\b HTTP/1.1").ok().unwrap();
    assert_eq!(l.method, "GET");
    assert_eq!(l.path, "/ab");
}

#[test]
fn header_splits_at_first_separator() {
    let h = parse_header_line("Host: a: b").unwrap();
    assert_eq!(h.name, "Host");
    assert_eq!(h.value, "a: b");
    assert!(parse_header_line("NoSeparator").is_none());
    assert!(parse_header_line("Key:value").is_none());
}

#[test]
fn head_reads_length_and_cookie() {
    let lines = vec![
        "Host: x".to_string(),
        "content-LENGTH: 12".to_string(),
        "Cookie: session=session_3".to_string(),
        "junk".to_string(),
    ];
    let head = parse_head("POST /api/escuderias HTTP/1.1", &lines).ok().unwrap();
    assert_eq!(head.headers.len(), 3);
    assert_eq!(head.content_length, 12);
    assert_eq!(head.cookie, Some("session=session_3".to_string()));
}

#[test]
fn bad_content_length_counts_as_zero() {
    let lines = vec!["Content-Length: twelve".to_string()];
    let head = parse_head("GET / HTTP/1.1", &lines).ok().unwrap();
    assert_eq!(head.content_length, 0);
    let lines = vec!["Content-Length: 99999999999999999999999".to_string()];
    let head = parse_head("GET / HTTP/1.1", &lines).ok().unwrap();
    assert_eq!(head.content_length, 0);
}

#[test]
fn short_body_is_refused() {
    let lines = vec!["Content-Length: 5".to_string()];
    let head = parse_head("POST / HTTP/1.1", &lines).ok().unwrap();
    assert_eq!(attach_body(head, b"abc").err(), Some(ParseError::IncompleteBody));
}

#[test]
fn json_body_is_kept_and_text_body_is_cleaned() {
    let r = request("POST / HTTP/1.1", &["Content-Length: 14"], b"{\"name\":\"Ex\"} ");
    match r.body {
        Some(Body::Json(t)) => assert_eq!(t, "{\"name\":\"Ex\"} "),
        _ => panic!("expected JSON"),
    }
    let r = request("POST / HTTP/1.1", &["Content-Length: 7"], b"say \"hi");
    match r.body {
        Some(Body::Text(t)) => assert_eq!(t, "say hi"),
        _ => panic!("expected text"),
    }
    let r = request("POST / HTTP/1.1", &["Content-Length: 2"], &[0xff, 0xfe]);
    match r.body {
        Some(Body::Text(t)) => assert_eq!(t, ""),
        _ => panic!("expected text"),
    }
    let r = request("GET / HTTP/1.1", &[], b"");
    assert!(r.body.is_none());
}

#[test]
fn route_patterns_bind_parameters() {
    let ps = match_route("/api/escuderias/:team/pilotos/:driver", "/api/escuderias/A/pilotos/B")
        .unwrap();
    assert_eq!(ps.len(), 2);
    assert_eq!(ps[0].name, "team");
    assert_eq!(ps[0].value, "A");
    assert_eq!(ps[1].name, "driver");
    assert_eq!(ps[1].value, "B");
    assert!(match_route("/api/escuderias/:name", "/api/escuderias").is_none());
    assert!(match_route("/api/escuderias/:name", "/api/other/x").is_none());
}

#[test]
fn exact_route_wins_over_earlier_pattern() {
    let mut r: Router<u32> = Router::new();
    r.add_route("GET", "/a/:x", 1);
    r.add_route("GET", "/a/b", 2);
    r.add_route("GET", "/a/:y", 3);
    let m = r.handle_request(&request("GET /a/b HTTP/1.1", &[], b"")).unwrap();
    assert_eq!(*r.handler(m.route), 2);
    assert!(m.params.is_empty());
    let m = r.handle_request(&request("GET /a/c HTTP/1.1", &[], b"")).unwrap();
    assert_eq!(*r.handler(m.route), 1);
    assert_eq!(m.param("x"), Some("c".to_string()));
    assert_eq!(m.param("y"), None);
    assert!(r.handle_request(&request("POST /a/c HTTP/1.1", &[], b"")).is_none());
}

#[test]
fn registering_again_replaces_handler() {
    let mut r: Router<u32> = Router::new();
    r.add_route("GET", "/a", 1);
    r.add_route("GET", "/a", 2);
    assert_eq!(r.len(), 1);
    assert_eq!(*r.handler(0), 2);
    assert_eq!(r.list_routes(), vec!["GET /a".to_string()]);
}

#[test]
fn api_routes_decode_spaces() {
    let router = api_router();
    assert_eq!(router.list_routes().len(), 5);
    let m = router
        .handle_request(&request("DELETE /api/escuderias/Red%20Bull HTTP/1.1", &[], b""))
        .unwrap();
    assert_eq!(*router.handler(m.route), Endpoint::DeleteTeam);
    assert_eq!(m.param("name"), Some("Red Bull".to_string()));
    let m = router
        .handle_request(&request("PATCH /api/escuderias/T/pilotos/Max%20V HTTP/1.1", &[], b""))
        .unwrap();
    assert_eq!(*router.handler(m.route), Endpoint::PatchDriver);
    assert_eq!(m.param("team"), Some("T".to_string()));
    assert_eq!(m.param("driver"), Some("Max V".to_string()));
    assert!(router.handle_request(&request("GET /nothing HTTP/1.1", &[], b"")).is_none());
}

#[test]
fn rendered_response_has_length_and_cookie() {
    let r = Response {
        status: 201,
        body: "{\"message\":\"é\"}".to_string(),
        session: Some("session_0".to_string()),
        persist: true,
    };
    assert_eq!(
        render_response(&r),
        "HTTP/1.1 201 Created\r\nContent-Type: application/json\r\nContent-Length: 16\r\nSet-Cookie: session=session_0; Max-Age=60; HttpOnly\r\n\r\n{\"message\":\"é\"}"
    );
    assert_eq!(
        render_response(&not_found()),
        "HTTP/1.1 404 Not Found\r\nContent-Type: application/json\r\nContent-Length: 21\r\n\r\n{\"error\":\"Not Found\"}"
    );
}

#[test]
fn handlers_answer_each_error() {
    let mut d = Dataset::new();
    let r = handle_post(&mut d, None);
    assert_eq!(r.status, 400);
    assert_eq!(r.body, "{\"error\":\"Invalid JSON body\"}");
    assert!(!r.persist);
    let r = handle_post(&mut d, Some(team("A")));
    assert_eq!(r.status, 201);
    assert_eq!(r.body, "{\"message\":\"Team added\"}");
    assert!(r.persist);
    let r = handle_post(&mut d, Some(team("A")));
    assert_eq!(r.status, 400);
    assert_eq!(r.body, "{\"error\":\"team 'A' already exists\"}");
    let r = handle_put(&mut d, "B", Some(team("B")));
    assert_eq!(r.status, 404);
    assert_eq!(r.body, "{\"error\":\"team 'B' does not exist\"}");
    let dup = Team {
        name: "A".to_string(),
        drivers: vec![
            Driver { name: "X".to_string(), fields: vec![] },
            Driver { name: "X".to_string(), fields: vec![] },
        ],
    };
    let r = handle_put(&mut d, "A", Some(dup));
    assert_eq!(r.status, 400);
    assert_eq!(r.body, "{\"error\":\"team 'A' lists a driver twice\"}");
    let r = handle_patch(&mut d, "A", "Y", Some(vec![]));
    assert_eq!(r.status, 404);
    assert_eq!(r.body, "{\"error\":\"driver 'Y' does not exist in team 'A'\"}");
    let r = handle_patch(&mut d, "A", "Y", None);
    assert_eq!(r.status, 400);
    let r = handle_delete(&mut d, "Q");
    assert_eq!(r.status, 404);
    let r = handle_put(&mut d, "A", Some(team("A")));
    assert_eq!(r.status, 200);
    assert_eq!(r.body, "{\"message\":\"Team updated\"}");
}

#[test]
fn posted_team_is_listed() {
    let mut d = Dataset::new();
    let t = Team {
        name: "Red Bull".to_string(),
        drivers: vec![Driver {
            name: "Max".to_string(),
            fields: vec![Field { key: "age".to_string(), value: "26".to_string() }],
        }],
    };
    assert_eq!(handle_post(&mut d, Some(t)).status, 201);
    let r = handle_get(&d);
    assert_eq!(r.status, 200);
    assert!(r.body.contains("{\"name\":\"Red Bull\",\"drivers\":[{\"name\":\"Max\",\"age\":26}]}"));
}

fn serve(
    router: &http_server::router::Router<Endpoint>,
    sessions: &mut SessionStore,
    d: &mut Dataset,
    req: &Request,
    team: Option<Team>,
    fields: Option<Vec<Field>>,
) -> Response {
    let found = router.handle_request(req);
    let session = sessions.session_for_request_at(found.is_some(), req.cookie.clone(), 60, 100);
    if reads_only(router, &found) {
        respond_read(router, found, session, d)
    } else {
        respond_write(router, req, found, session, d, team, fields)
    }
}

#[test]
fn example_create_list_delete() {
    let router = api_router();
    let mut sessions = SessionStore::new();
    let mut d = Dataset::new();
    let get = request("GET /api/escuderias HTTP/1.1", &[], b"");
    let r = serve(&router, &mut sessions, &mut d, &get, None, None);
    assert_eq!(r.status, 200);
    assert_eq!(r.body, "{\"teams\":[]}");
    assert_eq!(r.session, Some("session_0".to_string()));

    let body = b"{\"name\":\"Example\",\"drivers\":[]}";
    let len = format!("Content-Length: {}", body.len());
    let post = request("POST /api/escuderias HTTP/1.1", &[len.as_str()], body);
    let r = serve(&router, &mut sessions, &mut d, &post, Some(team("Example")), None);
    assert_eq!(r.status, 201);
    assert!(r.persist);
    let r = serve(&router, &mut sessions, &mut d, &get, None, None);
    assert!(r.body.contains("\"Example\""));

    let delete = request("DELETE /api/escuderias/Example HTTP/1.1", &[], b"");
    let r = serve(&router, &mut sessions, &mut d, &delete, None, None);
    assert_eq!(r.status, 200);
    let r = serve(&router, &mut sessions, &mut d, &get, None, None);
    assert_eq!(r.status, 200);
    assert_eq!(r.body, "{\"teams\":[]}");
}

#[test]
fn unrouted_request_gets_not_found_and_no_session() {
    let router = api_router();
    let mut sessions = SessionStore::new();
    sessions.insert(0, "old".to_string(), 0);
    let mut d = Dataset::new();
    let r = serve(&router, &mut sessions, &mut d, &request("GET /nowhere HTTP/1.1", &[], b""), None, None);
    assert_eq!(r.status, 404);
    assert_eq!(r.body, "{\"error\":\"Not Found\"}");
    assert!(r.session.is_none());
    assert_eq!(sessions.len(), 0);
    assert_eq!(
        render_response(&r),
        "HTTP/1.1 404 Not Found\r\nContent-Type: application/json\r\nContent-Length: 21\r\n\r\n{\"error\":\"Not Found\"}"
    );
}

#[test]
fn post_with_text_body_is_invalid_json() {
    let router = api_router();
    let mut sessions = SessionStore::new();
    let mut d = Dataset::new();
    let post = request("POST /api/escuderias HTTP/1.1", &["Content-Length: 5"], b"hello");
    let r = serve(&router, &mut sessions, &mut d, &post, Some(team("Sneaky")), None);
    assert_eq!(r.status, 400);
    assert_eq!(r.body, "{\"error\":\"Invalid JSON body\"}");
    assert_eq!(d.len(), 0);
}

#[test]
fn missing_team_or_driver_in_path_gets_not_found() {
    let router = api_router();
    let mut sessions = SessionStore::new();
    let mut d = Dataset::new();
    handle_post(&mut d, Some(team("T")));
    let body = b"{\"age\":1}";
    let patch = request("PATCH /api/escuderias/T/pilotos/Dr HTTP/1.1", &["Content-Length: 9"], body);
    let fields = vec![Field { key: "age".to_string(), value: "1".to_string() }];
    let r = serve(&router, &mut sessions, &mut d, &patch, None, Some(fields));
    assert_eq!(r.status, 404);
    assert_eq!(r.body, "{\"error\":\"driver 'Dr' does not exist in team 'T'\"}");
    let delete = request("DELETE /api/escuderias/Nope HTTP/1.1", &[], b"");
    let r = serve(&router, &mut sessions, &mut d, &delete, None, None);
    assert_eq!(r.status, 404);
    assert_eq!(r.body, "{\"error\":\"team 'Nope' does not exist\"}");
    assert!(!r.persist);
}

#[test]
fn attribute_values_must_be_json() {
    let mut d = Dataset::new();
    let t = Team {
        name: "T".to_string(),
        drivers: vec![Driver {
            name: "D".to_string(),
            fields: vec![Field { key: "age".to_string(), value: "not json".to_string() }],
        }],
    };
    let r = handle_post(&mut d, Some(t));
    assert_eq!(r.status, 400);
    assert_eq!(d.len(), 0);
    handle_post(&mut d, Some(team("T")));
    let r = handle_patch(&mut d, "T", "D", Some(vec![Field { key: "k".to_string(), value: "{".to_string() }]));
    assert_eq!(r.status, 400);
}

#[test]
fn store_failure_keeps_session() {
    let r = Response { status: 201, body: "{}".to_string(), session: Some("s".to_string()), persist: true };
    let out = failed_to_store(r, "disk \"full\"\n");
    assert_eq!(out.status, 500);
    assert_eq!(out.body, "{\"error\":\"disk \\\"full\\\"\\n\"}");
    assert_eq!(out.session, Some("s".to_string()));
    assert!(!out.persist);
}
