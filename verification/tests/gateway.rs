//! Requests, the answers of the store, and what they lead to.
use web_static::gateway::{
    advance, begin, fetch_object, host_of, is_success_status, upstream_response, Action, Fetch,
    Request, Settings, Stage, Upstream,
};
use web_static::http::{
    find_value, is_valid_value, plain, preflight, redirect, text_of_value, Body, Header, Method,
    Response,
};
use web_static::schedule::seconds_until_six;
use web_static::site::decode_pathname;

fn header(name: &str, value: &str) -> Header {
    Header {
        name: name.to_owned(),
        value: value.as_bytes().to_vec(),
    }
}

fn request(method: Method, path: &str, query: Option<&str>, headers: Vec<Header>) -> Request {
    Request {
        method,
        path: path.to_owned(),
        query: query.map(|q| q.to_owned()),
        headers,
    }
}

fn get(host: &str, path: &str) -> Request {
    request(Method::Get, path, None, vec![header("host", host)])
}

fn value(response: &Response, name: &str) -> Option<String> {
    response
        .header(name)
        .map(|value| String::from_utf8(value.clone()).unwrap())
}

fn settings() -> Settings {
    Settings {
        endpoint: "http://storage".to_owned(),
        bucket: "sites".to_owned(),
    }
}

/// A store with three objects: its status, its header fields and its body.
fn storage(url: &str, if_none_match: Option<&[u8]>) -> (Upstream, &'static str) {
    let path = decode_pathname(url.strip_prefix("http://storage").unwrap()).unwrap();
    let object = match path.as_str() {
        "/sites/example.me/index.html" => Some(("<h1>home</h1>", r#""home-v1""#)),
        "/sites/example.me/articles/hello/index.html" => Some(("<h1>hello</h1>", r#""hello-v1""#)),
        "/sites/example.me/404.html" => Some(("<h1>missing</h1>", r#""404-v1""#)),
        _ => None,
    };
    match object {
        None => (
            Upstream {
                status: 404,
                headers: vec![],
            },
            "",
        ),
        Some((_, etag)) if if_none_match == Some(etag.as_bytes()) => (
            Upstream {
                status: 304,
                headers: vec![header("etag", etag)],
            },
            "",
        ),
        Some((body, etag)) => (
            Upstream {
                status: 200,
                headers: vec![header("content-type", "text/html"), header("etag", etag)],
            },
            body,
        ),
    }
}

/// Runs a request against the store until it is answered, and gives the answer
/// with its body and the URLs that were fetched.
fn run(request: &Request) -> (Response, String, Vec<String>) {
    let mut action = begin(request);
    let mut body = "";
    let mut urls = Vec::new();
    loop {
        match action {
            Action::Reply(response) => {
                let shown = match &response.body {
                    Body::Empty => String::new(),
                    Body::Text(text) => text.clone(),
                    Body::Upstream => body.to_owned(),
                };
                return (response, shown, urls);
            }
            Action::Wait(fetch) => {
                let asked = fetch_object(
                    &settings(),
                    fetch.method,
                    &request.headers,
                    &fetch.host,
                    &fetch.target(),
                );
                let condition = find_value(&asked.headers, "if-none-match").map(|v| v.as_slice());
                let (upstream, content) = storage(&asked.url, condition);
                body = content;
                urls.push(asked.url);
                action = advance(fetch, Some(&upstream));
            }
            Action::Notes(path) => panic!("no notes under {path}"),
        }
    }
}

#[test]
fn serves_static_gateway_behaviour() {
    let (response, body, _) = run(&get("example.me", "/"));
    assert_eq!(response.status, 200);
    assert_eq!(
        value(&response, "access-control-allow-origin").as_deref(),
        Some("*")
    );
    assert_eq!(value(&response, "cache-control").as_deref(), Some("no-cache"));
    assert_eq!(body, "<h1>home</h1>");

    let (response, _, _) = run(&request(
        Method::Options,
        "/assets/example.js",
        None,
        vec![
            header("host", "example.me"),
            header("origin", "https://cheer.world"),
        ],
    ));
    assert_eq!(response.status, 204);
    assert_eq!(
        value(&response, "access-control-allow-origin").as_deref(),
        Some("*")
    );
    assert_eq!(
        value(&response, "access-control-allow-methods").as_deref(),
        Some("GET, HEAD, OPTIONS")
    );

    let (response, _, _) = run(&request(
        Method::Get,
        "/articles/hello",
        Some("from=test"),
        vec![header("host", "example.me")],
    ));
    assert_eq!(response.status, 308);
    assert_eq!(
        value(&response, "location").as_deref(),
        Some("/articles/hello/?from=test")
    );

    let (response, body, _) = run(&request(
        Method::Head,
        "/",
        None,
        vec![header("host", "example.me")],
    ));
    assert_eq!(response.status, 200);
    assert!(body.is_empty());

    let (response, body, _) = run(&get("example.me", "/missing"));
    assert_eq!(response.status, 404);
    assert_eq!(body, "<h1>missing</h1>");

    let (response, _, _) = run(&request(
        Method::Other,
        "/",
        None,
        vec![header("host", "example.me")],
    ));
    assert_eq!(response.status, 405);
}

#[test]
fn objects_are_fetched_in_order() {
    let (_, _, urls) = run(&get("example.me", "/missing"));
    assert_eq!(
        urls,
        vec![
            "http://storage/sites/example.me/missing",
            "http://storage/sites/example.me/missing/index.html",
            "http://storage/sites/example.me/missing",
            "http://storage/sites/example.me/404.html",
        ]
    );
    let (response, _, urls) = run(&get("example.me", "/missing.png"));
    assert_eq!(response.status, 404);
    assert_eq!(
        urls,
        vec![
            "http://storage/sites/example.me/missing.png",
            "http://storage/sites/example.me/404.html",
        ]
    );
    let (response, body, urls) = run(&get("other.me", "/a/"));
    assert_eq!(response.status, 404);
    assert_eq!(body, "not found\n");
    assert_eq!(
        urls,
        vec![
            "http://storage/sites/other.me/a/index.html",
            "http://storage/sites/other.me/404.html",
        ]
    );
}

#[test]
fn conditional_requests_are_handed_on() {
    let asked = request(
        Method::Get,
        "/",
        None,
        vec![
            header("host", "example.me"),
            header("if-none-match", r#""home-v1""#),
        ],
    );
    let (response, body, _) = run(&asked);
    assert_eq!(response.status, 304);
    assert!(body.is_empty());
    assert!(matches!(response.body, Body::Empty));
    assert_eq!(value(&response, "etag").as_deref(), Some(r#""home-v1""#));
}

#[test]
fn the_store_is_told_of_conditions_and_ranges_alone() {
    let headers = vec![
        header("host", "example.me"),
        header("range", "bytes=0-1"),
        header("cookie", "secret"),
        header("if-match", "a"),
        header("if-match", "b"),
    ];
    let asked = fetch_object(&settings(), Method::Head, &headers, "example.me", "/a b/c");
    assert!(asked.head);
    assert_eq!(asked.url, "http://storage/sites/example.me/a%20b/c");
    let told: Vec<(String, Vec<u8>)> = asked
        .headers
        .into_iter()
        .map(|field| (field.name, field.value))
        .collect();
    assert_eq!(
        told,
        vec![
            ("if-match".to_owned(), b"a".to_vec()),
            ("range".to_owned(), b"bytes=0-1".to_vec()),
        ]
    );
    assert!(!fetch_object(&settings(), Method::Get, &headers, "a.me", "/").head);
}

#[test]
fn the_gateway_answers_for_itself() {
    for path in ["/healthz", "/readyz"] {
        let (response, body, urls) = run(&request(Method::Other, path, None, vec![]));
        assert_eq!(response.status, 200);
        assert_eq!(body, "ok\n");
        assert!(urls.is_empty());
    }
    let (response, body, _) = run(&request(Method::Other, "/x", None, vec![]));
    assert_eq!(response.status, 405);
    assert_eq!(value(&response, "allow").as_deref(), Some("GET, HEAD"));
    assert_eq!(body, "method not allowed\n");
}

#[test]
fn bad_hosts_and_paths_are_bad_requests() {
    for asked in [
        request(Method::Get, "/", None, vec![]),
        get("localhost", "/"),
        get("ex\u{e9}mple.me", "/"),
        get("example.me", "/%2e%2e/x"),
        get("example.me", "/%ff"),
    ] {
        let (response, body, urls) = run(&asked);
        assert_eq!(response.status, 400);
        assert_eq!(body, "bad request\n");
        assert!(urls.is_empty());
    }
}

#[test]
fn notes_are_answered_from_memory_and_old_paths_are_gone() {
    for path in ["/", "/index.html", "/llms.txt", "/feed/search.json", "/feed/runtime/a/page-1.json"]
    {
        match begin(&get("ZEXI.me:443", path)) {
            Action::Notes(decoded) => assert_eq!(decoded, path),
            _ => panic!("{path} is not answered from memory"),
        }
        assert!(matches!(begin(&get("example.me", path)), Action::Wait(_)));
    }
    for path in ["/llm", "/llm.md", "/index.md", "/rss.xml", "/articles.json"] {
        match begin(&get("zexi.me", path)) {
            Action::Reply(response) => assert_eq!(response.status, 410),
            _ => panic!("{path} is not gone"),
        }
        assert!(matches!(begin(&get("example.me", path)), Action::Wait(_)));
    }
    match begin(&get("zexi.me", "/resume/")) {
        Action::Wait(fetch) => {
            assert_eq!(fetch.object, "/resume/index.html");
            assert_eq!(fetch.target(), "/resume/index.html");
        }
        _ => panic!("the resume is not fetched"),
    }
}

fn waiting(path: &str, stage: Stage) -> Fetch {
    Fetch {
        method: Method::Get,
        host: "example.me".to_owned(),
        path: path.to_owned(),
        object: path.to_owned(),
        location: format!("{path}/"),
        stage,
    }
}

fn status(n: u16) -> Upstream {
    Upstream {
        status: n,
        headers: vec![],
    }
}

fn replied(action: Action) -> u16 {
    match action {
        Action::Reply(response) => response.status,
        _ => panic!("no reply"),
    }
}

#[test]
fn failures_of_the_store_are_bad_gateways() {
    assert_eq!(replied(advance(waiting("/a", Stage::Object), None)), 502);
    assert_eq!(replied(advance(waiting("/a", Stage::Again), None)), 502);
    for n in [100, 301, 403, 500] {
        assert_eq!(replied(advance(waiting("/a", Stage::Object), Some(&status(n)))), 502);
        assert_eq!(replied(advance(waiting("/a", Stage::Again), Some(&status(n)))), 502);
    }
    assert_eq!(replied(advance(waiting("/a", Stage::Object), Some(&status(206)))), 206);
    assert_eq!(replied(advance(waiting("/a", Stage::Missing), None)), 404);
    assert_eq!(replied(advance(waiting("/a", Stage::Missing), Some(&status(500)))), 404);
    assert_eq!(replied(advance(waiting("/a", Stage::Missing), Some(&status(200)))), 404);
    assert_eq!(replied(advance(waiting("/a", Stage::Directory), Some(&status(200)))), 308);
    match advance(waiting("/a", Stage::Directory), None) {
        Action::Wait(fetch) => {
            assert_eq!(fetch.stage, Stage::Again);
            assert_eq!(fetch.target(), "/a");
        }
        _ => panic!("the object is not fetched again"),
    }
    assert!(is_success_status(299));
    assert!(!is_success_status(300));
    assert!(!is_success_status(199));
}

#[test]
fn headers_of_the_store_are_picked() {
    let upstream = Upstream {
        status: 200,
        headers: vec![
            header("content-type", "image/png"),
            header("server", "minio"),
            header("cache-control", "max-age=7"),
            header("content-length", "12"),
        ],
    };
    let response = upstream_response(&upstream, Method::Get, "/a.png", 200);
    assert!(matches!(response.body, Body::Upstream));
    assert_eq!(value(&response, "content-type").as_deref(), Some("image/png"));
    assert_eq!(value(&response, "content-length").as_deref(), Some("12"));
    assert_eq!(value(&response, "cache-control").as_deref(), Some("max-age=7"));
    assert_eq!(
        value(&response, "x-content-type-options").as_deref(),
        Some("nosniff")
    );
    assert_eq!(value(&response, "server"), None);
    let response = upstream_response(&upstream, Method::Head, "/a.html", 404);
    assert!(matches!(response.body, Body::Empty));
    assert_eq!(response.status, 404);
    assert_eq!(value(&response, "cache-control").as_deref(), Some("no-cache"));
    let opaque = Upstream {
        status: 200,
        headers: vec![header("cache-control", "caf\u{e9}")],
    };
    let response = upstream_response(&opaque, Method::Get, "/a.png", 200);
    assert_eq!(
        value(&response, "cache-control").as_deref(),
        Some("public, max-age=3600")
    );
}

#[test]
fn messages_are_plain_and_never_cached() {
    let response = plain(418, "teapot");
    assert_eq!(response.status, 418);
    assert!(matches!(&response.body, Body::Text(text) if text == "teapot\n"));
    assert_eq!(value(&response, "cache-control").as_deref(), Some("no-store"));
    assert_eq!(
        value(&response, "content-type").as_deref(),
        Some("text/plain; charset=utf-8")
    );
    assert_eq!(
        value(&response, "access-control-max-age").as_deref(),
        Some("86400")
    );
    assert_eq!(
        value(&response, "access-control-allow-headers").as_deref(),
        Some("*")
    );
    assert!(matches!(preflight().body, Body::Empty));
}

#[test]
fn redirects_name_valid_locations_alone() {
    let response = redirect("/a/?b=中");
    assert_eq!(response.status, 308);
    assert_eq!(value(&response, "location").as_deref(), Some("/a/?b=中"));
    assert_eq!(value(&response, "cache-control").as_deref(), Some("no-cache"));
    assert_eq!(value(&redirect("/a\nb/"), "location"), None);
}

#[test]
fn header_values_have_no_controls() {
    for n in 0..=0x10ffffu32 {
        if let Some(c) = char::from_u32(n) {
            let expected = c == '\t' || (n >= 32 && n != 127);
            assert_eq!(is_valid_value(&c.to_string()), expected);
        }
    }
    for b in 0..=255u8 {
        let visible = b == 9 || (32..127).contains(&b);
        assert_eq!(text_of_value(&[b]).is_some(), visible);
    }
    assert_eq!(text_of_value(b"a b").as_deref(), Some("a b"));
}

#[test]
fn header_fields_set_again_have_the_last_value() {
    let mut response = Response::new(200, Body::Empty);
    assert_eq!(value(&response, "a"), None);
    response.insert("a", "1");
    response.insert("b", "2");
    response.insert("a", "3");
    assert_eq!(value(&response, "a").as_deref(), Some("3"));
    assert_eq!(value(&response, "b").as_deref(), Some("2"));
}

#[test]
fn the_first_host_header_counts() {
    let asked = request(
        Method::Get,
        "/",
        None,
        vec![header("host", "a.me"), header("host", "b.me")],
    );
    assert_eq!(host_of(&asked).as_deref(), Some("a.me"));
}

#[test]
fn scheduled_at_six_shanghai() {
    let t = chrono::DateTime::parse_from_rfc3339("2026-09-12T05:59:59+08:00")
        .unwrap()
        .timestamp();
    assert_eq!(seconds_until_six(t), 1);
    assert_eq!(seconds_until_six(t + 1), 86400);
    assert_eq!(seconds_until_six(t + 2), 86399);
}

#[test]
fn the_schedule_goes_back_before_the_epoch() {
    assert_eq!(seconds_until_six(0), 79200);
    assert_eq!(seconds_until_six(-1), 79201);
    assert_eq!(seconds_until_six(-7200), 86400);
    assert_eq!(seconds_until_six(79199), 1);
}
