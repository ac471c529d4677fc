use farthinder::instant::{parse_instant, CutoffChecker};
use farthinder::proxy::{
    address, after_response, before_request, count_route, deliver, ends_head, forward,
    forward_headers, handle_connect, handle_connection, handle_http, parse_connect_host,
    parse_host_port, port, proxy_url, read_opening, read_request, Answer, Opening, ProxyError,
    Route,
};
use farthinder::registry::npm::NpmRegistry;
use farthinder::registry::{Registry, ResponseAction};
use farthinder::target::Url;
use http::{HeaderMap, HeaderValue};

fn registry() -> Registry {
    let now = parse_instant("2024-01-01T00:00:00Z").unwrap();
    Registry::Npm(NpmRegistry::with_checker(CutoffChecker::at(now, 48).unwrap()))
}

fn answer(body: &[u8]) -> Answer {
    let mut headers = HeaderMap::new();
    headers.insert("content-length", HeaderValue::from(body.len()));
    headers.insert("etag", HeaderValue::from_static("x"));
    Answer { status: 200, headers, body: body.to_vec() }
}

#[test]
fn hosts_to_connect_to() {
    assert_eq!(parse_connect_host("CONNECT a:1 HTTP/1.1\r\n").unwrap(), "a:1");
    assert_eq!(parse_connect_host("CONNECT \r\n"), Err(ProxyError::InvalidConnect));
    assert_eq!(ProxyError::InvalidConnect.message(), "invalid CONNECT request");
    let parse = |s: &str| parse_host_port(s);
    assert_eq!(parse("pypi.org:8443"), ("pypi.org".to_string(), 8443));
    assert_eq!(parse("pypi.org"), ("pypi.org".to_string(), 443));
    assert_eq!(parse("pypi.org:"), ("pypi.org".to_string(), 443));
    assert_eq!(parse("pypi.org:70000"), ("pypi.org".to_string(), 443));
    assert_eq!(parse("pypi.org:+80"), ("pypi.org".to_string(), 80));
    assert_eq!(parse("a:1:2"), ("a".to_string(), 443));
    assert_eq!(parse(""), ("".to_string(), 443));
}

#[test]
fn openings_of_connections() {
    match handle_connection(b"CONNECT pypi.org:443 HTTP/1.1\r\n") {
        Ok(Opening::Connect(host, port)) => {
            assert_eq!(host, "pypi.org");
            assert_eq!(port, 443);
        }
        other => panic!("{other:?}"),
    }
    assert!(matches!(handle_connection(b"GET http://a/ HTTP/1.1\r\n"), Ok(Opening::Http)));
    assert!(matches!(handle_connection(b"CONNECT\xff \r\n"), Ok(Opening::Http)));
    assert!(matches!(read_opening("CONNECT "), Err(ProxyError::InvalidConnect)));
    assert!(matches!(read_opening(""), Ok(Opening::Http)));
}

#[test]
fn routes_of_connections() {
    let registry = registry();
    assert_eq!(handle_connect(&registry, "registry.npmjs.org"), Route::Mitm);
    assert_eq!(handle_connect(&registry, "registry.yarnpkg.com"), Route::Mitm);
    assert_eq!(handle_connect(&registry, "Registry.npmjs.org"), Route::Tunnel);
    assert_eq!(handle_connect(&registry, "pypi.org"), Route::Tunnel);
    assert_eq!(count_route(2, Route::Mitm), 2);
    assert_eq!(count_route(2, Route::Tunnel), 3);
    assert_eq!(count_route(usize::MAX, Route::Tunnel), 0);
}

#[test]
fn requests_are_prepared() {
    let registry = registry();
    let mut headers = HeaderMap::new();
    headers.insert("accept-encoding", HeaderValue::from_static("gzip"));
    let url = before_request(&registry, "registry.npmjs.org", "/express", &mut headers).unwrap();
    assert_eq!(url.host.as_deref(), Some("registry.npmjs.org"));
    assert_eq!(url.path, "/express");
    assert_eq!(headers.get("accept").unwrap(), "application/json");
    assert!(headers.get("accept-encoding").is_none());

    let mut headers = HeaderMap::new();
    headers.insert("accept-encoding", HeaderValue::from_static("gzip"));
    assert!(before_request(&registry, "a b", "/", &mut headers).is_none());
    assert!(headers.contains_key("accept-encoding"));
}

#[test]
fn answers_are_delivered() {
    let passed = deliver(ResponseAction::Passthrough, answer(b"abc"));
    assert_eq!(passed.status, 200);
    assert_eq!(passed.body, b"abc".to_vec());
    assert_eq!(passed.headers.len(), 2);

    let mut compressed = answer(b"abc");
    compressed.headers.insert("content-encoding", HeaderValue::from_static("identity"));
    let body = b"twelve bytes".to_vec();
    let rewritten = deliver(ResponseAction::Rewrite { body }, compressed);
    assert_eq!(rewritten.status, 200);
    assert_eq!(rewritten.body, b"twelve bytes".to_vec());
    assert_eq!(rewritten.headers.get("content-length").unwrap(), "12");
    assert!(rewritten.headers.get("content-encoding").is_none());
    assert_eq!(rewritten.headers.get("etag").unwrap(), "x");

    let blocked = deliver(ResponseAction::Block, answer(b"abc"));
    assert_eq!(blocked.status, 403);
    assert_eq!(blocked.body, b"Forbidden".to_vec());
    assert!(blocked.headers.is_empty());
}

#[test]
fn answers_are_seen_by_the_registry() {
    let mut registry = registry();
    let url = Url::parse("https://registry.npmjs.org/a");
    let body = br#"{"name":"a","dist-tags":{},"time":{"1.0.0":"2999-01-01T00:00:00Z"},"versions":{"1.0.0":{}}}"#;
    let sent = after_response(&mut registry, &url, answer(body));
    assert_eq!(sent.body, br#"{"name":"a","dist-tags":{},"time":{},"versions":{}}"#.to_vec());
    assert_eq!(sent.headers.get("content-length").unwrap(), "51");
    assert_eq!(registry.stats().packages_checked, 1);

    let sent = after_response(&mut registry, &None, answer(body));
    assert_eq!(sent.body, body.to_vec());
    assert_eq!(registry.stats().packages_checked, 1);
}

#[test]
fn requests_name_one_host() {
    let mut headers = HeaderMap::new();
    headers.append("host", HeaderValue::from_static("a"));
    headers.append("host", HeaderValue::from_static("b"));
    headers.insert("accept", HeaderValue::from_static("x"));
    assert_eq!(forward_headers(&mut headers, "pypi.org"), Ok(()));
    let hosts: Vec<&HeaderValue> = headers.get_all("host").iter().collect();
    assert_eq!(hosts, vec!["pypi.org"]);
    assert_eq!(headers.get("accept").unwrap(), "x");
    assert_eq!(forward_headers(&mut headers, "a\nb"), Err(ProxyError::InvalidHost));
    assert_eq!(headers.get("host").unwrap(), "pypi.org");
    assert_eq!(ProxyError::InvalidHost.message(), "failed to parse header value");
}

#[test]
fn heads_of_requests() {
    assert!(ends_head(b"\r\n"));
    assert!(ends_head(b"\n"));
    assert!(ends_head(b""));
    assert!(!ends_head(b"\r"));
    assert!(!ends_head(b"a\r\n"));
    assert_eq!(read_request(""), Err(ProxyError::EmptyRequest));
    assert_eq!(read_request("GET\r\nx y\r\n"), Err(ProxyError::MalformedRequest));
    assert_eq!(
        read_request("GET /a HTTP/1.1\r\nHost: b\r\n\r\n"),
        Ok(("GET".to_string(), "/a".to_string()))
    );
    assert_eq!(ProxyError::EmptyRequest.message(), "empty request");
    assert_eq!(ProxyError::MalformedRequest.message(), "malformed HTTP request");
}

#[test]
fn requests_are_passed_on() {
    let plan = handle_http(b"GET http://example.org/a/b?c=d HTTP/1.1\r\nX: y\r\n\r\n").unwrap();
    assert_eq!(plan.address, "example.org:80");
    assert_eq!(
        plan.request,
        "GET /a/b?c=d HTTP/1.1\r\nHost: example.org\r\nConnection: close\r\n\r\n"
    );
    let plan = handle_http(b"HEAD http://example.org:8080 HTTP/1.1\r\n\r\n").unwrap();
    assert_eq!(plan.address, "example.org:8080");
    assert_eq!(
        plan.request,
        "HEAD / HTTP/1.1\r\nHost: example.org\r\nConnection: close\r\n\r\n"
    );
    assert!(matches!(handle_http(b"GET /a HTTP/1.1\r\n\r\n"), Err(ProxyError::InvalidUrl)));
    assert!(matches!(handle_http(b"GET mailto:a HTTP/1.1\r\n\r\n"), Err(ProxyError::MissingHost)));
    assert!(matches!(handle_http(b""), Err(ProxyError::EmptyRequest)));
    assert_eq!(ProxyError::InvalidUrl.message(), "parse target URL");
    assert_eq!(ProxyError::MissingHost.message(), "missing host");

    let bare = Url { host: Some("h".to_string()), port: None, path: "/".to_string(), query: None };
    assert_eq!(forward("GET", &bare).unwrap().address, "h:80");
}

#[test]
fn addresses_and_ports() {
    assert_eq!(address("pypi.org", 443), "pypi.org:443");
    for p in [0, 1, 9, 10, 8080, 65535] {
        assert_eq!(port(&proxy_url(p)), p);
        assert_eq!(parse_host_port(&address("h", p)), ("h".to_string(), p));
    }
    assert_eq!(proxy_url(8080), "http://127.0.0.1:8080");
    assert_eq!(port("http://localhost"), 0);
    assert_eq!(port(""), 0);
}
