use farthinder::instant::{parse_instant, CutoffChecker};
use farthinder::registry::pypi::{
    latest_instant, parse_version_from_filename, parse_wheel_version, withheld_versions, PyPIFile,
    PyPIRegistry,
};
use farthinder::registry::ResponseAction;
use farthinder::rule::Rules;
use farthinder::target::Url;
use http::{HeaderMap, HeaderValue};

const REQUESTS: &str = r#"{
  "info": { "name": "requests", "version": "99.0.0" },
  "releases": {
    "2.31.0": [
      {
        "filename": "requests-2.31.0-py3-none-any.whl",
        "upload_time_iso_8601": "2023-05-22T15:12:42.313790Z",
        "digests": { "sha256": "58cd", "md5": "9d37", "blake2b_256": null },
        "md5_digest": "9d37",
        "yanked": false,
        "yanked_reason": null,
        "packagetype": "bdist_wheel",
        "size": 62574,
        "requires_python": ">=3.7",
        "url": "https://files.pythonhosted.org/packages/70/8e/requests-2.31.0-py3-none-any.whl"
      },
      {
        "filename": "requests-2.31.0.tar.gz",
        "upload_time_iso_8601": "2023-05-22T15:12:44.175430Z",
        "packagetype": "sdist"
      }
    ],
    "2.31.1": [
      {
        "filename": "requests-2.31.1.tar.gz",
        "upload_time_iso_8601": "2023-05-22T15:12:44.175430Z",
        "packagetype": "sdist"
      },
      {
        "filename": "requests-2.31.1-py3-none-any.whl",
        "upload_time_iso_8601": "2999-05-22T15:12:44.175430Z",
        "packagetype": "bdist_wheel"
      }
    ],
    "99.0.0": [
      {
        "filename": "requests-99.0.0.tar.gz",
        "upload_time_iso_8601": "2999-01-01T00:00:00Z",
        "packagetype": "sdist"
      }
    ],
    "0.0.1": [],
    "0.0.2": [ { "filename": "requests-0.0.2.tar.gz", "packagetype": "sdist" } ]
  },
  "urls": [
    { "filename": "requests-99.0.0.tar.gz" },
    { "filename": "requests-2.31.0.tar.gz" },
    { "filename": "requests-0.0.2-py3-none-any.whl" },
    { "note": "no filename" },
    7
  ]
}"#;

fn url(raw: &str) -> Url {
    Url::parse(raw).unwrap()
}

fn json_headers() -> HeaderMap {
    let mut headers = HeaderMap::new();
    headers.insert("content-type", HeaderValue::from_static("application/json"));
    headers
}

fn fixed() -> PyPIRegistry {
    let now = parse_instant("2024-01-01T00:00:00Z").unwrap();
    PyPIRegistry::with_checker(CutoffChecker::at(now, 48).unwrap())
}

fn rewritten(action: ResponseAction) -> Vec<u8> {
    match action {
        ResponseAction::Rewrite { body } => body,
        _ => panic!("expected rewrite, got {:?}", action),
    }
}

fn file(filename: &str, upload_time: Option<&str>, packagetype: &str) -> PyPIFile {
    PyPIFile {
        filename: filename.to_string(),
        upload_time_iso_8601: upload_time.map(|s| s.to_string()),
        digests: None,
        md5_digest: None,
        yanked: false,
        yanked_reason: None,
        packagetype: packagetype.to_string(),
        size: None,
        requires_python: None,
    }
}

#[test]
fn pypi_rewrite_json_against_real_metadata() {
    let mut registry = PyPIRegistry::new(Rules::new(365 * 24)).unwrap();

    let body = REQUESTS.as_bytes();
    let headers = json_headers();
    let url = url("https://pypi.org/pypi/requests/json");

    let original: serde_json::Value = serde_json::from_slice(body).unwrap();
    let original_count = original["releases"].as_object().unwrap().len();

    let action = registry.handle_response(&url, 200, &headers, body);
    let new_body = rewritten(action);

    let result: serde_json::Value = serde_json::from_slice(&new_body).unwrap();
    let result_count = result["releases"].as_object().map(|o| o.len()).unwrap_or(0);

    assert!(
        result_count < original_count,
        "should have stripped some versions ({} vs {})",
        result_count,
        original_count,
    );
    assert_eq!(
        result["info"]["name"].as_str(),
        Some("requests"),
        "package info should be preserved",
    );

    let stats = registry.stats();
    assert_eq!(stats.packages_checked, 1);
}

#[test]
fn pypi_passthrough_for_tarball() {
    let mut registry = PyPIRegistry::new(Rules::new(48)).unwrap();
    let url = url("https://files.pythonhosted.org/packages/ab/cd/requests-2.31.0.tar.gz");
    let action = registry.handle_response(&url, 200, &HeaderMap::new(), b"data");
    assert!(matches!(action, ResponseAction::Passthrough));
}

#[test]
fn pypi_blocks_compressed_metadata() {
    let mut registry = PyPIRegistry::new(Rules::new(48)).unwrap();
    let url = url("https://pypi.org/pypi/requests/json");
    let mut headers = HeaderMap::new();
    headers.insert("content-type", HeaderValue::from_static("application/json"));
    headers.insert("content-encoding", "gzip".parse().unwrap());
    let action = registry.handle_response(&url, 200, &headers, b"compressed data");
    assert!(matches!(action, ResponseAction::Block));
}

#[test]
fn pypi_blocks_html_simple_index() {
    let mut registry = PyPIRegistry::new(Rules::new(48)).unwrap();
    let url = url("https://pypi.org/simple/requests/");
    let mut headers = HeaderMap::new();
    headers.insert("content-type", HeaderValue::from_static("text/html"));
    let action = registry.handle_response(
        &url,
        200,
        &headers,
        b"<html><body><a href=\"foo.tar.gz\">foo</a></body></html>",
    );
    assert!(matches!(action, ResponseAction::Block));
}

#[test]
fn pypi_blocks_unknown_content_type() {
    let mut registry = PyPIRegistry::new(Rules::new(48)).unwrap();
    let url = url("https://pypi.org/pypi/requests/json");
    let mut headers = HeaderMap::new();
    headers.insert("content-type", HeaderValue::from_static("text/plain"));
    let action = registry.handle_response(&url, 200, &headers, b"some text");
    assert!(matches!(action, ResponseAction::Block));
}

#[test]
fn version_timestamp_uses_latest_file() {
    let files = vec![
        file("pkg-1.0.tar.gz", Some("2020-01-01T00:00:00Z"), "sdist"),
        file("pkg-1.0-py3-none-any.whl", Some("2025-06-01T00:00:00Z"), "bdist_wheel"),
    ];
    let ts = PyPIRegistry::version_timestamp(&files).unwrap();
    assert_eq!(ts, parse_instant("2025-06-01T00:00:00Z").unwrap());
}

#[test]
fn version_timestamp_skips_what_it_cannot_read() {
    let files = vec![
        file("a-1.tar.gz", Some("2020-01-01T00:00:00Z"), "sdist"),
        file("a-1.zip", Some("someday"), "sdist"),
        file("a-1.whl", None, "bdist_wheel"),
    ];
    assert_eq!(
        PyPIRegistry::version_timestamp(&files),
        parse_instant("2020-01-01T00:00:00Z")
    );
    assert_eq!(PyPIRegistry::version_timestamp(&vec![]), None);
    assert_eq!(latest_instant(&vec![Some(3), None, Some(5), Some(4)]), Some(5));
    assert_eq!(latest_instant(&vec![None]), None);
}

#[test]
fn pypi_rewrite_is_exact() {
    let mut registry = fixed();
    let url = url("https://pypi.org/pypi/requests/json");
    let body = rewritten(registry.handle_response(&url, 200, &json_headers(), REQUESTS.as_bytes()));

    let mut expected: serde_json::Value = serde_json::from_str(REQUESTS).unwrap();
    let releases = expected["releases"].as_object_mut().unwrap();
    releases.remove("2.31.1");
    releases.remove("99.0.0");
    releases.remove("0.0.2");
    let urls = expected["urls"].as_array_mut().unwrap();
    urls.remove(2);
    urls.remove(0);
    assert_eq!(body, serde_json::to_vec(&expected).unwrap());

    let stats = registry.stats();
    assert_eq!(stats.packages_checked, 1);
    assert_eq!(stats.connections_tunneled, 0);
    assert_eq!(stats.packages_quarantined.len(), 1);
    assert_eq!(stats.packages_quarantined[0].name, "requests");
    assert_eq!(
        stats.packages_quarantined[0].quarantined_versions,
        vec!["0.0.2", "2.31.1", "99.0.0"]
    );
}

#[test]
fn pypi_second_pass_with_fractions() {
    let mut registry = fixed();
    let url = url("https://pypi.org/pypi/a/json");
    let headers = json_headers();
    for number in [
        "0.30000000000000004",
        "1.7976931348623157e308",
        "-1.7976931348623155e308",
        "1.7976931348623153e308",
        "179769313486231570e291",
        "2.2250738585072014e-308",
        "5e-324",
        "12345678901234567890123",
        "-0",
        "1e16",
    ] {
        let body = r#"{"info":{"name":"a"},"score":NUMBER,"releases":{"1":[{"filename":"a-1.tar.gz",
            "packagetype":"sdist","upload_time_iso_8601":"2999-01-01T00:00:00Z"}],"0":[{"filename":"a-0.tar.gz",
            "packagetype":"sdist","upload_time_iso_8601":"2020-01-01T00:00:00Z","has":[NUMBER]}]}}"#
            .replace("NUMBER", number);
        let body = rewritten(registry.handle_response(&url, 200, &headers, body.as_bytes()));
        let doc: serde_json::Value = serde_json::from_slice(&body).unwrap();
        assert!(doc["score"].is_f64());
        assert_eq!(doc["releases"].as_object().unwrap().len(), 1);
        let before = registry.stats().packages_quarantined.len();
        let again = registry.handle_response(&url, 200, &headers, &body);
        assert!(matches!(again, ResponseAction::Passthrough));
        assert_eq!(registry.stats().packages_quarantined.len(), before);
    }
}

#[test]
fn pypi_greatest_fractions_are_read_back() {
    let mut number = f64::MAX;
    for _ in 0..1000 {
        let text = serde_json::to_vec(&serde_json::Value::from(number)).unwrap();
        let back: serde_json::Value = serde_json::from_slice(&text).unwrap();
        assert!(back.is_f64());
        number = f64::from_bits(number.to_bits() - 1);
    }
}

#[test]
fn pypi_second_pass_changes_nothing() {
    let mut registry = fixed();
    let url = url("https://pypi.org/pypi/requests/json");
    let headers = json_headers();
    let body = rewritten(registry.handle_response(&url, 200, &headers, REQUESTS.as_bytes()));
    let again = registry.handle_response(&url, 200, &headers, &body);
    assert!(matches!(again, ResponseAction::Passthrough));
    assert_eq!(registry.stats().packages_checked, 2);
}

#[test]
fn pypi_json_that_is_no_package() {
    let mut registry = fixed();
    assert!(matches!(registry.handle_json_response(b"oops"), ResponseAction::Block));
    assert!(matches!(registry.handle_json_response(b"[1]"), ResponseAction::Passthrough));
    assert!(matches!(registry.handle_json_response(b"{}"), ResponseAction::Passthrough));
    let wrong: [&[u8]; 9] = [
        br#"{"releases":null}"#,
        br#"{"releases":[]}"#,
        br#"{"releases":{"1":{}}}"#,
        br#"{"releases":{"1":[1]}}"#,
        br#"{"releases":{"1":[{"packagetype":"sdist"}]}}"#,
        br#"{"releases":{"1":[{"filename":"a"}]}}"#,
        br#"{"releases":{"1":[{"filename":"a","packagetype":"sdist","yanked":null}]}}"#,
        br#"{"releases":{"1":[{"filename":"a","packagetype":"sdist","size":1.5}]}}"#,
        br#"{"releases":{"1":[{"filename":"a","packagetype":"sdist","digests":[]}]}}"#,
    ];
    for body in wrong {
        assert!(matches!(registry.handle_json_response(body), ResponseAction::Block));
    }
    assert_eq!(registry.stats().packages_checked, 0);
    let empty = registry.handle_json_response(br#"{"releases":{}}"#);
    assert!(matches!(empty, ResponseAction::Passthrough));
    assert_eq!(registry.stats().packages_checked, 1);
}

#[test]
fn pypi_unnamed_package_is_unknown() {
    let mut registry = fixed();
    let body = br#"{"releases":{"1":[{"filename":"a-1.zip","packagetype":"sdist"}]},"urls":5}"#;
    let action = registry.handle_json_response(body);
    assert_eq!(rewritten(action), br#"{"releases":{},"urls":5}"#.to_vec());
    assert_eq!(registry.stats().packages_quarantined[0].name, "unknown");
}

#[test]
fn pypi_metadata_urls() {
    let asks = |raw: &str| PyPIRegistry::is_metadata_url(&Url::parse(raw).unwrap());
    assert!(asks("https://pypi.org/simple/requests/"));
    assert!(asks("https://pypi.org/simple/"));
    assert!(!asks("https://pypi.org/simple"));
    assert!(asks("https://pypi.org/pypi/requests/json"));
    assert!(asks("https://pypi.org/pypi/requests/2.31.0/json"));
    assert!(!asks("https://pypi.org/pypi/json"));
    assert!(!asks("https://pypi.org/pypi/requests/json/"));
    assert!(!asks("https://files.pythonhosted.org/packages/a/requests.tar.gz"));
}

#[test]
fn pypi_prepares_requests_for_metadata() {
    let registry = fixed();
    let mut headers = HeaderMap::new();
    for name in ["if-none-match", "if-modified-since", "accept-encoding", "accept"] {
        headers.insert(name, HeaderValue::from_static("x"));
    }
    let untouched = headers.clone();
    registry.prepare_request(&url("https://pypi.org/packages/a.whl"), &mut headers);
    assert_eq!(headers, untouched);
    registry.prepare_request(&url("https://pypi.org/simple/a/"), &mut headers);
    assert_eq!(headers.len(), 1);
    assert!(headers.contains_key("accept"));
}

#[test]
fn pypi_hosts_and_variables() {
    let registry = fixed();
    assert_eq!(
        registry.known_hosts(),
        vec!["pypi.org", "files.pythonhosted.org", "pypi.python.org", "pythonhosted.org"]
    );
    let vars = registry.proxy_env_vars("http://127.0.0.1:1", "/tmp/ca.pem");
    let names: Vec<&str> = vars.iter().map(|v| v.0.as_str()).collect();
    assert_eq!(
        names,
        vec![
            "HTTP_PROXY",
            "HTTPS_PROXY",
            "http_proxy",
            "https_proxy",
            "REQUESTS_CA_BUNDLE",
            "SSL_CERT_FILE",
            "PIP_CERT"
        ]
    );
    assert!(vars[..4].iter().all(|v| v.1 == "http://127.0.0.1:1"));
    assert!(vars[4..].iter().all(|v| v.1 == "/tmp/ca.pem"));
}

#[test]
fn pypi_versions_in_file_names() {
    let version = |name: &str| parse_version_from_filename(name);
    assert_eq!(version("requests-2.31.0-py3-none-any.whl").as_deref(), Some("2.31.0"));
    assert_eq!(version("requests-2.31.0-py3-none-any.whl.metadata").as_deref(), Some("2.31.0"));
    assert_eq!(version("requests-2.31.0.tar.gz").as_deref(), Some("2.31.0"));
    assert_eq!(version("a-b-1.0.zip").as_deref(), Some("1.0"));
    assert_eq!(version("a-1.0.tar.bz2").as_deref(), Some("1.0"));
    assert_eq!(version("a-1.0.tar.xz.metadata").as_deref(), Some("1.0"));
    assert_eq!(version("a-latest.zip"), None);
    assert_eq!(version("a-.zip"), None);
    assert_eq!(version("a.zip"), None);
    assert_eq!(version("a-1.0.exe"), None);
    assert_eq!(version(""), None);
    assert_eq!(parse_wheel_version("a-1.0").as_deref(), Some("1.0"));
    assert_eq!(parse_wheel_version("a-latest-py3"), None);
    assert_eq!(parse_wheel_version("a"), None);
}

#[test]
fn pypi_versions_in_urls() {
    let version = |raw: &str| PyPIRegistry::parse_version_from_url(&Url::parse(raw).unwrap());
    let base = "https://files.pythonhosted.org/packages/ab/cd/";
    assert_eq!(version(&format!("{base}requests-2.31.0.tar.gz")).as_deref(), Some("2.31.0"));
    assert_eq!(version(&format!("{base}a-1.0%2Blocal.tar.gz")).as_deref(), Some("1.0+local"));
    assert_eq!(version(&format!("{base}a-1.0%FF.tar.gz")), None);
    assert_eq!(version(base), None);
    assert_eq!(version("mailto:a-1.0.zip"), None);
}

#[test]
fn pypi_withheld_versions_on_instants() {
    let checker = CutoffChecker::at(7_200_000_000_000, 1).unwrap();
    let uploaded = vec![
        ("1".to_string(), vec![]),
        ("2".to_string(), vec![Some(1), Some(3_600_000_000_000)]),
        ("3".to_string(), vec![Some(1), Some(3_600_000_000_001)]),
        ("4".to_string(), vec![None, None]),
        ("5".to_string(), vec![None, Some(1)]),
    ];
    assert_eq!(withheld_versions(&checker, &uploaded), vec!["3", "4"]);
}
