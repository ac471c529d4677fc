use farthinder::instant::{parse_instant, CutoffChecker};
use farthinder::json::RawEntry;
use farthinder::registry::npm::{
    fields_once, prune, recalculate_latest, withheld_versions, NpmMetadata, NpmRegistry,
};
use farthinder::registry::ResponseAction;
use farthinder::rule::Rules;
use farthinder::target::Url;

const EXPRESS: &str = r#"{
  "_id": "express",
  "name": "express",
  "dist-tags": { "latest": "99.0.0", "legacy": "3.21.2", "next": "99.1.0-beta.1" },
  "time": {
    "created": "2010-12-29T19:38:25.450Z",
    "modified": "2999-03-01T00:00:00.000Z",
    "3.21.2": "2015-07-31T20:59:04.123Z",
    "4.18.2": "2022-10-08T20:14:32.000Z",
    "4.19.0-rc.1": "2023-02-01T00:00:00.000Z",
    "99.0.0": "2999-01-01T00:00:00.000Z",
    "99.1.0-beta.1": "2999-02-01T00:00:00.000Z",
    "0.0.1-broken": "yesterday"
  },
  "versions": {
    "3.21.2": { "version": "3.21.2" },
    "4.18.2": { "version": "4.18.2", "dist": { "unpackedSize": 213996 } },
    "4.19.0-rc.1": { "version": "4.19.0-rc.1" },
    "99.0.0": { "version": "99.0.0" },
    "99.1.0-beta.1": { "version": "99.1.0-beta.1" },
    "0.0.1-broken": { "version": "0.0.1-broken" }
  },
  "readme": "Fast, unopinionated, minimalist web framework"
}"#;

fn url(raw: &str) -> Url {
    Url::parse(raw).unwrap()
}

fn rewritten(action: ResponseAction) -> Vec<u8> {
    match action {
        ResponseAction::Rewrite { body } => body,
        _ => panic!("expected rewrite, got {:?}", action),
    }
}

fn checker(now: &str, hours: u32) -> CutoffChecker {
    CutoffChecker::at(parse_instant(now).unwrap(), hours).unwrap()
}

fn pairs(list: &[(&str, &str)]) -> Vec<(String, String)> {
    list.iter().map(|(a, b)| (a.to_string(), b.to_string())).collect()
}

#[test]
fn npm_rewrite_against_real_metadata() {
    let mut registry = NpmRegistry::new(Rules::new(365 * 24)).unwrap();
    let cutoff = registry.test_cutoff();

    let body = EXPRESS.as_bytes();
    let headers = http::HeaderMap::new();
    let url = url("https://registry.npmjs.org/express");

    let action = registry.handle_response(&url, 200, &headers, body);
    let new_body = rewritten(action);

    let meta: serde_json::Value = serde_json::from_slice(&new_body).unwrap();
    for (version, ts) in meta["time"].as_object().unwrap() {
        if version == "created" || version == "modified" {
            continue;
        }
        let ts = parse_instant(ts.as_str().unwrap()).unwrap();
        assert!(ts <= cutoff, "remaining version {version} ({ts}) is newer than cutoff ({cutoff})");
    }

    let original: serde_json::Value = serde_json::from_slice(body).unwrap();
    let before = original["versions"].as_object().unwrap().len();
    let after = meta["versions"].as_object().unwrap().len();
    assert!(after < before, "should have stripped some versions ({} vs {})", after, before);
    assert!(
        meta.get("readme").is_some(),
        "extra fields like 'readme' should be preserved through round-trip"
    );

    let stats = registry.stats();
    assert_eq!(stats.packages_checked, 1);
    assert!(!stats.packages_quarantined.is_empty());
}

#[test]
fn npm_passthrough_for_tarball() {
    let mut registry = NpmRegistry::new(Rules::new(48)).unwrap();
    let url = url("https://registry.npmjs.org/express/-/express-4.18.2.tgz");
    let action = registry.handle_response(&url, 200, &http::HeaderMap::new(), b"data");
    assert!(matches!(action, ResponseAction::Passthrough));
}

#[test]
fn npm_blocks_compressed_metadata() {
    let mut registry = NpmRegistry::new(Rules::new(48)).unwrap();
    let url = url("https://registry.npmjs.org/express");
    let mut headers = http::HeaderMap::new();
    headers.insert("content-encoding", "gzip".parse().unwrap());
    let action = registry.handle_response(&url, 200, &headers, b"compressed data");
    assert!(matches!(action, ResponseAction::Block));
    assert_eq!(registry.stats().packages_checked, 0);
}

#[test]
fn npm_rewrite_is_exact() {
    let mut registry = NpmRegistry::with_checker(checker("2023-01-01T00:00:00Z", 48));
    let url = url("https://registry.npmjs.org/express");
    let action = registry.handle_response(&url, 200, &http::HeaderMap::new(), EXPRESS.as_bytes());
    let text = String::from_utf8(rewritten(action)).unwrap();
    assert_eq!(
        text,
        concat_lines(&[
            r#"{"name":"express","dist-tags":{"latest":"4.18.2","legacy":"3.21.2"},"#,
            r#""time":{"3.21.2":"2015-07-31T20:59:04.123Z","4.18.2":"2022-10-08T20:14:32.000Z","#,
            r#""created":"2010-12-29T19:38:25.450Z","modified":"2999-03-01T00:00:00.000Z"},"#,
            r#""versions":{"3.21.2":{"version":"3.21.2"},"#,
            r#""4.18.2":{"dist":{"unpackedSize":213996},"version":"4.18.2"}},"#,
            r#""_id":"express","readme":"Fast, unopinionated, minimalist web framework"}"#,
        ])
    );
    let stats = registry.stats();
    assert_eq!(stats.packages_quarantined.len(), 1);
    assert_eq!(stats.packages_quarantined[0].name, "express");
    assert_eq!(
        stats.packages_quarantined[0].quarantined_versions,
        vec!["0.0.1-broken", "4.19.0-rc.1", "99.0.0", "99.1.0-beta.1"]
    );
}

fn concat_lines(lines: &[&str]) -> String {
    lines.iter().map(|s| s.to_string()).collect::<Vec<String>>().join("")
}

#[test]
fn npm_second_pass_changes_nothing() {
    let mut registry = NpmRegistry::with_checker(checker("2023-01-01T00:00:00Z", 48));
    let url = url("https://registry.npmjs.org/express");
    let headers = http::HeaderMap::new();
    let body = rewritten(registry.handle_response(&url, 200, &headers, EXPRESS.as_bytes()));
    let again = registry.handle_response(&url, 200, &headers, &body);
    assert!(matches!(again, ResponseAction::Passthrough));
    let stats = registry.stats();
    assert_eq!(stats.packages_checked, 2);
    assert_eq!(stats.packages_quarantined.len(), 1);
}

#[test]
fn npm_identity_encoding_is_read() {
    for encoding in ["identity", "none"] {
        let mut registry = NpmRegistry::with_checker(checker("2023-01-01T00:00:00Z", 48));
        let mut headers = http::HeaderMap::new();
        headers.insert("content-encoding", encoding.parse().unwrap());
        let url = url("https://registry.npmjs.org/express");
        let action = registry.handle_response(&url, 200, &headers, EXPRESS.as_bytes());
        assert!(matches!(action, ResponseAction::Rewrite { .. }));
    }
}

#[test]
fn npm_what_is_no_metadata_passes() {
    let mut registry = NpmRegistry::with_checker(checker("2023-01-01T00:00:00Z", 48));
    let url = url("https://registry.npmjs.org/-/v1/search");
    let headers = http::HeaderMap::new();
    let bodies: [&[u8]; 7] = [
        b"not json",
        b"[]",
        b"{}",
        br#"{"name":1,"dist-tags":{},"time":{},"versions":{}}"#,
        br#"{"name":"a","dist-tags":{"x":1},"time":{},"versions":{}}"#,
        br#"{"name":"a","dist-tags":{},"time":{"1.0.0":null},"versions":{}}"#,
        br#"{"name":"a","dist-tags":{},"time":{},"versions":[]}"#,
    ];
    for body in bodies {
        let action = registry.handle_response(&url, 200, &headers, body);
        assert!(matches!(action, ResponseAction::Passthrough));
    }
    assert_eq!(registry.stats().packages_checked, 0);
    let url = Url::parse("https://registry.npmjs.org/a").unwrap();
    for body in bodies {
        let action = registry.handle_response(&url, 200, &headers, body);
        assert!(matches!(action, ResponseAction::Passthrough));
    }
    assert_eq!(registry.stats().packages_checked, 0);
}

#[test]
fn npm_members_written_twice() {
    let mut registry = NpmRegistry::with_checker(checker("2023-01-01T00:00:00Z", 48));
    let url = url("https://registry.npmjs.org/a");
    let headers = http::HeaderMap::new();
    let bodies: [&[u8]; 8] = [
        br#"{"name":"a","name":"a","dist-tags":{},"time":{"1.0.0":"2999-01-01T00:00:00Z"},"versions":{}}"#,
        br#"{"name":"a","dist-tags":{},"dist-tags":{},"time":{"1.0.0":"2999-01-01T00:00:00Z"},"versions":{}}"#,
        br#"{"name":"a","time":{},"dist-tags":{},"time":{"1.0.0":"2999-01-01T00:00:00Z"},"versions":{}}"#,
        br#"{"name":"a","dist-tags":{},"time":{"1.0.0":"2999-01-01T00:00:00Z"},"versions":{},"versions":{}}"#,
        br#"{"name":"a","na\u006de":"a","dist-tags":{},"time":{"1.0.0":"2999-01-01T00:00:00Z"},"versions":{}}"#,
        br#"{"name":"a","dist-tags":{},"time":{"1.0.0":1,"1.0.0":"2999-01-01T00:00:00Z"},"versions":{}}"#,
        br#"{"name":"a","dist-tags":{"x":null,"x":"1.0.0"},"time":{"1.0.0":"2999-01-01T00:00:00Z"},"versions":{}}"#,
        br#" { "name" : [ ] , "name" : "a" , "dist-tags" : { } , "time" : { "1.0.0" : "2999-01-01T00:00:00Z" } , "versions" : { } } "#,
    ];
    for body in bodies {
        assert!(serde_json::from_slice::<serde_json::Value>(body).is_ok());
        let action = registry.handle_response(&url, 200, &headers, body);
        assert!(matches!(action, ResponseAction::Passthrough));
    }
    assert_eq!(registry.stats().packages_checked, 0);

    let body = br#" { "readme" : 1, "name" : "a" , "dist-tags" : { "x" : "1.0.0" , "x" : "0.1.0" } ,
        "time" : { "1.0.0" : "2020-01-01T00:00:00Z" , "1.0.0" : "2999-01-01T00:00:00Z" , "0.1.0" : "2020-01-01T00:00:00Z" } ,
        "versions" : { "0.1.0" : 1 , "0.1.0" : { "time" : 1 , "time" : 2 } } , "readme" : "b" } "#;
    let action = registry.handle_response(&url, 200, &headers, body);
    assert_eq!(
        String::from_utf8(rewritten(action)).unwrap(),
        concat_lines(&[
            r#"{"name":"a","dist-tags":{"latest":"0.1.0","x":"0.1.0"},"#,
            r#""time":{"0.1.0":"2020-01-01T00:00:00Z"},"#,
            r#""versions":{"0.1.0":{"time":2}},"readme":"b"}"#,
        ])
    );
    assert_eq!(registry.stats().packages_checked, 1);
}

#[test]
fn npm_fields_once_on_entries() {
    let entry = |name: &str| RawEntry { name: name.to_string(), is_text: true, start: 0, end: 0 };
    assert!(fields_once(&vec![]));
    assert!(fields_once(&vec![entry("name"), entry("time"), entry("readme"), entry("readme")]));
    assert!(!fields_once(&vec![entry("readme"), entry("time"), entry("name"), entry("time")]));
    assert!(!fields_once(&vec![entry("versions"), entry("versions")]));
}

#[test]
fn npm_second_pass_with_fractions() {
    let mut registry = NpmRegistry::with_checker(checker("2023-01-01T00:00:00Z", 48));
    let url = url("https://registry.npmjs.org/a");
    let headers = http::HeaderMap::new();
    let body = br#"{"name":"a","dist-tags":{},"time":{"1.0.0":"2999-01-01T00:00:00Z","0.1.0":"2020-01-01T00:00:00Z"},
        "versions":{"0.1.0":{"size":12345678901234567890123.5}},"score":0.30000000000000004,
        "greatest":1.7976931348623157e308,"next":1.7976931348623155e308,"least":-0,"tiny":5e-324}"#;
    let body = rewritten(registry.handle_response(&url, 200, &headers, body));
    let again = registry.handle_response(&url, 200, &headers, &body);
    assert!(matches!(again, ResponseAction::Passthrough));
    let stats = registry.stats();
    assert_eq!(stats.packages_checked, 2);
    assert_eq!(stats.packages_quarantined.len(), 1);
}

#[test]
fn npm_metadata_urls() {
    let asks = |raw: &str| NpmRegistry::is_metadata_url(&Url::parse(raw).unwrap());
    assert!(asks("https://registry.npmjs.org/express"));
    assert!(asks("https://registry.npmjs.org/@types%2fnode"));
    assert!(asks("https://registry.npmjs.org/express?x=.tgz"));
    assert!(!asks("https://registry.npmjs.org/express/-/express-4.18.2.tgz"));
    assert!(!asks("https://registry.npmjs.org/a.tgz"));
    assert!(!asks("https://registry.npmjs.org/-/v1/search"));
}

#[test]
fn npm_prepares_requests_for_metadata() {
    let registry = NpmRegistry::with_checker(checker("2023-01-01T00:00:00Z", 48));
    let mut headers = http::HeaderMap::new();
    headers.insert("accept", "application/vnd.npm.install-v1+json".parse().unwrap());
    headers.insert("accept-encoding", "gzip, br".parse().unwrap());
    headers.insert("user-agent", "npm".parse().unwrap());
    let untouched = headers.clone();

    let tarball = url("https://registry.npmjs.org/express/-/express-4.18.2.tgz");
    registry.prepare_request(&tarball, &mut headers);
    assert_eq!(headers, untouched);

    registry.prepare_request(&url("https://registry.npmjs.org/express"), &mut headers);
    assert_eq!(headers.get("accept").unwrap(), "application/json");
    assert!(headers.get("accept-encoding").is_none());
    assert_eq!(headers.get("user-agent").unwrap(), "npm");
    assert_eq!(headers.len(), 2);
}

#[test]
fn npm_hosts_and_variables() {
    let registry = NpmRegistry::with_checker(checker("2023-01-01T00:00:00Z", 48));
    assert_eq!(registry.known_hosts(), vec!["registry.npmjs.org", "registry.yarnpkg.com"]);
    assert_eq!(
        registry.proxy_env_vars("http://127.0.0.1:1", "/tmp/ca.pem"),
        pairs(&[
            ("npm_config_proxy", "http://127.0.0.1:1"),
            ("npm_config_https_proxy", "http://127.0.0.1:1"),
            ("HTTP_PROXY", "http://127.0.0.1:1"),
            ("HTTPS_PROXY", "http://127.0.0.1:1"),
            ("NODE_EXTRA_CA_CERTS", "/tmp/ca.pem"),
        ])
    );
}

#[test]
fn npm_withheld_versions_on_instants() {
    let checker = CutoffChecker::at(7_200_000_000_000, 1).unwrap();
    assert_eq!(checker.cutoff(), 3_600_000_000_000);
    let published = vec![
        ("1.0.0".to_string(), Some(3_600_000_000_000)),
        ("1.0.1".to_string(), Some(3_600_000_000_001)),
        ("1.0.2".to_string(), None),
        ("created".to_string(), Some(9_000_000_000_000)),
        ("modified".to_string(), None),
    ];
    assert_eq!(withheld_versions(&checker, &published), vec!["1.0.1", "1.0.2"]);
}

#[test]
fn npm_latest_is_the_newest_stable_version() {
    let times = pairs(&[
        ("1.0.0", "2020-01-01T00:00:00Z"),
        ("1.1.0", "2021-01-01T00:00:00Z"),
        ("1.2.0-rc.1", "2022-01-01T00:00:00Z"),
        ("created", "2023-01-01T00:00:00Z"),
        ("modified", "2023-01-01T00:00:00Z"),
    ]);
    assert_eq!(recalculate_latest(&times), Some("1.1.0".to_string()));
    let tie = pairs(&[("1.0.0", "2020"), ("1.0.1", "2020"), ("1.0.2", "2019")]);
    assert_eq!(recalculate_latest(&tie), Some("1.0.1".to_string()));
    assert_eq!(recalculate_latest(&pairs(&[("1.0.0-a", "2020"), ("created", "2020")])), None);
    assert_eq!(recalculate_latest(&vec![]), None);
}

#[test]
fn npm_prune_moves_latest_only_if_it_has_to() {
    let meta = || NpmMetadata {
        name: "a".to_string(),
        dist_tags: pairs(&[("beta", "2.0.0"), ("latest", "1.0.0")]),
        time: pairs(&[("1.0.0", "2020"), ("1.5.0", "2021"), ("2.0.0", "2022")]),
        versions: vec![("2.0.0".to_string(), serde_json::Value::Null)],
        extra: vec![],
    };
    let kept = prune(meta(), &vec!["2.0.0".to_string()]);
    assert_eq!(kept.dist_tags, pairs(&[("latest", "1.0.0")]));
    assert_eq!(kept.time, pairs(&[("1.0.0", "2020"), ("1.5.0", "2021")]));
    assert!(kept.versions.is_empty());

    let moved = prune(meta(), &vec!["1.0.0".to_string()]);
    assert_eq!(moved.dist_tags, pairs(&[("beta", "2.0.0"), ("latest", "2.0.0")]));
    assert_eq!(moved.versions.len(), 1);

    let all = vec!["1.0.0".to_string(), "1.5.0".to_string(), "2.0.0".to_string()];
    let none = prune(meta(), &all);
    assert!(none.dist_tags.is_empty());
    assert!(none.time.is_empty());
    assert_eq!(none.name, "a");
}
