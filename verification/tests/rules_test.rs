use giantd::config::{Profile, ProfileMeta, ProfileRaw};
use giantd::rule_list::{
    add_rule, choose_profile, find_rule, profile_from_rules, remove_rule, reorder_rules,
    route_request, rule_states, toggle_rule, update_rule, Route, RuleUpdate,
};
use giantd::rules::{MatchRule, RequestInfo, Rule, RuleRaw, Target};
use giantd::errors::GiantError;

fn make_raw(
    id: &str,
    host: Option<&str>,
    path: Option<&str>,
    not_path: Option<&str>,
    method: Option<&str>,
    regex: Option<&str>,
) -> RuleRaw {
    RuleRaw {
        id: id.to_string(),
        enabled: true,
        match_rule: MatchRule {
            host: host.map(|s| s.to_string()),
            path: path.map(|s| s.to_string()),
            not_path: not_path.map(|s| s.to_string()),
            method: method.map(|s| s.to_string()),
            regex: regex.map(|s| s.to_string()),
        },
        target: Target {
            host: "localhost".to_string(),
            port: 3000,
            scheme: "http".to_string(),
            path: None,
        },
        preserve_host: true,
        priority: 0,
    }
}

fn make_rule(
    host: Option<&str>,
    path: Option<&str>,
    not_path: Option<&str>,
    method: Option<&str>,
    regex: Option<&str>,
) -> Rule {
    Rule::from_raw(make_raw("test_rule", host, path, not_path, method, regex)).expect("valid rule")
}

/// The request the proxy sees for `uri` with an optional `Host` header.
fn make_request(uri: &str, host: Option<&str>, method: &http::Method) -> RequestInfo {
    let u: http::Uri = uri.parse().expect("valid uri");
    RequestInfo {
        url: u.to_string(),
        method: method.as_str().to_string(),
        scheme: u.scheme_str().map(|s| s.to_string()),
        host_header: host.map(|h| h.to_string()),
        authority_host: u.authority().map(|a| a.host().to_string()),
        path: u.path().to_string(),
        path_and_query: u.path_and_query().map(|pq| pq.as_str().to_string()),
    }
}

#[test]
fn glob_host_match() {
    let rule = make_rule(Some("*.example.com"), None, None, None, None);
    let req = make_request("https://foo.example.com/path", Some("foo.example.com"), &http::Method::GET);
    assert!(rule.matches(&req));
}

#[test]
fn glob_host_no_match() {
    let rule = make_rule(Some("*.example.com"), None, None, None, None);
    let req = make_request("https://example.com/path", Some("example.com"), &http::Method::GET);
    assert!(!rule.matches(&req));
}

#[test]
fn glob_path_match() {
    let rule = make_rule(Some("*"), Some("/merchant/*"), None, None, None);
    let req = make_request("https://app.example.com/merchant/foo", Some("app.example.com"), &http::Method::GET);
    assert!(rule.matches(&req));
}

#[test]
fn glob_path_no_match() {
    let rule = make_rule(Some("*"), Some("/merchant/*"), None, None, None);
    let req = make_request("https://app.example.com/other/foo", Some("app.example.com"), &http::Method::GET);
    assert!(!rule.matches(&req));
}

#[test]
fn not_path_exclusion() {
    let rule = make_rule(Some("*"), Some("/merchant/**"), Some("/merchant/v1/**"), None, None);
    let req = make_request("https://app.example.com/merchant/v1/foo", Some("app.example.com"), &http::Method::GET);
    assert!(!rule.matches(&req));
}

#[test]
fn not_path_allows_other_paths() {
    // glob-match: * doesn't cross path separators, use ** for recursive
    let rule = make_rule(Some("*"), Some("/merchant/**"), Some("/merchant/v1/**"), None, None);
    let req = make_request("https://app.example.com/merchant/v2/foo", Some("app.example.com"), &http::Method::GET);
    assert!(rule.matches(&req));
}

#[test]
fn regex_fallback() {
    let rule = make_rule(None, None, None, None, Some(r"^https://api-v[0-9]+\.example\.com/.*"));
    let req = make_request("https://api-v2.example.com/test", Some("api-v2.example.com"), &http::Method::GET);
    assert!(rule.matches(&req));
}

#[test]
fn regex_no_match() {
    let rule = make_rule(None, None, None, None, Some(r"^https://api-v[0-9]+\.example\.com/.*"));
    let req = make_request("https://other.example.com/test", Some("other.example.com"), &http::Method::GET);
    assert!(!rule.matches(&req));
}

#[test]
fn method_filter_get_only() {
    let rule = make_rule(Some("*"), None, None, Some("GET"), None);
    let get = make_request("https://app.example.com/path", Some("app.example.com"), &http::Method::GET);
    let post = make_request("https://app.example.com/path", Some("app.example.com"), &http::Method::POST);
    assert!(rule.matches(&get));
    assert!(!rule.matches(&post));
}

#[test]
fn method_filter_any() {
    let rule = make_rule(Some("*"), None, None, Some("ANY"), None);
    for m in [http::Method::GET, http::Method::POST, http::Method::DELETE] {
        let req = make_request("https://app.example.com/path", Some("app.example.com"), &m);
        assert!(rule.matches(&req));
    }
}

#[test]
fn http2_authority_fallback() {
    // no Host header, but URI has authority (HTTP/2 style)
    let rule = make_rule(Some("*.example.com"), None, None, None, None);
    let req = make_request("https://foo.example.com/path", None, &http::Method::GET);
    assert!(rule.matches(&req));
}

#[test]
fn first_match_wins() {
    let rule1 = make_rule(Some("*.example.com"), Some("/merchant/*"), None, None, None);
    let rule2 = make_rule(Some("*"), Some("/merchant/*"), None, None, None);
    let req = make_request("https://foo.example.com/merchant/test", Some("foo.example.com"), &http::Method::GET);

    // both should match, but in a real list rule1 comes first
    assert!(rule1.matches(&req));
    assert!(rule2.matches(&req));
}

#[test]
fn from_raw_compiles_regex() {
    let raw = make_raw("test", None, None, None, None, Some(r"^https://.*\.example\.com/.*"));
    let rule = Rule::from_raw(raw).expect("should compile valid regex");
    assert!(rule.compiled_regex.is_some());
}

#[test]
fn from_raw_rejects_invalid_regex() {
    let raw = make_raw("test", None, None, None, None, Some(r"[invalid"));
    assert!(Rule::from_raw(raw).is_err());
}

#[test]
fn rewrite_uri_preserves_path() {
    let rule = make_rule(Some("*"), None, None, None, None);
    let original = make_request("https://app.example.com/merchant/foo?bar=baz", None, &http::Method::GET);
    let rewritten = rule.rewrite_uri(&original);
    let authority: http::uri::Authority = rewritten.authority.parse().unwrap();
    assert_eq!(rewritten.scheme, "http");
    assert_eq!(authority.host(), "localhost");
    assert_eq!(authority.port_u16(), Some(3000));
    assert_eq!(rewritten.path_and_query, "/merchant/foo?bar=baz");
}

#[test]
fn rewrite_uri_with_target_path() {
    let mut raw = make_raw("test", Some("*"), None, None, None, None);
    raw.target.path = Some("/custom/path".to_string());
    let rule = Rule::from_raw(raw).unwrap();
    let original = make_request("https://app.example.com/merchant/foo", None, &http::Method::GET);
    let rewritten = rule.rewrite_uri(&original);
    assert_eq!(rewritten.path_and_query, "/custom/path");
}

// -- rule lists --

fn rules_abc() -> Vec<Rule> {
    vec![
        Rule::from_raw(make_raw("a", Some("*.example.com"), Some("/merchant/*"), None, None, None)).unwrap(),
        Rule::from_raw(make_raw("b", Some("*"), Some("/merchant/*"), None, None, None)).unwrap(),
        Rule::from_raw(make_raw("c", Some("*.other.com"), None, None, None, None)).unwrap(),
    ]
}

fn ids(rules: &[Rule]) -> Vec<String> {
    rules.iter().map(|r| r.id.clone()).collect()
}

#[test]
fn route_picks_first_enabled_match() {
    let mut rules = rules_abc();
    let req = make_request("https://foo.example.com/merchant/test", Some("foo.example.com"), &http::Method::GET);
    match route_request(&rules, &req).0 {
        Route::Redirect(f) => assert_eq!(f.rule_id, "a"),
        Route::Passthrough => panic!("expected a redirect"),
    }
    assert_eq!(toggle_rule(&mut rules, "a"), Some(false));
    match route_request(&rules, &req).0 {
        Route::Redirect(f) => {
            assert_eq!(f.rule_id, "b");
            assert_eq!(f.rule_index, 1);
        }
        Route::Passthrough => panic!("expected a redirect"),
    }
}

#[test]
fn route_passes_through_unmatched_requests() {
    let rules = rules_abc();
    let req = make_request("https://nowhere.test/x", Some("nowhere.test"), &http::Method::GET);
    let (route, shown) = route_request(&rules, &req);
    assert!(matches!(route, Route::Passthrough));
    assert_eq!(shown, "https://nowhere.test/x");
}

#[test]
fn route_sets_forwarding_headers() {
    let mut raw = make_raw("x", Some("*.example.com"), None, None, None, None);
    raw.preserve_host = false;
    let rules = vec![Rule::from_raw(raw).unwrap()];
    // a request as the proxy sees it after CONNECT: no scheme in the URI
    let req = make_request("/api/v1?x=1", Some("shop.example.com:443"), &http::Method::POST);
    let (route, shown) = route_request(&rules, &req);
    assert_eq!(shown, "https://shop.example.com:443/api/v1?x=1");
    match route {
        Route::Redirect(f) => {
            assert_eq!(f.forwarded_host.as_deref(), Some("shop.example.com:443"));
            assert_eq!(f.forwarded_proto, "https");
            assert_eq!(f.host_header.as_deref(), Some("localhost:3000"));
            assert_eq!(f.uri.authority, "localhost:3000");
            assert_eq!(f.uri.path_and_query, "/api/v1?x=1");
        }
        Route::Passthrough => panic!("expected a redirect"),
    }
}

#[test]
fn toggle_twice_restores() {
    let mut rules = rules_abc();
    assert_eq!(toggle_rule(&mut rules, "b"), Some(false));
    assert!(!rules[1].enabled);
    assert_eq!(toggle_rule(&mut rules, "b"), Some(true));
    assert!(rules.iter().all(|r| r.enabled));
    assert_eq!(toggle_rule(&mut rules, "fake_id"), None);
}

#[test]
fn remove_missing_rule_reports_not_found() {
    let mut rules = rules_abc();
    assert!(!remove_rule(&mut rules, "nope"));
    assert_eq!(rules.len(), 3);
    assert!(remove_rule(&mut rules, "b"));
    assert_eq!(ids(&rules), vec!["a", "c"]);
}

#[test]
fn reorder_moves_named_rules_first() {
    let mut rules = rules_abc();
    let order = vec!["c".to_string(), "missing".to_string(), "a".to_string()];
    reorder_rules(&mut rules, &order);
    assert_eq!(ids(&rules), vec!["c", "a", "b"]);
}

#[test]
fn update_rule_merges_fields() {
    let mut rules = rules_abc();
    let update = RuleUpdate {
        id: None,
        enabled: Some(false),
        match_rule: None,
        target: None,
        preserve_host: None,
        priority: Some(u64::from(u32::MAX) + 6),
    };
    assert!(update_rule(&mut rules, "b", update).is_ok());
    assert!(!rules[1].enabled);
    assert_eq!(rules[1].priority, 5);
    assert_eq!(rules[1].match_rule.path.as_deref(), Some("/merchant/*"));
}

#[test]
fn update_missing_rule_is_not_found() {
    let mut rules = rules_abc();
    let update = RuleUpdate { id: None, enabled: None, match_rule: None, target: None, preserve_host: None, priority: None };
    match update_rule(&mut rules, "nope", update) {
        Err(GiantError::ApiError(m)) => assert_eq!(m, "rule not found"),
        other => panic!("unexpected: {:?}", other),
    }
}

#[test]
fn update_with_bad_regex_is_refused() {
    let mut rules = rules_abc();
    let mut mr = rules[0].match_rule.clone();
    mr.regex = Some("[invalid".to_string());
    let update = RuleUpdate { id: None, enabled: None, match_rule: Some(mr), target: None, preserve_host: None, priority: None };
    let expected = regex::Regex::new("[invalid").unwrap_err().to_string();
    match update_rule(&mut rules, "a", update) {
        Err(GiantError::RuleError(m)) => assert_eq!(m, expected),
        other => panic!("unexpected: {:?}", other),
    }
    assert!(rules[0].match_rule.regex.is_none());
}

#[test]
fn add_rule_with_bad_regex_gives_the_compile_error() {
    let mut rules = rules_abc();
    let expected = regex::Regex::new("(").unwrap_err().to_string();
    match add_rule(&mut rules, make_raw("e", None, None, None, None, Some("("))) {
        Err(GiantError::RuleError(m)) => assert_eq!(m, expected),
        other => panic!("unexpected: {:?}", other),
    }
    assert_eq!(rules.len(), 3);
}

#[test]
fn add_rule_appends_and_find_locates() {
    let mut rules = rules_abc();
    assert!(add_rule(&mut rules, make_raw("d", Some("*"), None, None, None, None)).is_ok());
    assert_eq!(find_rule(&rules, "d"), Some(3));
    assert!(add_rule(&mut rules, make_raw("e", None, None, None, None, Some("("))).is_err());
    assert_eq!(rules.len(), 4);
    let states = rule_states(&rules);
    assert_eq!(states.len(), 4);
    assert_eq!(states[3].id, "d");
    assert_eq!(states[3].matched_count, 0);
}

#[test]
fn persisted_profile_writes_rules_back() {
    let rules = rules_abc();
    let p = profile_from_rules("dev", &rules);
    assert_eq!(p.meta.name, "dev");
    assert!(p.meta.description.is_none());
    assert_eq!(p.meta.format_version, 1);
    assert_eq!(p.rules.len(), 3);
    assert_eq!(p.rules[2].id, "c");
}

#[test]
fn profile_roundtrip_through_load() {
    let raw = ProfileRaw {
        meta: ProfileMeta { name: "p".to_string(), description: Some("d".to_string()), format_version: 1 },
        rules: vec![make_raw("r1", Some("*"), None, None, None, Some("^x"))],
    };
    let profile = Profile::from_raw(raw).unwrap();
    let back = profile.to_raw();
    assert_eq!(back.meta.description.as_deref(), Some("d"));
    assert_eq!(back.rules[0].match_rule.regex.as_deref(), Some("^x"));
}

#[test]
fn start_uses_requested_then_default_profile() {
    assert_eq!(choose_profile(Some("a".to_string()), &Some("b".to_string())).unwrap(), "a");
    assert_eq!(choose_profile(None, &Some("b".to_string())).unwrap(), "b");
    assert!(choose_profile(None, &None).is_err());
}

#[test]
fn rule_display_texts() {
    let rules = rules_abc();
    assert_eq!(rules[0].match_rule.display(), "*.example.com");
    assert_eq!(rules[0].target.display(), "http://localhost:3000");
    let r = make_rule(None, None, None, None, Some("^re$"));
    assert_eq!(r.match_rule.display(), "^re$");
    let none = make_rule(None, None, None, None, None);
    assert_eq!(none.match_rule.display(), "-");
}

#[test]
fn error_texts_name_their_kind() {
    assert_eq!(GiantError::RuleError("x".to_string()).to_string(), "rule error: x");
    assert_eq!(GiantError::IoError("y".to_string()).to_string(), "io error: y");
}
