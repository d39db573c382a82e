use giantd::config::{ProfileMeta, ProfileRaw};
use giantd::convert::{
    dedupe_rule_ids, export_mitmproxy_addon, extract_profile_prefix, import_legacy,
    import_legacy_profile, import_proxyman, parse_u16, slugify, LegacyRule, ProxymanMethod,
    ProxymanRule, ProxymanURLComponent,
};
use giantd::errors::GiantError;
use giantd::rules::{MatchRule, RuleRaw, Target};

fn legacy(id: &str, regex: &str, port: u16) -> LegacyRule {
    LegacyRule {
        id: id.to_string(),
        enabled: true,
        regex: regex.to_string(),
        host: "localhost".to_string(),
        port,
        scheme: "http".to_string(),
    }
}

fn component(scheme: &str, host: &str, port: &str, path: &str) -> ProxymanURLComponent {
    ProxymanURLComponent {
        scheme: scheme.to_string(),
        host: host.to_string(),
        port: port.to_string(),
        path: path.to_string(),
    }
}

fn proxyman(name: &str, regex_mode: bool, from_url: &str) -> ProxymanRule {
    ProxymanRule {
        id: "x".to_string(),
        name: name.to_string(),
        is_enabled: true,
        map_from_url: from_url.to_string(),
        regex: if regex_mode { "useRegex".to_string() } else { String::new() },
        method: None,
        preserve_host_header: false,
        preserve_original_url: false,
        to_url_component: component("", "", "3000", ""),
        from_url_component: Some(component("https", "shop.example.com", "", "/cart")),
    }
}

#[test]
fn legacy_profiles_keep_rules_in_order() {
    let data = vec![("dev".to_string(), vec![legacy("a", "^a", 1), legacy("b", "^b", 2)])];
    let profiles = import_legacy(&data);
    assert_eq!(profiles.len(), 1);
    let p = &profiles[0];
    assert_eq!(p.meta.name, "dev");
    assert_eq!(p.meta.description.as_deref(), Some("imported from legacy rules.json"));
    assert_eq!(p.rules[1].id, "b");
    assert_eq!(p.rules[1].match_rule.regex.as_deref(), Some("^b"));
    assert!(p.rules[1].preserve_host);
    assert_eq!(p.rules[1].target.port, 2);
}

#[test]
fn legacy_profile_by_name() {
    let data = vec![
        ("dev".to_string(), vec![legacy("a", "^a", 1)]),
        ("prod".to_string(), vec![legacy("p", "^p", 9)]),
    ];
    let p = import_legacy_profile(&data, "prod").unwrap();
    assert_eq!(p.rules[0].id, "p");
    match import_legacy_profile(&data, "stage") {
        Err(GiantError::ConfigError(m)) => assert_eq!(m, "profile 'stage' not found in legacy file"),
        other => panic!("unexpected: {:?}", other),
    }
}

#[test]
fn slugs_are_lowercase_and_trimmed() {
    assert_eq!(slugify("Admin Tools!"), "admin_tools");
    assert_eq!(slugify("__x-Y__"), "x-y");
    assert_eq!(slugify("Café 2"), "café_2");
    assert_eq!(slugify("!!!"), "");
}

#[test]
fn profile_prefix_is_split_off() {
    assert_eq!(
        extract_profile_prefix("[PREPROD] admin tools"),
        ("preprod".to_string(), "admin_tools".to_string())
    );
    assert_eq!(extract_profile_prefix("plain name"), ("default".to_string(), "plain_name".to_string()));
    assert_eq!(extract_profile_prefix("[open only"), ("default".to_string(), "open_only".to_string()));
}

#[test]
fn ports_parse_like_std() {
    assert_eq!(parse_u16("8080"), Some(8080));
    assert_eq!(parse_u16("+80"), Some(80));
    assert_eq!(parse_u16("65535"), Some(65535));
    assert_eq!(parse_u16("65536"), None);
    assert_eq!(parse_u16(""), None);
    assert_eq!(parse_u16("+"), None);
    assert_eq!(parse_u16(" 80"), None);
    assert_eq!(parse_u16("-1"), None);
    for s in ["0", "007", "12a", "99999", "+65535"] {
        assert_eq!(parse_u16(s), s.parse::<u16>().ok(), "{}", s);
    }
}

#[test]
fn proxyman_rules_are_grouped_and_deduplicated() {
    let rules = vec![
        proxyman("[PREPROD] Cart", true, r"^https:\/\/shop\.example\.com\/cart.*"),
        proxyman("[prod] cart", false, ""),
        proxyman("[Preprod] cart", false, ""),
        proxyman("[preprod] CART", false, ""),
    ];
    let profiles = import_proxyman(&rules);
    assert_eq!(profiles.len(), 2);
    let pre = &profiles[0];
    assert_eq!(pre.meta.name, "preprod");
    assert_eq!(pre.meta.description.as_deref(), Some("imported from proxyman"));
    let ids: Vec<&str> = pre.rules.iter().map(|r| r.id.as_str()).collect();
    assert_eq!(ids, vec!["cart", "cart_2", "cart_3"]);
    assert_eq!(pre.rules[0].match_rule.regex.as_deref(), Some(r"^https://shop\.example\.com/cart.*"));
    assert_eq!(pre.rules[1].match_rule.host.as_deref(), Some("shop.example.com"));
    assert_eq!(pre.rules[1].match_rule.path.as_deref(), Some("/cart"));
    assert_eq!(pre.rules[1].target.host, "localhost");
    assert_eq!(pre.rules[1].target.scheme, "http");
    assert_eq!(pre.rules[1].target.port, 3000);
    assert_eq!(profiles[1].meta.name, "prod");
}

#[test]
fn proxyman_defaults_for_missing_target_parts() {
    let mut r = proxyman("x", false, "");
    r.to_url_component = component("https", "api.local", "not-a-port", "/v2");
    r.method = Some(ProxymanMethod { any: false, get: false, post: true, put: true, delete: false, patch: false });
    r.preserve_original_url = true;
    let profiles = import_proxyman(&vec![r]);
    let rule = &profiles[0].rules[0];
    assert_eq!(profiles[0].meta.name, "default");
    assert_eq!(rule.target.port, 80);
    assert_eq!(rule.target.scheme, "https");
    assert_eq!(rule.target.path.as_deref(), Some("/v2"));
    assert_eq!(rule.match_rule.method.as_deref(), Some("POST"));
    assert!(rule.preserve_host);
}

#[test]
fn method_any_means_no_filter() {
    let m = ProxymanMethod { any: true, get: true, post: false, put: false, delete: false, patch: false };
    assert_eq!(m.to_method_string(), None);
    let none = ProxymanMethod { any: false, get: false, post: false, put: false, delete: false, patch: true };
    assert_eq!(none.to_method_string().as_deref(), Some("PATCH"));
}

#[test]
fn dedupe_skips_ids_already_taken() {
    let target = Target { host: "h".to_string(), port: 1, scheme: "http".to_string(), path: None };
    let mr = MatchRule { host: None, path: None, not_path: None, method: None, regex: None };
    let mk = |id: &str| RuleRaw {
        id: id.to_string(),
        enabled: true,
        match_rule: mr.clone(),
        target: target.clone(),
        preserve_host: true,
        priority: 0,
    };
    let mut rules = vec![mk("a_2"), mk("a"), mk("a"), mk("a")];
    dedupe_rule_ids(&mut rules);
    let ids: Vec<&str> = rules.iter().map(|r| r.id.as_str()).collect();
    assert_eq!(ids, vec!["a_2", "a", "a_3", "a_4"]);
}

#[test]
fn mitmproxy_addon_lists_enabled_regex_rules() {
    let rule = |id: &str, enabled: bool, regex: Option<&str>| RuleRaw {
        id: id.to_string(),
        enabled,
        match_rule: MatchRule { host: None, path: None, not_path: None, method: None, regex: regex.map(|s| s.to_string()) },
        target: Target { host: "localhost".to_string(), port: 3000, scheme: "http".to_string(), path: None },
        preserve_host: true,
        priority: 0,
    };
    let profile = ProfileRaw {
        meta: ProfileMeta { name: "p".to_string(), description: None, format_version: 1 },
        rules: vec![rule("a", true, Some(r"^a\.b")), rule("b", false, Some("^c")), rule("c", true, None)],
    };
    let script = export_mitmproxy_addon(&profile);
    assert!(script.starts_with("import re\nfrom mitmproxy import http\n\nRULES = [\n"));
    assert!(script.contains("    (\"^a\\\\.b\", \"localhost\", 3000, \"http\"),\n]"));
    assert!(!script.contains("^c"));
    assert!(script.ends_with("            break\n"));
}
