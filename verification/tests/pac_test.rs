use giantd::pac::{extract_hosts_from_regex, generate_pac};
use giantd::rules::{MatchRule, Rule, RuleRaw, Target};

fn rule(id: &str, enabled: bool, host: Option<&str>, regex: Option<&str>) -> Rule {
    Rule::from_raw(RuleRaw {
        id: id.to_string(),
        enabled,
        match_rule: MatchRule {
            host: host.map(|s| s.to_string()),
            path: None,
            not_path: None,
            method: None,
            regex: regex.map(|s| s.to_string()),
        },
        target: Target { host: "localhost".to_string(), port: 3000, scheme: "http".to_string(), path: None },
        preserve_host: true,
        priority: 0,
    })
    .unwrap()
}

#[test]
fn extracts_host_from_regex_with_lookahead() {
    let hosts = extract_hosts_from_regex(r"^(https)://.*\.preprod\.example\.com/merchant(?!/v1).*");
    assert_eq!(hosts, vec!["*.preprod.example.com"]);
}

#[test]
fn extracts_host_from_simple_regex() {
    let hosts = extract_hosts_from_regex(r"^(https)://.*\.stage\.example\.com/tools(?!/v1).*");
    assert_eq!(hosts, vec!["*.stage.example.com"]);
}

#[test]
fn no_host_from_garbage() {
    let hosts = extract_hosts_from_regex(r"^foobar");
    assert!(hosts.is_empty());
}

#[test]
fn pac_output_uses_direct_default() {
    let pac = generate_pac(&vec![], 9456);
    assert!(pac.contains("DIRECT"));
    assert!(!pac.contains("PROXY"));
}

#[test]
fn no_host_when_it_has_a_group() {
    assert!(extract_hosts_from_regex(r"^https://api\.(dev|staging)\.example\.com/v1").is_empty());
}

#[test]
fn empty_pac_is_exactly_direct() {
    assert_eq!(
        generate_pac(&vec![], 9456),
        "function FindProxyForURL(url, host) {\n  return \"DIRECT\";\n}"
    );
}

#[test]
fn pac_lists_each_host_once_and_skips_disabled_rules() {
    let rules = vec![
        rule("a", true, Some("*.example.com"), None),
        rule("b", true, None, Some(r"^(https)://.*\.example\.com/x.*")),
        rule("c", false, Some("*.off.com"), None),
        rule("d", true, Some("*.other.com"), None),
    ];
    let pac = generate_pac(&rules, 8080);
    let expected = [
        "function FindProxyForURL(url, host) {",
        "  if (shExpMatch(host, \"*.example.com\")) {",
        "    return \"PROXY 127.0.0.1:8080\";",
        "  }",
        "  if (shExpMatch(host, \"*.other.com\")) {",
        "    return \"PROXY 127.0.0.1:8080\";",
        "  }",
        "  return \"DIRECT\";",
        "}",
    ]
    .join("\n");
    assert_eq!(pac, expected);
}
