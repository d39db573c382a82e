use giantd::config::{ProfileMeta, ProfileRaw};
use giantd::routing::{detect_desktop, generate_env_snippet, join, listen_addr, Desktop};
use giantd::rules::{MatchRule, RuleRaw, Target};

fn rule(id: &str) -> RuleRaw {
    RuleRaw {
        id: id.to_string(),
        enabled: true,
        match_rule: MatchRule { host: Some("*".to_string()), path: None, not_path: None, method: None, regex: None },
        target: Target { host: "localhost".to_string(), port: 3000, scheme: "http".to_string(), path: None },
        preserve_host: true,
        priority: 0,
    }
}

fn profile() -> ProfileRaw {
    ProfileRaw {
        meta: ProfileMeta { name: "p".to_string(), description: None, format_version: 1 },
        rules: vec![rule("a"), rule("b")],
    }
}

#[test]
fn adding_an_existing_id_is_refused() {
    let mut p = profile();
    assert!(!p.add_rule(rule("a")));
    assert_eq!(p.rules.len(), 2);
    assert!(p.add_rule(rule("c")));
    assert_eq!(p.rules[2].id, "c");
}

#[test]
fn toggling_a_profile_rule() {
    let mut p = profile();
    assert_eq!(p.toggle_rule("b"), Some(false));
    assert!(!p.rules[1].enabled);
    assert_eq!(p.toggle_rule("b"), Some(true));
    assert_eq!(p.toggle_rule("zzz"), None);
}

#[test]
fn deleting_a_profile_rule() {
    let mut p = profile();
    assert!(!p.delete_rule("zzz"));
    assert!(p.delete_rule("a"));
    assert_eq!(p.rules.len(), 1);
    assert_eq!(p.rules[0].id, "b");
}

#[test]
fn replacing_a_profile_rule() {
    let mut p = profile();
    let mut r = rule("b2");
    r.target.port = 9;
    assert!(p.replace_rule("b", r));
    assert_eq!(p.rules[1].id, "b2");
    assert_eq!(p.rules[1].target.port, 9);
    assert!(!p.replace_rule("nope", rule("x")));
    assert_eq!(p.find_rule("b2"), Some(1));
}

#[test]
fn env_snippet_defaults_no_proxy() {
    let s = generate_env_snippet(8080, "/home/u/.giant-proxy/ca/giant-proxy-ca.pem", &vec![]);
    assert_eq!(
        s,
        "export HTTP_PROXY=http://127.0.0.1:8080\nexport HTTPS_PROXY=http://127.0.0.1:8080\nexport NODE_EXTRA_CA_CERTS=/home/u/.giant-proxy/ca/giant-proxy-ca.pem\nexport NO_PROXY=localhost,127.0.0.1"
    );
}

#[test]
fn env_snippet_uses_bypass_hosts() {
    let bypass = vec!["localhost".to_string(), "*.internal".to_string()];
    let s = generate_env_snippet(9456, "/ca.pem", &bypass);
    assert!(s.ends_with("export NO_PROXY=localhost,*.internal"));
    assert!(s.starts_with("export HTTP_PROXY=http://127.0.0.1:9456\n"));
    assert_eq!(join(&vec![], ","), "");
    assert_eq!(listen_addr(0), "127.0.0.1:0");
}

#[test]
fn desktops_are_detected() {
    assert_eq!(detect_desktop("ubuntu:GNOME"), Desktop::Gnome);
    assert_eq!(detect_desktop("Unity"), Desktop::Gnome);
    assert_eq!(detect_desktop("KDE"), Desktop::Kde);
    assert_eq!(detect_desktop("XFCE"), Desktop::Other);
    assert_eq!(detect_desktop(""), Desktop::Other);
}
