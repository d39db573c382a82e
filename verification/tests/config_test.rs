use giantd::config::{profile_names, AppConfig, Profile, ProfileMeta, ProfileRaw};
use giantd::rules::{MatchRule, RuleRaw, Target};

fn rule(id: &str, host: Option<&str>, path: Option<&str>, regex: Option<&str>, port: u16) -> RuleRaw {
    RuleRaw {
        id: id.to_string(),
        enabled: true,
        match_rule: MatchRule {
            host: host.map(|s| s.to_string()),
            path: path.map(|s| s.to_string()),
            not_path: None,
            method: None,
            regex: regex.map(|s| s.to_string()),
        },
        target: Target { host: "localhost".to_string(), port, scheme: "http".to_string(), path: None },
        preserve_host: true,
        priority: 0,
    }
}

#[test]
fn parse_profile_toml() {
    let raw = ProfileRaw {
        meta: ProfileMeta {
            name: "test".to_string(),
            description: Some("Test profile".to_string()),
            format_version: 1,
        },
        rules: vec![rule("rule1", Some("*.example.com"), Some("/api/*"), None, 3000)],
    };
    assert_eq!(raw.meta.name, "test");
    assert_eq!(raw.rules.len(), 1);
    assert_eq!(raw.rules[0].id, "rule1");
    assert!(raw.rules[0].enabled);

    let profile = Profile::from_raw(raw).expect("should compile profile");
    assert_eq!(profile.rules.len(), 1);
    assert_eq!(profile.rules[0].id, "rule1");
}

#[test]
fn parse_profile_with_regex_rule() {
    let raw = ProfileRaw {
        meta: ProfileMeta { name: "regex_test".to_string(), description: None, format_version: 1 },
        rules: vec![rule("regex_rule", None, None, Some(r"^https://api-v[0-9]+\.example\.com/.*"), 8000)],
    };
    let profile = Profile::from_raw(raw).expect("should compile regex rule");
    assert!(profile.rules[0].compiled_regex.is_some());
}

#[test]
fn reject_duplicate_rule_ids() {
    let rules = vec![
        rule("same_id", Some("*.example.com"), None, None, 3000),
        rule("same_id", Some("*.other.com"), None, None, 4000),
    ];
    let raw = ProfileRaw {
        meta: ProfileMeta { name: "test".to_string(), description: None, format_version: 1 },
        rules,
    };
    assert!(Profile::from_raw(raw).is_err());
}

#[test]
fn config_defaults() {
    let config = AppConfig {
        version: 1,
        listen_port: 8080,
        pac_port: 9876,
        log_level: "info".to_string(),
        log_max_size_mb: 10,
        log_max_files: 5,
        auto_start: false,
        default_profile: None,
        routing_mode: "manual".to_string(),
        browser: None,
        bypass_hosts: vec![],
    };
    assert_eq!(config.listen_port, 8080);
    assert_eq!(config.pac_port, 9876);
    assert_eq!(config.routing_mode, "manual");
}

#[test]
fn default_config_matches_documented_defaults() {
    let c = AppConfig::default_config();
    assert_eq!(c.version, 1);
    assert_eq!(c.listen_port, 8080);
    assert_eq!(c.pac_port, 9876);
    assert_eq!(c.log_level, "info");
    assert_eq!(c.log_max_size_mb, 10);
    assert_eq!(c.log_max_files, 5);
    assert!(!c.auto_start);
    assert_eq!(c.default_profile, None);
    assert_eq!(c.routing_mode, "manual");
    assert_eq!(c.browser, None);
    assert!(c.bypass_hosts.is_empty());
}

#[test]
fn duplicate_id_error_names_the_id() {
    let raw = ProfileRaw {
        meta: ProfileMeta { name: "t".to_string(), description: None, format_version: 1 },
        rules: vec![rule("x", None, None, None, 1), rule("y", None, None, None, 1), rule("x", None, None, None, 1)],
    };
    let err = Profile::from_raw(raw).unwrap_err();
    assert_eq!(err.to_string(), "rule error: duplicate rule id: x");
}

#[test]
fn bad_regex_error_comes_from_the_first_faulty_rule() {
    let raw = ProfileRaw {
        meta: ProfileMeta { name: "t".to_string(), description: None, format_version: 1 },
        rules: vec![rule("a", None, None, Some("[bad"), 1), rule("a", None, None, None, 1)],
    };
    match Profile::from_raw(raw) {
        Err(giantd::errors::GiantError::RuleError(m)) => assert!(!m.contains("duplicate")),
        other => panic!("unexpected: {:?}", other),
    }
}

#[test]
fn migration_marks_old_configs_current() {
    let mut c = AppConfig::default_config();
    assert!(c.clone().migrate().is_none());
    c.version = 0;
    c.listen_port = 1234;
    let m = c.migrate().expect("old config migrates");
    assert_eq!(m.version, 1);
    assert_eq!(m.listen_port, 1234);
}

#[test]
fn profile_names_are_toml_stems_sorted() {
    let files: Vec<String> = ["b.toml", "notes.txt", "a.toml", ".toml", "c.d.toml", "zz.TOML"]
        .iter()
        .map(|s| s.to_string())
        .collect();
    assert_eq!(profile_names(&files), vec!["a", "b", "c.d"]);
}
