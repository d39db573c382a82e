use giantd::certs::{join_path, CertAuthority};
use giantd::pid::{parse_pid, pid_path, pid_text};
use giantd::text::trim;

#[test]
fn load_without_generate_fails() {
    let result = CertAuthority::load("/tmp/giant-empty", false, false);
    assert!(result.is_err(), "load should fail when no cert exists");
    let err = result.err().unwrap().to_string();
    assert!(err.contains("not found"), "error should mention not found: {}", err);
}

#[test]
fn load_after_generate_succeeds() {
    let ca = CertAuthority::load("/tmp/giant", true, true).expect("load should succeed after generate");
    assert!(ca.cert_path.ends_with("ca/giant-proxy-ca.pem"));
    assert!(ca.key_path.ends_with("ca/giant-proxy-ca-key.pem"));
    assert_eq!(ca.cert_path, "/tmp/giant/ca/giant-proxy-ca.pem");
}

#[test]
fn load_with_missing_key_fails() {
    assert!(CertAuthority::load("/tmp/giant", true, false).is_err(), "load should fail when key is missing");
}

#[test]
fn load_with_missing_cert_fails() {
    assert!(CertAuthority::load("/tmp/giant", false, true).is_err(), "load should fail when cert is missing");
}

#[test]
fn check_permissions_passes_for_600() {
    assert!(CertAuthority::check_mode(0o100600).is_ok());
}

#[test]
fn check_permissions_fails_for_644() {
    let result = CertAuthority::check_mode(0o100644);
    assert!(result.is_err(), "should reject 644 permissions");
    let err = result.err().unwrap().to_string();
    assert!(err.contains("644"), "error should mention actual mode: {}", err);
}

#[test]
fn check_permissions_fails_for_777() {
    assert!(CertAuthority::check_mode(0o777).is_err());
}

#[test]
fn paths_join_like_std() {
    assert_eq!(join_path("/a", "b"), "/a/b");
    assert_eq!(join_path("/a/", "b"), "/a/b");
    assert_eq!(join_path("", "b"), "b");
    assert_eq!(pid_path("/home/u/.giant-proxy"), "/home/u/.giant-proxy/giantd.pid");
}

#[test]
fn pid_files_parse() {
    assert_eq!(parse_pid("1234\n"), Some(1234));
    assert_eq!(parse_pid("  42  "), Some(42));
    assert_eq!(parse_pid("abc"), None);
    assert_eq!(parse_pid(""), None);
    assert_eq!(parse_pid("4294967296"), None);
}

#[test]
fn pid_text_reads_back() {
    for pid in [0u32, 1, 9, 10, 4321, 65536, u32::MAX] {
        assert_eq!(pid_text(pid), pid.to_string());
        assert_eq!(parse_pid(&pid_text(pid)), Some(pid));
    }
    assert_eq!(parse_pid("\u{3000}77\u{a0}\r\n"), Some(77));
}

#[test]
fn trim_matches_std() {
    for s in ["", "   ", " a b ", "\t\nx\r\n", "\u{85}y\u{2028}", "\u{200b}z\u{200b}", "\u{3000}\u{1680}w\u{202f}"] {
        assert_eq!(trim(s), s.trim(), "input {:?}", s);
    }
}
