use giantd::routing::{
    detect_desktop, generate_env_snippet, has_ip_address, has_prefix, has_text, join, lines_of,
    listen_addr, network_services, Desktop,
};

#[test]
fn env_snippet_uses_default_bypass_list() {
    let s = generate_env_snippet(8080, "/home/u/.giant-proxy/ca.pem", &vec![]);
    assert_eq!(
        s,
        "export HTTP_PROXY=http://127.0.0.1:8080\n\
         export HTTPS_PROXY=http://127.0.0.1:8080\n\
         export NODE_EXTRA_CA_CERTS=/home/u/.giant-proxy/ca.pem\n\
         export NO_PROXY=localhost,127.0.0.1"
    );
}

#[test]
fn env_snippet_joins_configured_bypass_hosts() {
    let s = generate_env_snippet(9, "ca.pem", &vec!["a.test".to_string(), "b.test".to_string()]);
    assert!(s.ends_with("export NO_PROXY=a.test,b.test"));
    assert!(s.starts_with("export HTTP_PROXY=http://127.0.0.1:9\n"));
}

#[test]
fn join_puts_separator_between_items_only() {
    assert_eq!(join(&vec![], ","), "");
    assert_eq!(join(&vec!["x".to_string()], ","), "x");
    assert_eq!(join(&vec!["x".to_string(), "y".to_string(), "z".to_string()], ", "), "x, y, z");
}

#[test]
fn listen_addr_is_loopback_with_port() {
    assert_eq!(listen_addr(8443), "127.0.0.1:8443");
    assert_eq!(listen_addr(0), "127.0.0.1:0");
}

#[test]
fn desktop_detection_prefers_gnome() {
    assert_eq!(detect_desktop("ubuntu:GNOME"), Desktop::Gnome);
    assert_eq!(detect_desktop("Unity"), Desktop::Gnome);
    assert_eq!(detect_desktop("KDE"), Desktop::Kde);
    assert_eq!(detect_desktop("GNOME:KDE"), Desktop::Gnome);
    assert_eq!(detect_desktop("XFCE"), Desktop::Other);
    assert_eq!(detect_desktop(""), Desktop::Other);
}

#[test]
fn text_search_finds_substrings() {
    assert!(has_text("abcde", "cd"));
    assert!(has_text("abc", ""));
    assert!(!has_text("abc", "abcd"));
    assert!(has_prefix("IP address: 10.0.0.2", "IP address"));
    assert!(!has_prefix("IP", "IP address"));
}

#[test]
fn lines_split_like_std() {
    for s in ["", "a", "a\n", "a\r\nb", "a\n\nb\n", "x\ry", "end\r", "\n"] {
        let expected: Vec<String> = s.lines().map(|l| l.to_string()).collect();
        assert_eq!(lines_of(s), expected, "input {:?}", s);
    }
}

#[test]
fn network_services_skip_heading_disabled_and_blank_lines() {
    let listing = "An asterisk (*) denotes that a network service is disabled.\n\
                   Wi-Fi\n\
                   *Bluetooth PAN\n\
                   \n\
                   \x20 Thunderbolt Bridge \r\n\
                   USB 10/100/1000 LAN\n";
    assert_eq!(
        network_services(listing),
        vec!["Wi-Fi".to_string(), "Thunderbolt Bridge".to_string(), "USB 10/100/1000 LAN".to_string()]
    );
    assert!(network_services("").is_empty());
    assert!(network_services("heading only").is_empty());
}

#[test]
fn ip_address_needs_a_dotted_address() {
    assert!(has_ip_address("DHCP Configuration\nIP address: 192.168.1.20\nSubnet mask: 255.255.255.0\n"));
    assert!(!has_ip_address("DHCP Configuration\nIP address: none\n"));
    assert!(!has_ip_address("IPv6: Automatic\nIPv6 IP address: none\n"));
    assert!(!has_ip_address("Router: 192.168.1.1\n"));
    assert!(!has_ip_address(""));
}
