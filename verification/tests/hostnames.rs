use refracted::cnc::hostnames::{
    looks_like_server_hostname, machine_hostname_label, normalize_hostname_label, peer_display_fallback,
};

#[test]
fn hostname_labels() {
    assert_eq!(normalize_hostname_label("  pcc/dedi-01.lan\0"), "dedi-01");
    assert_eq!(normalize_hostname_label("pcc/dedi-box.lan"), "DEDI-BOX");
    assert_eq!(normalize_hostname_label("PCC/box_a"), "BOX_A");
    assert_eq!(normalize_hostname_label("Rack7.example.com"), "Rack7");
    assert_eq!(normalize_hostname_label("server"), "SERVER");
    assert_eq!(normalize_hostname_label(""), "");
}

#[test]
fn server_like_names() {
    assert!(looks_like_server_hostname(" DEDI-7 "));
    assert!(!looks_like_server_hostname("   "));
    assert!(!looks_like_server_hostname("user@host"));
    assert!(!looks_like_server_hostname("rtsblazeserver"));
    assert!(!looks_like_server_hostname("CNCO12345"));
    assert!(!looks_like_server_hostname(&"x".repeat(65)));
    assert!(looks_like_server_hostname(&"x".repeat(64)));
}

#[test]
fn machine_and_peer_names() {
    assert_eq!(machine_hostname_label(Some(" box.local. ")), "BOX.LOCAL");
    assert_eq!(machine_hostname_label(None), "SERVER");
    assert_eq!(peer_display_fallback(Some("127.0.0.1"), "BOX"), Some("BOX".to_string()));
    assert_eq!(peer_display_fallback(Some("::1"), "BOX"), Some("BOX".to_string()));
    assert_eq!(peer_display_fallback(Some("10.0.0.5"), "BOX"), Some("10.0.0.5".to_string()));
    assert_eq!(peer_display_fallback(None, "BOX"), None);
}
