use refracted::cnc::shell::{
    content_type_for, normalize_shell_theme_id, prism_version_from_env, prism_version_from_file_text,
    prism_version_from_log_text, shell_theme_prefs, strip_ansi_approx, ThemeInput,
};

#[test]
fn content_types_by_extension() {
    assert_eq!(content_type_for("cncg2/index.HTML"), "text/html");
    assert_eq!(content_type_for("a/b/app.js"), "text/javascript");
    assert_eq!(content_type_for("fonts/x.woff2"), "font/woff2");
    assert_eq!(content_type_for("config.cncg2/cncprod150805.cfg"), "text/plain; charset=utf-8");
    assert_eq!(content_type_for("img/logo.jpeg"), "image/jpeg");
    assert_eq!(content_type_for("README"), "application/octet-stream");
    assert_eq!(content_type_for(".hidden"), "application/octet-stream");
    assert_eq!(content_type_for("dir.css/"), "text/css");
    assert_eq!(content_type_for("a/.."), "application/octet-stream");
    assert_eq!(content_type_for("x.tar.gz"), "application/octet-stream");
}

#[test]
fn theme_names() {
    assert_eq!(normalize_shell_theme_id(" Classic "), "classic");
    assert_eq!(normalize_shell_theme_id("CNC-ALPHA"), "classic");
    assert_eq!(normalize_shell_theme_id("alpha"), "classic");
    assert_eq!(normalize_shell_theme_id("aurora"), "aurora");
    assert_eq!(normalize_shell_theme_id("neon"), "aurora");
}

#[test]
fn theme_preferences() {
    let j = ThemeInput::Json { theme: Some("classic".to_string()), default_theme: None };
    assert_eq!(shell_theme_prefs(&j), ("classic".to_string(), "classic".to_string()));
    let j = ThemeInput::Json { theme: None, default_theme: Some("alpha".to_string()) };
    assert_eq!(shell_theme_prefs(&j), ("aurora".to_string(), "classic".to_string()));
    assert_eq!(shell_theme_prefs(&ThemeInput::Text(" alpha\n".to_string())), ("classic".to_string(), "classic".to_string()));
    assert_eq!(shell_theme_prefs(&ThemeInput::Text("  ".to_string())), ("aurora".to_string(), "aurora".to_string()));
    assert_eq!(shell_theme_prefs(&ThemeInput::Unreadable), ("aurora".to_string(), "aurora".to_string()));
}

#[test]
fn ansi_sequences_are_removed() {
    assert_eq!(strip_ansi_approx("\x1b[32mgreen\x1b[0m"), "green");
    assert_eq!(strip_ansi_approx("a\x1b[1;31"), "a");
    assert_eq!(strip_ansi_approx("plain [x]"), "plain [x]");
    // Bytes are read one by one.
    assert_eq!(strip_ansi_approx("é"), "\u{c3}\u{a9}");
}

#[test]
fn prism_versions() {
    assert_eq!(prism_version_from_file_text("  1.2.3 \r\nignored\n"), Some("1.2.3".to_string()));
    assert_eq!(prism_version_from_file_text("\n1.2.3"), None);
    assert_eq!(prism_version_from_file_text(""), None);
    let log = "boot\n\x1b[36m Version: 4.5.6\x1b[0m \nVersion: 7\n";
    assert_eq!(prism_version_from_log_text(log), Some("4.5.6".to_string()));
    assert_eq!(prism_version_from_log_text("Version:   \nnothing"), None);
    assert_eq!(prism_version_from_env("  9.9 "), Some("9.9".to_string()));
    assert_eq!(prism_version_from_env(" "), None);
}
