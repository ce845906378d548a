use refracted::common::app_env::parse_app_env;
use refracted::common::boot::{
    app_data_dir_choice, boot_plan, resolve_listen_host, BootOptions, DataDirChoice, IdentitySource,
};

fn vars(v: Vec<(String, String)>) -> Vec<(String, String)> {
    v
}

#[test]
fn boot_without_env_uses_json_personas() {
    let p = boot_plan(&BootOptions { data_dir: None, game_id: Some("  ".to_string()), env: None });
    assert_eq!(p.data_dir, None);
    assert_eq!(p.game_id, None);
    assert_eq!(p.identity, IdentitySource::JsonPersonas);
    assert!(!p.log_identity_policy);
}

#[test]
fn boot_with_env_file() {
    let env = parse_app_env("x/refracted.env".to_string(), "game= cnc \ndatasource=mysql\ndata_dir=/srv/data\n").unwrap();
    let p = boot_plan(&BootOptions { data_dir: None, game_id: None, env: Some(env.clone()) });
    assert_eq!(p.game_id.as_deref(), Some("cnc"));
    assert_eq!(p.identity, IdentitySource::Mysql);
    assert!(p.log_identity_policy);
    assert_eq!(p.data_dir, env.data_dir.clone());
    let p = boot_plan(&BootOptions {
        data_dir: Some("/tmp/d".to_string()),
        game_id: Some(" ra3 ".to_string()),
        env: Some(env),
    });
    assert_eq!(p.data_dir.as_deref(), Some("/tmp/d"));
    assert_eq!(p.game_id.as_deref(), Some("ra3"));
}

#[test]
fn listen_host_choice() {
    assert_eq!(resolve_listen_host(None, None), "0.0.0.0");
    assert_eq!(resolve_listen_host(Some("127.0.0.1"), Some("10.0.0.1")), "127.0.0.1");
    assert_eq!(resolve_listen_host(None, Some("10.0.0.1")), "10.0.0.1");
    // A blank command-line value is not replaced by the env file's.
    assert_eq!(resolve_listen_host(Some(" "), Some("10.0.0.1")), "0.0.0.0");
}

#[test]
fn data_dir_choice() {
    assert_eq!(app_data_dir_choice(true, Some("/x"), true), DataDirChoice::Override);
    assert_eq!(app_data_dir_choice(false, Some(" /x "), true), DataDirChoice::FromEnv("/x".to_string()));
    assert_eq!(app_data_dir_choice(false, Some("  "), true), DataDirChoice::BesideExecutable);
    assert_eq!(app_data_dir_choice(false, None, false), DataDirChoice::Relative);
}

#[test]
fn process_vars_of_an_env_file() {
    let env = parse_app_env("e".to_string(), "log_level=debug\n").unwrap();
    let v = vars(env.process_vars(false));
    assert_eq!(v[0], ("REFRACTED_GAME".to_string(), "cnc".to_string()));
    assert_eq!(v[1], ("REFRACTED_ENVIRONMENT".to_string(), "dev".to_string()));
    assert_eq!(v[2], ("REFRACTED_DATASOURCE".to_string(), "json".to_string()));
    assert_eq!(v.last().unwrap(), &("RUST_LOG".to_string(), "debug".to_string()));
    assert!(env.process_vars(true).iter().all(|(k, _)| k != "RUST_LOG"));
}
