use refracted::common::app_env::{
    normalize_launch_args, parse_app_env, Datasource, Environment, MysqlParams, DEFAULT_ENV_CONTENTS,
    ENV_FILE_NAME,
};

#[test]
fn parse_commented_template() {
    let env = parse_app_env(String::from("refracted.env"), DEFAULT_ENV_CONTENTS).unwrap();
    assert_eq!(env.game, "cnc");
    assert_eq!(env.environment, Environment::Dev);
    assert_eq!(env.datasource, Datasource::Json);
    assert_eq!(env.mysql.host, "127.0.0.1");
    assert_eq!(env.mysql.database, "refracted");
    assert_eq!(env.mysql.user, "refracted");
    assert!(env.mysql.pass.is_empty());
}

#[test]
fn local_alias_is_json() {
    let env = parse_app_env(String::from("x.env"), "datasource=local\n").unwrap();
    assert_eq!(env.datasource, Datasource::Json);
}

#[test]
fn parse_mysql_prod() {
    let src = "\
game=bf-labs
environment=production
datasource=mysql
host=db.internal:3307
database=nexus
user=blaze
pass=s3cret#hash
";
    let env = parse_app_env(String::from("x.env"), src).unwrap();
    assert_eq!(env.game, "bf-labs");
    assert_eq!(env.environment, Environment::Prod);
    assert_eq!(env.datasource, Datasource::Mysql);
    assert_eq!(env.mysql.host, "db.internal:3307");
    assert_eq!(env.mysql.host_port(), ("db.internal".to_string(), 3307));
    assert_eq!(env.mysql.pass, "s3cret#hash");
}

#[test]
fn normalize_env_flag_forms() {
    let cases = [
        vec!["rfrcli", "-env", r"D:\prod\refracted.env"],
        vec!["rfrcli", "--env", r"D:\prod\refracted.env"],
        vec!["rfrcli", r"-envD:\prod\refracted.env"],
        vec!["rfrcli", r"--env=D:\prod\refracted.env"],
    ];
    for args in cases {
        let out = normalize_launch_args(args.into_iter().map(String::from).collect());
        assert_eq!(out[1], "--env");
        assert_eq!(out[2], r"D:\prod\refracted.env");
    }
}

#[test]
fn unknown_datasource_is_refused() {
    let err = parse_app_env(String::from("x.env"), "datasource=postgres\n").unwrap_err();
    assert_eq!(err, "unknown datasource 'postgres' (expected json or mysql)");
    assert!(Datasource::parse("sqlite").is_err());
    assert_eq!(Datasource::parse(" MySQL ").unwrap(), Datasource::Mysql);
}

#[test]
fn environment_aliases() {
    assert_eq!(Environment::parse("production"), Environment::Prod);
    assert_eq!(Environment::parse("stage"), Environment::Staging);
    assert_eq!(Environment::parse("whatever"), Environment::Dev);
    assert_eq!(Environment::Prod.as_str(), "prod");
    assert_eq!(Datasource::Json.as_str(), "json");
}

#[test]
fn empty_file_takes_defaults() {
    let env = parse_app_env(String::from(ENV_FILE_NAME), "").unwrap();
    assert_eq!(env.game, "cnc");
    assert_eq!(env.environment, Environment::Dev);
    assert_eq!(env.datasource, Datasource::Json);
    assert_eq!(env.path, ENV_FILE_NAME);
    assert_eq!(env.listen_host, None);
}

#[test]
fn mysql_host_without_port_uses_default() {
    let p = MysqlParams {
        host: "db.internal".to_string(),
        database: String::new(),
        user: String::new(),
        pass: String::new(),
    };
    assert_eq!(p.host_port(), ("db.internal".to_string(), 3306));
    let p = MysqlParams { host: "db:notaport".to_string(), ..p };
    assert_eq!(p.host_port(), ("db:notaport".to_string(), 3306));
}

#[test]
fn other_args_pass_through() {
    let args: Vec<String> = vec!["rfrcli", "--verbose", "x"].into_iter().map(String::from).collect();
    assert_eq!(normalize_launch_args(args.clone()), args);
}
