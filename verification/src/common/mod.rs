pub mod app_env;
pub mod boot;
