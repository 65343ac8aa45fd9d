pub mod presenter;
pub mod table;
pub mod describe;
pub mod exit_status;
pub mod signal;
pub mod probe;
pub mod watcher;
pub mod fingerprint;
pub mod database;
pub mod install;
pub mod logs;
pub mod enc_file;
pub mod persistence;
pub mod api;
pub mod laws;
pub mod http;
pub mod paths;
pub mod inline;
pub mod apps_file;
pub mod loader;
pub mod config;
pub mod domain;
pub mod env_file;
pub mod path;
pub mod program;
pub mod text;
