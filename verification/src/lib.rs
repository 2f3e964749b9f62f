pub mod cli;
pub mod client;
pub mod collections;
pub mod config;
pub mod database;
pub mod edit;
pub mod global_config;
pub mod json;
pub mod migration;
pub mod paths;
pub mod payload;
pub mod prompt;
pub mod remote;
pub mod schema;
pub mod self_host;
pub mod snapshot;
pub mod state;
pub mod strmap;
pub mod sync;
pub mod text;
pub mod typegen;
