pub mod text;
pub mod json;
pub mod sort;
pub mod task;
pub mod error;
pub mod validate;
pub mod relations;
pub mod service;
pub mod listing;
pub mod clock;
pub mod status;
pub mod show;
pub mod help;
pub mod remote;
pub mod config;
pub mod sync;
pub mod archive;
pub mod commands;
pub mod mcp;
pub mod store;
pub mod github;
pub mod closing;
pub mod shortcut;
pub mod issue_body;
pub mod pull;
pub mod imports;
pub mod task_json;
pub mod doctor;
pub mod steps;
pub mod config_file;
