//! Clone-path planning for a git workspace organised as `root-dir/host/owner/repo`.
pub mod text;
pub mod url_parser;
pub mod destination;
pub mod error;
pub mod git_cmd;
pub mod git_config;
pub mod git_ops;
pub mod category_config;
pub mod config_order;
pub mod pattern;
pub mod category_routing;
pub mod clone_plan;
pub mod cli;
pub mod config_category;
pub mod repo_walk;
pub mod shellenv;
pub mod version;
