//! SSH hosts: the aliases and details that `ssh_config(5)` files name, what the
//! user keeps about each host, how the settings page shows it, and the life of
//! sessions to them.

pub mod aliases;
pub mod config_laws;
pub mod details;
pub mod directives;
pub mod edit_dialog;
pub mod host_list;
pub mod include_laws;
pub mod include_tree;
pub mod include_walk;
pub mod journal;
pub mod managed;
pub mod metadata;
pub mod numbers;
pub mod order;
pub mod page_laws;
pub mod paths;
pub mod pattern;
pub mod record_laws;
pub mod reconnect;
pub mod reconnect_laws;
pub mod session_laws;
pub mod settings_page;
pub mod text;
pub mod text_laws;
