//! Verified core logic of the dprint command line: plugin resolution,
//! configuration handling, file patterns, permissions and scheduling.
pub mod cache_meta;
pub mod cache_file_names;
pub mod canonicalized_path_buf;
pub mod changes;
pub mod collection;
pub mod config_discovery;
pub mod config_edit;
pub mod configuration;
pub mod deserialize;
pub mod downloads;
pub mod environment;
pub mod executables;
pub mod format;
pub mod global_config;
pub mod incremental;
pub mod json_edit;
pub mod init_config;
pub mod manipulation;
pub mod name_resolution;
pub mod path;
pub mod paths;
pub mod patterns;
pub mod permissions;
pub mod process_plugin;
pub mod project_type;
pub mod resolve;
pub mod template;
pub mod wasm;
pub mod text;
