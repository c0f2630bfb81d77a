pub mod text;
pub mod style;
pub mod template;
pub mod identifiers;
pub mod choices;
pub mod dependencies;
pub mod vars;
pub mod discover;
pub mod aliases;
pub mod resolver;
pub mod resolution;
pub mod vars_repository;
pub mod aliases_repository;
pub mod engine;
pub mod mocks;
pub mod associative_state;
pub mod sequential_state;
pub mod history_aliases;
pub mod session_storage;
pub mod vars_cache;
pub mod list_state;
pub mod view_state;
pub mod readers;
pub mod terminals;
pub mod executors;
pub mod mcp;
pub mod cli;
pub mod previews;
pub mod preview_engine;
pub mod session_engine;
pub mod history_engine;
pub mod fsutils;
pub mod dynamic_resolution;
pub mod ui;
pub mod config_engine;
