//! Verified core logic of the Codex agent engine and the browser web search tool.

pub mod json;
pub mod number_text;
pub mod text;
pub mod events;
pub mod protocol;
pub mod history;
pub mod keyed;
pub mod registry;
pub mod state;
pub mod turn;
pub mod search_text;
pub mod search_url;
pub mod web_search;
pub mod search_tool;
pub mod search_cache;
pub mod browser_search;
pub mod search_run;
pub mod config;
pub mod api;
pub mod project;
pub mod skills;
