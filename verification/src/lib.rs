//! Text rendering, context bookkeeping and release handling of the `me` agent.

pub mod agent_markdown_renderer;
pub mod compact;
pub mod context_usage;
pub mod diag;
pub mod event;
pub mod json;
pub mod markdown;
pub mod model;
pub mod parts;
pub mod python_runtime;
pub mod random;
pub mod reading;
pub mod text;
pub mod toolbox;
pub mod turn_history;
pub mod updater;
