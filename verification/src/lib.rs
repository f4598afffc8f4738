pub mod text;
pub mod config;
pub mod time;
pub mod crypto;
pub mod json;
pub mod calendar;
pub mod mcp;
pub mod events;
pub mod news;
pub mod event_feed;
pub mod event_list;
pub mod llm;
pub mod quotes;
pub mod setup;
pub mod stock;
pub mod stock_events;
pub mod assets;
pub mod insights;
pub mod datastore;
