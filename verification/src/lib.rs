pub mod agent;
pub mod bot;
pub mod cli;
pub mod config;
pub mod cron;
pub mod json;
pub mod laws;
pub mod llm;
pub mod markdown;
pub mod mcp;
pub mod memory;
pub mod tags;
pub mod text;
pub mod tools;
