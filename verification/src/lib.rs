pub mod text;
pub mod fmt;
pub mod skills;
pub mod mode;
pub mod json;
pub mod llm;
pub mod tools;
pub mod agent;
pub mod latex;
pub mod unicode;
pub mod document;
pub mod sources;
pub mod hygiene;
pub mod claims;
pub mod search;
pub mod context;
pub mod table;
pub mod ids;
pub mod vertex;
pub mod ui;
pub mod commands;
pub mod mcp;
pub mod endpoints;
pub mod monitor;
