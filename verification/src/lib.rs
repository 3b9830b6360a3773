pub mod text;
pub mod error;
pub mod json;
pub mod security;
pub mod paths;
pub mod fsm;
pub mod index_parser;
pub mod idempotency;
pub mod lorebook;
pub mod volume_inject;
pub mod adapter;
pub mod agent;
pub mod chat_store;
pub mod requests;
pub mod prompts;
pub mod preset;
pub mod gating;
pub mod orchestrator;
pub mod resources;
pub mod chat_pipeline;
pub mod mcp_tools;
pub mod daemon;
pub mod hub;
pub mod scene;
pub mod auto_converter;
pub mod config;
