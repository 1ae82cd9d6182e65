//! Cursor Bridge: the verified core of an OpenAI-compatible gateway in front
//! of the Cursor CLI.

pub mod agent;
pub mod config;
pub mod json;
pub mod models;
pub mod routes;
pub mod setup;
pub mod text;
