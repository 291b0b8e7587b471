//! A gateway that turns self-contained HTTP requests into PostgreSQL queries
//! and proxied HTTP calls.
pub mod cli;
pub mod encoding;
pub mod health;
pub mod http;
pub mod json;
pub mod proxy;
pub mod query;
pub mod service;
pub mod text;
pub mod updater;
