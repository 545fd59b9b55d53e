pub mod text;
pub mod language;
pub mod config;
pub mod models;
pub mod runner;
pub mod server;
