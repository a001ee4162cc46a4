pub mod history;
pub mod config;
pub mod suggestions;
