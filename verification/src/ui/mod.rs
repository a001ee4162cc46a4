pub mod key;
pub mod input;
pub mod output;
pub mod banner;
pub mod suggestions;
pub mod shell;
pub mod events;
