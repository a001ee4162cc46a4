pub mod error;
pub mod text;
pub mod lang;
pub mod io;
pub mod managers;
pub mod ui;
pub mod compiler;
pub mod runtime;
