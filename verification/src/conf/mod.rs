pub mod cli;
pub mod handlers;
pub mod loader;
pub mod schema;
