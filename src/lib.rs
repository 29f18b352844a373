pub mod config;
pub mod registry;
pub mod session;
pub mod utils;
