pub mod commands;
pub mod laws;
pub mod model;
pub mod monitor;
pub mod parser;
pub mod session;
pub mod store;
pub mod text;
pub mod value;
