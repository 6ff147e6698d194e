pub mod assets;
pub mod bindings;
pub mod config;
pub mod content;
pub mod error;
pub mod flair;
pub mod text;
pub mod views;
pub mod routes;
pub mod server;
