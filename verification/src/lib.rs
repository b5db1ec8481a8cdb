pub mod cache;
pub mod config;
pub mod consts;
pub mod helper;
pub mod message;
pub mod server;
pub mod text;
pub mod timer;
