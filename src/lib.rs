pub mod commands;
pub mod config;
pub mod manifest;
pub mod resolve;
pub mod shim;
pub mod table;
pub mod versions;
