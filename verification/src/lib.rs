pub mod audio;
pub mod chain;
pub mod config;
pub mod document;
pub mod laws;
pub mod plugin;
pub mod processing;
pub mod text;
pub mod yaml;
