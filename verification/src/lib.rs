pub mod text;
pub mod matcher;
pub mod ubo;
pub mod config;
pub mod pipeline;
pub mod monitor;
pub mod service;
