pub mod api;
pub mod config;
pub mod doctor;
pub mod emit;
pub mod encoding;
pub mod error;
pub mod filter;
pub mod json;
pub mod link;
pub mod number;
pub mod order;
pub mod runtime;
pub mod selector;
pub mod subscription;
pub mod supervise;
pub mod text;
pub mod update;
pub mod yaml;
