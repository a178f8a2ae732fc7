pub mod cli;
pub mod clipboard;
pub mod config;
pub mod crypto;
pub mod encode;
pub mod options;
pub mod order;
pub mod sensitive;
pub mod term;
pub mod text;
