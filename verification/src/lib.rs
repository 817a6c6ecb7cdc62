//! Placeholder replacement in JAR and ZIP archives.

pub mod strings;
pub mod placeholders;
pub mod error;
pub mod text;
pub mod security;
pub mod patterns;
pub mod config;
pub mod zipio;
pub mod classfile;
pub mod processor;
pub mod jar;
pub mod archive;
pub mod paths;
pub mod tool;
pub mod cli;
pub mod server;
