//! The standalone JAR/ZIP tool: single JARs have placeholders replaced in
//! their class files; ZIP bundles are unpacked, the JARs that `process.txt`
//! lists are processed, and the bundle is packed again.

pub mod config;
pub mod jar;
pub mod processor;
pub mod zip_operations;
