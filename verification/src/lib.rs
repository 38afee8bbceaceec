//! Verified core of the LLRT bytecode loader: bytecode headers, the trailer of
//! self-contained executables, the module bytecode cache, module-name
//! normalisation, and the decisions of the command line.
pub mod bytecode;
pub mod decompress;
pub mod loader;
pub mod executable;
pub mod text;
pub mod cache;
pub mod sdk_client;
pub mod cli;
