//! Keyward: the decisions of an SSH agent proxy that can say what a signature
//! was for.

pub mod agent;
pub mod attrib;
pub mod cli;
pub mod config;
pub mod crypto;
pub mod enclave;
pub mod event;
pub mod paths;
pub mod purpose;
pub mod text;
pub mod ui;
pub mod wire;
