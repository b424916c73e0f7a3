//! Kayton runtime: a context-scoped, reference-counted handle store with a
//! host-extension registry, a structurally verified bytecode format, and a
//! stack-based virtual machine that bridges VM values to host handles at
//! extension-call boundaries.

pub mod abi;
pub mod store;
pub mod text;
pub mod api;
pub mod registry;
pub mod host;
pub mod bytecode;
pub mod vm;
pub mod codec;
pub mod stdlib;
