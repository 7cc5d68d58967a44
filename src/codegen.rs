//! Code generation back ends.
pub mod wasm;
