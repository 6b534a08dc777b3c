//! The verified core of the toylang compiler.
pub mod cache;
pub mod cache_key;
pub mod frame;
pub mod hash;
pub mod llvm_gen;
pub mod manifest;
pub mod names;
pub mod oracle;
pub mod rust_items;
pub mod rust_lookup;
pub mod sidecar;
pub mod stub_gen;
pub mod stub_laws;
pub mod stub_reading;
pub mod text;
pub mod toylang;
pub mod typeid;
pub mod wire;
pub mod workspace;
