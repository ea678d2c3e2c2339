pub mod civil;
pub mod commands;
pub mod ffi;
pub mod pem;
pub mod text;
pub mod trust_store;
pub mod x509;
pub mod dto;
pub mod rust_core;
pub mod json;
