//! Local emulation host core: validated hostcall ABI boundary, read-oriented
//! external data mappings (inline or file-backed), and the immutable execution
//! context shared across concurrent request handlers.

pub mod error;
pub mod text;
pub mod ip;
pub mod scalar;
pub mod serialize;
pub mod json;
pub mod geoip;
pub mod memory;
pub mod session;
pub mod service;
pub mod geo_impl;
