//! Encoding and decoding of QUIC transport parameters.
pub mod consts;
pub mod handler;
pub mod param;
pub mod params;
pub mod varint;
