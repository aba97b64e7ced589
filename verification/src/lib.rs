//! Wire encoding of the wRPC blobstore interface, and the option handling of
//! the `generate!` bindings macro.
pub mod wire;
pub mod records;
pub mod blobstore;
pub mod bindgen;
pub mod input;
pub mod expand;
