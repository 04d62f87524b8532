//! Binding-layout derivation and texture-array slot allocation for a 2D
//! renderer, stated and proved over plain values.
//!
//! The graphics device itself is never called from here: every operation
//! returns a description of what has to be created or written, and the caller
//! hands that description to the device. Image files are decoded here, by the
//! `image` crate, from bytes that the caller has read.

pub mod pipeline_manager;
pub mod render_resource;
pub mod texture_array_manager;
pub mod texture_manager;
pub mod utils;
