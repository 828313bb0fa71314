//! Build-time link planning for a native library: classifying link artifacts,
//! deriving linker directives from probed package metadata, and assembling an
//! umbrella header over a tree of C headers.

pub mod classify;
pub mod dedup;
pub mod emit;
pub mod headers;
pub mod link_facts;
pub mod metadata;
pub mod order;
pub mod pipeline;
pub mod render;
pub mod text;
