//! Core object model of a content-addressed version-control store: object
//! framing, content identifiers, tree decoding and abbreviated-identifier
//! resolution.

pub mod cli;
pub mod errors;
pub mod locate;
pub mod primitives;
pub mod scan;
pub mod store;
pub mod tree;
pub mod types;
