//! Distribution and synchronisation of a mod-pack: a content tree of hashed
//! files, the construction of manifest entries, resolution of registry
//! dependency graphs, and the plan that brings a local folder to a target tree.
pub mod extras;
pub mod manifest;
pub mod resolver;
pub mod sync;
pub mod tree;
