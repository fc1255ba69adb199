//! Semantic model of Rust types for code generation.

pub mod build;
pub mod cycles;
pub mod defaults;
pub mod desired;
pub mod graph;
pub mod error;
pub mod finalize;
pub mod json;
pub mod items;
pub mod json_text;
pub mod laws;
pub mod message;
pub mod params;
pub mod render;
pub mod resolve;
pub mod settings;
pub mod syntax;
pub mod trait_resolution;
pub mod traits;
pub mod variants;
pub mod view;

pub use crate::traits::{
    TraitDisposition, TraitProvision, TypeSpaceImpl, TypespaceTrait, TypespaceTraitSet,
};

