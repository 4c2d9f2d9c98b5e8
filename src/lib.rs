//! Loader for macro-based robot descriptions: source decoding, main-file
//! selection, macro resolution, the model parser boundary, kinematic-tree
//! planning, deferred collider resolution and the single-slot load request
//! queue.

pub mod colliders;
pub mod decode;
pub mod files;
pub mod loader;
pub mod macros;
pub mod model;
pub mod parse;
pub mod plan;
pub mod text;
