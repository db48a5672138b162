//! The decisions behind the step-loupe viewer bundle: how a STEP scene (read
//! into the plain `model` types) becomes the tree of nodes, the detail-pane
//! metadata, the highlight map and the geometry requests that the front-end
//! renders.
pub mod model;
pub mod text;
pub mod tree;
pub mod labels;
pub mod product;
pub mod builder;
pub mod assembly;
pub mod info;
pub mod pmi;
pub mod bundle;
pub mod step_file;
pub mod laws;
