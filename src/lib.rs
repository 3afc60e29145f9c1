//! Image-classification inference pipeline: per-model preprocessing into a
//! planar tensor, a registry of named models, and assembly of per-model
//! predictions into one result.

mod error;
mod layout;
mod preprocess;
mod raster;
mod registry;
mod resample;

pub use error::PipelineError;
pub use layout::lay_out_planar;
pub use preprocess::{letterbox_geometry, preprocess_for_model, sizes_fit_exec, LetterboxGeometry};
pub use raster::RasterImage;
pub use registry::{label_scores, parse_model_subset, ModelRegistry};
